//! What the desktop settings portal is asked, in which order, and what its
//! answers mean.
//!
//! The portal is reached over a bus, which is the caller's business: it
//! performs a [`Request`], hands the reply back and is told what to do next.
use vstd::prelude::*;

use crate::font::{pango_families, pango_font_families, qt_families, qt_font_families, texts};

verus! {

/// How a window is drawn.
#[derive(Clone, Copy, Debug, PartialEq, Eq, Structural)]
pub enum WindowAppearance {
    Light,
    VibrantLight,
    Dark,
    VibrantDark,
}

/// The colours that the desktop asks applications to use.
#[derive(Clone, Copy, Debug, PartialEq, Eq, Structural)]
pub enum ColorScheme {
    NoPreference,
    PreferDark,
    PreferLight,
}

/// What the platform is told of the desktop's settings.
#[derive(Debug, PartialEq, Eq)]
pub enum Event {
    WindowAppearance(WindowAppearance),
    CursorTheme(String),
    CursorSize(u32),
    ButtonLayout(String),
    SystemFont(Vec<String>),
}

/// An event as the contracts see it.
pub enum EventModel {
    WindowAppearance(WindowAppearance),
    CursorTheme(Seq<char>),
    CursorSize(u32),
    ButtonLayout(Seq<char>),
    SystemFont(Seq<Seq<char>>),
}

impl View for Event {
    type V = EventModel;

    open spec fn view(&self) -> EventModel {
        match self {
            Event::WindowAppearance(appearance) => EventModel::WindowAppearance(*appearance),
            Event::CursorTheme(theme) => EventModel::CursorTheme(theme@),
            Event::CursorSize(size) => EventModel::CursorSize(*size),
            Event::ButtonLayout(layout) => EventModel::ButtonLayout(layout@),
            Event::SystemFont(families) => EventModel::SystemFont(texts(families@)),
        }
    }
}

/// Where a desktop keeps the font of its interface.
#[derive(Clone, Copy, Debug, PartialEq, Eq, Structural)]
pub enum FontSetting {
    /// A Pango description.
    Gnome,
    /// A Qt font string.
    Kde,
}

/// A setting of the desktop.
#[derive(Clone, Copy, Debug, PartialEq, Eq, Structural)]
pub enum Setting {
    ColorScheme,
    Font(FontSetting),
    CursorTheme,
    CursorSize,
    ButtonLayout,
}

/// What the portal holds for a setting.
#[derive(Debug, PartialEq, Eq)]
pub enum SettingValue {
    ColorScheme(ColorScheme),
    Text(String),
    Number(i32),
}

/// A value as the contracts see it.
pub enum ValueModel {
    ColorScheme(ColorScheme),
    Text(Seq<char>),
    Number(i32),
}

impl View for SettingValue {
    type V = ValueModel;

    open spec fn view(&self) -> ValueModel {
        match self {
            SettingValue::ColorScheme(scheme) => ValueModel::ColorScheme(*scheme),
            SettingValue::Text(text) => ValueModel::Text(text@),
            SettingValue::Number(number) => ValueModel::Number(*number),
        }
    }
}

/// What to ask the portal.
#[derive(Clone, Copy, Debug, PartialEq, Eq, Structural)]
pub enum Request {
    /// Reach the portal.
    Connect,
    /// Read a setting.
    Read(Setting),
    /// Listen to the changes of a setting.
    Watch(Setting),
}

/// What came of a request.
#[derive(Debug, PartialEq, Eq)]
pub enum Reply {
    Failed,
    /// The portal was reached, or will tell of changes.
    Done,
    /// The setting was read.
    Value(SettingValue),
}

/// A reply as the contracts see it.
pub enum ReplyModel {
    Failed,
    Done,
    Value(ValueModel),
}

impl View for Reply {
    type V = ReplyModel;

    open spec fn view(&self) -> ReplyModel {
        match self {
            Reply::Failed => ReplyModel::Failed,
            Reply::Done => ReplyModel::Done,
            Reply::Value(value) => ReplyModel::Value(value@),
        }
    }
}

/// What to do after a request.
#[derive(Debug, PartialEq, Eq)]
pub struct Step {
    /// What to tell the platform.
    pub event: Option<Event>,
    /// Whether to pass on the changes of the setting that was asked for.
    pub follow: bool,
    /// What to ask next. When there is nothing left, the session is set up, or
    /// the portal could not be reached.
    pub next: Option<Request>,
}

/// A step as the contracts see it.
pub struct StepModel {
    pub event: Option<EventModel>,
    pub follow: bool,
    pub next: Option<Request>,
}

impl View for Step {
    type V = StepModel;

    open spec fn view(&self) -> StepModel {
        StepModel {
            event: match self.event {
                Some(event) => Some(event@),
                None => None,
            },
            follow: self.follow,
            next: self.next,
        }
    }
}

/// What a stream of changes yields.
#[derive(Debug, PartialEq, Eq)]
pub enum Change {
    /// The stream is at its end.
    Ended,
    /// The new value could not be read.
    Failed,
    To(SettingValue),
}

/// How the search for the interface font goes on.
#[derive(Debug, PartialEq, Eq)]
pub enum FontSearch {
    /// Read this setting next.
    Read(FontSetting),
    Found(Vec<String>),
    NotFound,
}

/// The search as the contracts see it.
pub enum FontSearchModel {
    Read(FontSetting),
    Found(Seq<Seq<char>>),
    NotFound,
}

impl View for FontSearch {
    type V = FontSearchModel;

    open spec fn view(&self) -> FontSearchModel {
        match self {
            FontSearch::Read(font) => FontSearchModel::Read(*font),
            FontSearch::Found(families) => FontSearchModel::Found(texts(families@)),
            FontSearch::NotFound => FontSearchModel::NotFound,
        }
    }
}

/// The appearance that goes with a colour scheme: dark only where that is preferred.
pub open spec fn spec_window_appearance(scheme: ColorScheme) -> WindowAppearance {
    if scheme == ColorScheme::PreferDark {
        WindowAppearance::Dark
    } else {
        WindowAppearance::Light
    }
}

/// The number that 32 bits of a signed number stand for without a sign.
pub open spec fn without_sign(number: i32) -> u32 {
    if number >= 0 {
        number as u32
    } else {
        (number + 0x1_0000_0000) as u32
    }
}

/// The families that the text of a font setting names.
pub open spec fn families_of(font: FontSetting, text: Seq<char>) -> Seq<Seq<char>> {
    match font {
        FontSetting::Gnome => pango_families(text),
        FontSetting::Kde => qt_families(text),
    }
}

/// The event that tells of a setting's value. A value of the wrong type tells nothing.
pub open spec fn event_of(setting: Setting, value: ValueModel) -> Option<EventModel> {
    match (setting, value) {
        (Setting::ColorScheme, ValueModel::ColorScheme(scheme)) => Some(
            EventModel::WindowAppearance(spec_window_appearance(scheme)),
        ),
        (Setting::Font(font), ValueModel::Text(text)) => Some(
            EventModel::SystemFont(families_of(font, text)),
        ),
        (Setting::CursorTheme, ValueModel::Text(theme)) => Some(EventModel::CursorTheme(theme)),
        (Setting::CursorSize, ValueModel::Number(size)) => Some(
            EventModel::CursorSize(without_sign(size)),
        ),
        (Setting::ButtonLayout, ValueModel::Text(layout)) => Some(EventModel::ButtonLayout(layout)),
        _ => None,
    }
}

/// The request that follows a reading. Of the font settings only the first that
/// can be read counts.
pub open spec fn after_read(setting: Setting, known: bool) -> Request {
    match setting {
        Setting::ColorScheme => Request::Read(Setting::Font(FontSetting::Gnome)),
        Setting::Font(FontSetting::Gnome) => if known {
            Request::Read(Setting::CursorTheme)
        } else {
            Request::Read(Setting::Font(FontSetting::Kde))
        },
        Setting::Font(FontSetting::Kde) => Request::Read(Setting::CursorTheme),
        Setting::CursorTheme => Request::Read(Setting::CursorSize),
        Setting::CursorSize => Request::Read(Setting::ButtonLayout),
        Setting::ButtonLayout => Request::Watch(Setting::CursorTheme),
    }
}

/// The request that follows when a setting is, or cannot be, listened to.
pub open spec fn after_watch(setting: Setting) -> Option<Request> {
    match setting {
        Setting::CursorTheme => Some(Request::Watch(Setting::CursorSize)),
        Setting::CursorSize => Some(Request::Watch(Setting::ButtonLayout)),
        Setting::ButtonLayout => Some(Request::Watch(Setting::Font(FontSetting::Gnome))),
        Setting::Font(FontSetting::Gnome) => Some(Request::Watch(Setting::Font(FontSetting::Kde))),
        Setting::Font(FontSetting::Kde) => Some(Request::Watch(Setting::ColorScheme)),
        Setting::ColorScheme => None,
    }
}

/// The event that a reply to a reading gives, if it gives one.
pub open spec fn event_in_reply(setting: Setting, reply: ReplyModel) -> Option<EventModel> {
    match reply {
        ReplyModel::Value(value) => event_of(setting, value),
        _ => None,
    }
}

/// What to do after a request got a reply.
pub open spec fn spec_advance(request: Request, reply: ReplyModel) -> StepModel {
    match request {
        Request::Connect => StepModel {
            event: None,
            follow: false,
            next: if reply is Failed {
                None
            } else {
                Some(Request::Read(Setting::ColorScheme))
            },
        },
        Request::Read(setting) => StepModel {
            event: event_in_reply(setting, reply),
            follow: false,
            next: Some(after_read(setting, event_in_reply(setting, reply) is Some)),
        },
        Request::Watch(setting) => StepModel {
            event: None,
            follow: reply is Done,
            next: after_watch(setting),
        },
    }
}

/// How the search for the interface font goes on after a reading.
pub open spec fn spec_next_font(font: FontSetting, reply: ReplyModel) -> FontSearchModel {
    match reply {
        ReplyModel::Value(ValueModel::Text(text)) => FontSearchModel::Found(
            families_of(font, text),
        ),
        _ => match font {
            FontSetting::Gnome => FontSearchModel::Read(FontSetting::Kde),
            FontSetting::Kde => FontSearchModel::NotFound,
        },
    }
}

impl FontSetting {
    /// The namespace and the key of the setting.
    pub fn path(self) -> (path: (&'static str, &'static str))
        ensures
            path.0@ == self.spec_path().0,
            path.1@ == self.spec_path().1,
    {
        match self {
            FontSetting::Gnome => ("org.gnome.desktop.interface", "font-name"),
            FontSetting::Kde => ("org.kde.kdeglobals.General", "font"),
        }
    }

    /// The namespace and the key of the setting.
    pub open spec fn spec_path(self) -> (Seq<char>, Seq<char>) {
        match self {
            FontSetting::Gnome => ("org.gnome.desktop.interface"@, "font-name"@),
            FontSetting::Kde => ("org.kde.kdeglobals.General"@, "font"@),
        }
    }

    /// The families that the text of the setting names.
    pub fn families(self, text: &str) -> (families: Vec<String>)
        ensures
            texts(families@) == families_of(self, text@),
    {
        match self {
            FontSetting::Gnome => pango_font_families(text),
            FontSetting::Kde => qt_font_families(text),
        }
    }
}

impl Setting {
    /// The namespace and the key under which the portal has the setting. The
    /// colour scheme has a request of its own.
    pub fn path(self) -> (path: Option<(&'static str, &'static str)>)
        ensures
            match path {
                Some(path) => self.spec_path() == Some((path.0@, path.1@)),
                None => self.spec_path() is None,
            },
    {
        match self {
            Setting::ColorScheme => None,
            Setting::Font(font) => Some(font.path()),
            Setting::CursorTheme => Some(("org.gnome.desktop.interface", "cursor-theme")),
            Setting::CursorSize => Some(("org.gnome.desktop.interface", "cursor-size")),
            Setting::ButtonLayout => Some(("org.gnome.desktop.wm.preferences", "button-layout")),
        }
    }

    /// The namespace and the key under which the portal has the setting.
    pub open spec fn spec_path(self) -> Option<(Seq<char>, Seq<char>)> {
        match self {
            Setting::ColorScheme => None,
            Setting::Font(font) => Some(font.spec_path()),
            Setting::CursorTheme => Some(("org.gnome.desktop.interface"@, "cursor-theme"@)),
            Setting::CursorSize => Some(("org.gnome.desktop.interface"@, "cursor-size"@)),
            Setting::ButtonLayout => Some(
                ("org.gnome.desktop.wm.preferences"@, "button-layout"@),
            ),
        }
    }
}

/// The appearance that goes with a colour scheme.
pub fn window_appearance_from_color_scheme(scheme: ColorScheme) -> (appearance: WindowAppearance)
    ensures
        appearance == spec_window_appearance(scheme),
{
    match scheme {
        ColorScheme::PreferDark => WindowAppearance::Dark,
        ColorScheme::PreferLight => WindowAppearance::Light,
        ColorScheme::NoPreference => WindowAppearance::Light,
    }
}

/// The event that tells of a setting's value.
pub fn setting_event(setting: Setting, value: SettingValue) -> (event: Option<Event>)
    ensures
        match event {
            Some(event) => event_of(setting, value@) == Some(event@),
            None => event_of(setting, value@) is None,
        },
{
    match (setting, value) {
        (Setting::ColorScheme, SettingValue::ColorScheme(scheme)) => Some(
            Event::WindowAppearance(window_appearance_from_color_scheme(scheme)),
        ),
        (Setting::Font(font), SettingValue::Text(text)) => Some(
            Event::SystemFont(font.families(text.as_str())),
        ),
        (Setting::CursorTheme, SettingValue::Text(theme)) => Some(Event::CursorTheme(theme)),
        (Setting::CursorSize, SettingValue::Number(size)) => {
            assert(size >= 0 ==> size as u32 == size) by (bit_vector);
            assert(size < 0 ==> size as u32 == size + 0x1_0000_0000) by (bit_vector);
            Some(Event::CursorSize(size as u32))
        },
        (Setting::ButtonLayout, SettingValue::Text(layout)) => Some(Event::ButtonLayout(layout)),
        _ => None,
    }
}

/// What to ask first.
pub fn first_request() -> (request: Request)
    ensures
        request == Request::Connect,
{
    Request::Connect
}

/// What to do after a request got a reply: read every setting once, then listen
/// to each. A setting that cannot be read or listened to is passed over.
pub fn advance(request: Request, reply: Reply) -> (step: Step)
    ensures
        step@ == spec_advance(request, reply@),
{
    match request {
        Request::Connect => Step {
            event: None,
            follow: false,
            next: match reply {
                Reply::Failed => None,
                _ => Some(Request::Read(Setting::ColorScheme)),
            },
        },
        Request::Read(setting) => {
            let event = match reply {
                Reply::Value(value) => setting_event(setting, value),
                _ => None,
            };
            let next = match setting {
                Setting::ColorScheme => Request::Read(Setting::Font(FontSetting::Gnome)),
                Setting::Font(FontSetting::Gnome) => if event.is_some() {
                    Request::Read(Setting::CursorTheme)
                } else {
                    Request::Read(Setting::Font(FontSetting::Kde))
                },
                Setting::Font(FontSetting::Kde) => Request::Read(Setting::CursorTheme),
                Setting::CursorTheme => Request::Read(Setting::CursorSize),
                Setting::CursorSize => Request::Read(Setting::ButtonLayout),
                Setting::ButtonLayout => Request::Watch(Setting::CursorTheme),
            };
            Step { event, follow: false, next: Some(next) }
        },
        Request::Watch(setting) => Step {
            event: None,
            follow: match reply {
                Reply::Done => true,
                _ => false,
            },
            next: match setting {
                Setting::CursorTheme => Some(Request::Watch(Setting::CursorSize)),
                Setting::CursorSize => Some(Request::Watch(Setting::ButtonLayout)),
                Setting::ButtonLayout => Some(Request::Watch(Setting::Font(FontSetting::Gnome))),
                Setting::Font(FontSetting::Gnome) => Some(
                    Request::Watch(Setting::Font(FontSetting::Kde)),
                ),
                Setting::Font(FontSetting::Kde) => Some(Request::Watch(Setting::ColorScheme)),
                Setting::ColorScheme => None,
            },
        },
    }
}

/// What to ask after a step, when its event could be passed on or there was
/// none to pass on. A platform that no longer listens ends the session.
pub fn next_request(step: &Step, delivered: bool) -> (next: Option<Request>)
    ensures
        next == (if delivered {
            step@.next
        } else {
            None
        }),
{
    if delivered {
        step.next
    } else {
        None
    }
}

/// The event that tells of a change. When there is none, the changes of the
/// setting are no longer followed.
pub fn follow(setting: Setting, change: Change) -> (event: Option<Event>)
    ensures
        match (event, change) {
            (Some(event), Change::To(value)) => event_of(setting, value@) == Some(event@),
            (None, Change::To(value)) => event_of(setting, value@) is None,
            (Some(_), _) => false,
            (None, _) => true,
        },
{
    match change {
        Change::To(value) => setting_event(setting, value),
        Change::Failed => None,
        Change::Ended => None,
    }
}

/// How the search for the interface font starts, once the portal was tried.
pub fn first_font(connected: bool) -> (search: FontSearch)
    ensures
        search@ == (if connected {
            FontSearchModel::Read(FontSetting::Gnome)
        } else {
            FontSearchModel::NotFound
        }),
{
    if connected {
        FontSearch::Read(FontSetting::Gnome)
    } else {
        FontSearch::NotFound
    }
}

/// How the search for the interface font goes on after a reading.
pub fn next_font(font: FontSetting, reply: Reply) -> (search: FontSearch)
    ensures
        search@ == spec_next_font(font, reply@),
{
    match reply {
        Reply::Value(SettingValue::Text(text)) => FontSearch::Found(font.families(text.as_str())),
        _ => match font {
            FontSetting::Gnome => FontSearch::Read(FontSetting::Kde),
            FontSetting::Kde => FontSearch::NotFound,
        },
    }
}

/// How far a session has come when it makes a request.
pub open spec fn progress(request: Request) -> int {
    match request {
        Request::Connect => 0,
        Request::Read(Setting::ColorScheme) => 1,
        Request::Read(Setting::Font(FontSetting::Gnome)) => 2,
        Request::Read(Setting::Font(FontSetting::Kde)) => 3,
        Request::Read(Setting::CursorTheme) => 4,
        Request::Read(Setting::CursorSize) => 5,
        Request::Read(Setting::ButtonLayout) => 6,
        Request::Watch(Setting::CursorTheme) => 7,
        Request::Watch(Setting::CursorSize) => 8,
        Request::Watch(Setting::ButtonLayout) => 9,
        Request::Watch(Setting::Font(FontSetting::Gnome)) => 10,
        Request::Watch(Setting::Font(FontSetting::Kde)) => 11,
        Request::Watch(Setting::ColorScheme) => 12,
    }
}

/// The requests of a session from one on, if each gets the given reply.
pub open spec fn session(request: Request, replies: spec_fn(Request) -> ReplyModel) -> Seq<Request>
    decreases 12 - progress(request),
{
    seq![request] + (match spec_advance(request, replies(request)).next {
        Some(next) => session(next, replies),
        None => Seq::empty(),
    })
}

/// A session makes its requests in one order, whatever the replies: it repeats
/// none, reads before it listens, and comes to an end.
pub proof fn requests_come_in_order(request: Request, replies: spec_fn(Request) -> ReplyModel)
    ensures
        forall|i: int, j: int|
            0 <= i < j < session(request, replies).len() ==> progress(
                #[trigger] session(request, replies)[i],
            ) < progress(#[trigger] session(request, replies)[j]),
        session(request, replies).len() <= 13 - progress(request),
    decreases 12 - progress(request),
{
    let all = session(request, replies);
    if let Some(next) = spec_advance(request, replies(request)).next {
        requests_come_in_order(next, replies);
        let rest = session(next, replies);
        assert(all =~= seq![request] + rest);
        assert(rest[0] == next);
        assert forall|i: int, j: int| 0 <= i < j < all.len() implies progress(
            #[trigger] all[i],
        ) < progress(#[trigger] all[j]) by {
            assert(all[j] == rest[j - 1]);
            if i > 0 {
                assert(all[i] == rest[i - 1]);
            } else if j > 1 {
                assert(progress(rest[0]) < progress(rest[j - 1]));
            }
        }
    }
}

/// Once the portal is reached, every setting is read and listened to, whatever
/// cannot be read or listened to; the font of a second desktop is read just if
/// that of the first cannot be.
pub proof fn every_setting_is_asked_for(
    replies: spec_fn(Request) -> ReplyModel,
    setting: Setting,
)
    requires
        !(replies(Request::Connect) is Failed),
    ensures
        session(Request::Connect, replies).contains(Request::Watch(setting)),
        session(Request::Connect, replies).contains(Request::Read(setting)) == (setting
            != Setting::Font(FontSetting::Kde) || event_in_reply(
            Setting::Font(FontSetting::Gnome),
            replies(Request::Read(Setting::Font(FontSetting::Gnome))),
        ) is None),
{
    lemma_readings(replies);
    let fonts = if kde_is_read(replies) {
        seq![
            Request::Read(Setting::Font(FontSetting::Gnome)),
            Request::Read(Setting::Font(FontSetting::Kde)),
        ]
    } else {
        seq![Request::Read(Setting::Font(FontSetting::Gnome))]
    };
    let all = session(Request::Connect, replies);
    let from_colors = session(Request::Read(Setting::ColorScheme), replies);
    let from_fonts = session(Request::Read(Setting::Font(FontSetting::Gnome)), replies);
    assert(from_fonts =~= fonts + later_requests()) by {
        if kde_is_read(replies) {
            let from_kde = session(Request::Read(Setting::Font(FontSetting::Kde)), replies);
            assert(from_kde =~= seq![Request::Read(Setting::Font(FontSetting::Kde))]
                + later_requests());
        }
    }
    assert(from_colors =~= seq![Request::Read(Setting::ColorScheme)] + from_fonts);
    assert(all =~= seq![Request::Connect] + from_colors);
    let n = fonts.len() as int;
    assert(all[1] == Request::Read(Setting::ColorScheme));
    assert(all[2] == Request::Read(Setting::Font(FontSetting::Gnome)));
    assert(kde_is_read(replies) ==> all[3] == Request::Read(Setting::Font(FontSetting::Kde)));
    assert forall|i: int| 0 <= i < 9 implies all[2 + n + i] == #[trigger] later_requests()[i] by {
        assert(from_fonts[n + i] == later_requests()[i]);
    }
    assert(all.contains(Request::Watch(setting))) by {
        let i = progress(Request::Watch(setting)) - 4;
        assert(later_requests()[i] == Request::Watch(setting));
        assert(all[2 + n + i] == Request::Watch(setting));
    }
    if setting is CursorTheme || setting is CursorSize || setting is ButtonLayout {
        let i = progress(Request::Read(setting)) - 4;
        assert(later_requests()[i] == Request::Read(setting));
        assert(all[2 + n + i] == Request::Read(setting));
    }
    if !kde_is_read(replies) {
        assert forall|i: int| 0 <= i < all.len() implies all[i] != Request::Read(
            Setting::Font(FontSetting::Kde),
        ) by {
            if i >= 2 + n {
                assert(all[2 + n + (i - 2 - n)] == later_requests()[i - 2 - n]);
            }
        }
    }
}

/// Whether the second font setting is read.
spec fn kde_is_read(replies: spec_fn(Request) -> ReplyModel) -> bool {
    event_in_reply(
        Setting::Font(FontSetting::Gnome),
        replies(Request::Read(Setting::Font(FontSetting::Gnome))),
    ) is None
}

/// What a session asks once the fonts were read.
spec fn later_requests() -> Seq<Request> {
    seq![
        Request::Read(Setting::CursorTheme),
        Request::Read(Setting::CursorSize),
        Request::Read(Setting::ButtonLayout),
        Request::Watch(Setting::CursorTheme),
        Request::Watch(Setting::CursorSize),
        Request::Watch(Setting::ButtonLayout),
        Request::Watch(Setting::Font(FontSetting::Gnome)),
        Request::Watch(Setting::Font(FontSetting::Kde)),
        Request::Watch(Setting::ColorScheme),
    ]
}

proof fn lemma_readings(replies: spec_fn(Request) -> ReplyModel)
    ensures
        session(Request::Read(Setting::CursorTheme), replies) == later_requests(),
{
    let s = later_requests();
    assert(session(s[8], replies) =~= s.skip(8));
    assert(session(s[7], replies) =~= s.skip(7));
    assert(session(s[6], replies) =~= s.skip(6));
    assert(session(s[5], replies) =~= s.skip(5));
    assert(session(s[4], replies) =~= s.skip(4));
    assert(session(s[3], replies) =~= s.skip(3));
    assert(session(s[2], replies) =~= s.skip(2));
    assert(session(s[1], replies) =~= s.skip(1));
    assert(session(s[0], replies) =~= s);
}

/// A portal that cannot be reached is asked nothing more.
pub proof fn nothing_is_asked_of_an_unreachable_portal(replies: spec_fn(Request) -> ReplyModel)
    requires
        replies(Request::Connect) is Failed,
    ensures
        session(Request::Connect, replies) == seq![Request::Connect],
{
    assert(session(Request::Connect, replies) =~= seq![Request::Connect]);
}

/// At most one reading of a font tells of a font: the second is made just if
/// the first told of none.
pub proof fn one_font_is_told(replies: spec_fn(Request) -> ReplyModel)
    ensures
        event_in_reply(
            Setting::Font(FontSetting::Gnome),
            replies(Request::Read(Setting::Font(FontSetting::Gnome))),
        ) is Some ==> !session(Request::Connect, replies).contains(
            Request::Read(Setting::Font(FontSetting::Kde)),
        ),
{
    if replies(Request::Connect) is Failed {
        nothing_is_asked_of_an_unreachable_portal(replies);
    } else {
        every_setting_is_asked_for(replies, Setting::Font(FontSetting::Kde));
    }
}

/// What is told of the interface font at the start of a session is what the
/// search for it finds.
pub proof fn search_finds_what_is_told(font: FontSetting, reply: ReplyModel)
    ensures
        event_in_reply(Setting::Font(font), reply) == (match spec_next_font(font, reply) {
            FontSearchModel::Found(families) => Some(EventModel::SystemFont(families)),
            _ => None,
        }),
{
}

} // verus!
