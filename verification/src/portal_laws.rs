//! What a session with the settings portal asks and tells, value by value.
use vstd::prelude::*;

use crate::font::{pango_families, qt_families, texts};
use crate::portal::{
    event_in_reply, event_of, families_of, session, spec_advance, spec_next_font,
    spec_window_appearance, without_sign, Change, ColorScheme, Event, EventModel, FontSearch,
    FontSearchModel, FontSetting, Reply, ReplyModel, Request, Setting, SettingValue, Step,
    ValueModel, WindowAppearance,
};

verus! {

/// A window is dark if the desktop prefers dark, and light if it prefers light or
/// nothing. So it is told when the scheme is read and when it changes.
pub proof fn color_schemes_are_told(scheme: ColorScheme)
    ensures
        ({
            let told = EventModel::WindowAppearance(
                match scheme {
                    ColorScheme::PreferDark => WindowAppearance::Dark,
                    ColorScheme::PreferLight => WindowAppearance::Light,
                    ColorScheme::NoPreference => WindowAppearance::Light,
                },
            );
            let value = ValueModel::ColorScheme(scheme);
            &&& event_of(Setting::ColorScheme, value) == Some(told)
            &&& spec_advance(
                Request::Read(Setting::ColorScheme),
                ReplyModel::Value(value),
            ).event == Some(told)
            &&& EventModel::WindowAppearance(spec_window_appearance(scheme)) == told
        }),
{
}

/// A cursor theme and a button layout are told as they are read, each as what it
/// is; so when they are read and when they change.
pub proof fn texts_are_told_as_they_are(text: Seq<char>)
    ensures
        event_of(Setting::CursorTheme, ValueModel::Text(text)) == Some(
            EventModel::CursorTheme(text),
        ),
        event_of(Setting::ButtonLayout, ValueModel::Text(text)) == Some(
            EventModel::ButtonLayout(text),
        ),
        spec_advance(
            Request::Read(Setting::CursorTheme),
            ReplyModel::Value(ValueModel::Text(text)),
        ).event == Some(EventModel::CursorTheme(text)),
        spec_advance(
            Request::Read(Setting::ButtonLayout),
            ReplyModel::Value(ValueModel::Text(text)),
        ).event == Some(EventModel::ButtonLayout(text)),
{
}

/// A font is told by the families of its description, which is a Pango one on one
/// desktop and a Qt one on the other; so when it is read, when it changes, and
/// when it is searched for.
pub proof fn fonts_are_told_by_their_families(text: Seq<char>)
    ensures
        event_of(Setting::Font(FontSetting::Gnome), ValueModel::Text(text)) == Some(
            EventModel::SystemFont(pango_families(text)),
        ),
        event_of(Setting::Font(FontSetting::Kde), ValueModel::Text(text)) == Some(
            EventModel::SystemFont(qt_families(text)),
        ),
        spec_advance(
            Request::Read(Setting::Font(FontSetting::Gnome)),
            ReplyModel::Value(ValueModel::Text(text)),
        ).event == Some(EventModel::SystemFont(pango_families(text))),
        spec_advance(
            Request::Read(Setting::Font(FontSetting::Kde)),
            ReplyModel::Value(ValueModel::Text(text)),
        ).event == Some(EventModel::SystemFont(qt_families(text))),
        spec_next_font(FontSetting::Gnome, ReplyModel::Value(ValueModel::Text(text)))
            == FontSearchModel::Found(pango_families(text)),
        spec_next_font(FontSetting::Kde, ReplyModel::Value(ValueModel::Text(text)))
            == FontSearchModel::Found(qt_families(text)),
        families_of(FontSetting::Gnome, text) == pango_families(text),
        families_of(FontSetting::Kde, text) == qt_families(text),
{
}

/// A cursor size is told as it is, and a negative one by the unsigned number of
/// the same 32 bits.
pub proof fn cursor_sizes_keep_their_bits(size: i32)
    ensures
        ({
            let told = without_sign(size);
            &&& 0 <= size ==> told == size
            &&& size < 0 ==> told == size + 4294967296
            &&& event_of(Setting::CursorSize, ValueModel::Number(size)) == Some(
                EventModel::CursorSize(told),
            )
            &&& spec_advance(
                Request::Read(Setting::CursorSize),
                ReplyModel::Value(ValueModel::Number(size)),
            ).event == Some(EventModel::CursorSize(told))
        }),
{
}

/// A value tells of a setting just if it has the setting's type: a colour scheme,
/// a number for the cursor size, and a text for all else.
pub proof fn only_values_of_the_right_type_tell(setting: Setting, value: ValueModel)
    ensures
        event_of(setting, value) is Some <==> match setting {
            Setting::ColorScheme => value is ColorScheme,
            Setting::CursorSize => value is Number,
            Setting::CursorTheme => value is Text,
            Setting::ButtonLayout => value is Text,
            Setting::Font(_) => value is Text,
        },
{
}

/// Nothing is told but what a reading gives, and it is what a change to the same
/// value tells.
pub proof fn only_readings_tell(request: Request, reply: ReplyModel)
    ensures
        spec_advance(request, reply).event == (match (request, reply) {
            (Request::Read(setting), ReplyModel::Value(value)) => event_of(setting, value),
            _ => None,
        }),
{
}

/// The changes of a setting are followed just if the portal agreed to tell them.
pub proof fn only_what_is_watched_is_followed(request: Request, reply: ReplyModel)
    ensures
        spec_advance(request, reply).follow <==> request is Watch && reply is Done,
{
}

/// A session that reaches the portal reads the colour scheme, the font, the cursor
/// theme, the cursor size and the button layout, in this order, and then listens
/// to the cursor theme, the cursor size, the button layout, both fonts and the
/// colour scheme. The second font is read just if the first is not a text.
pub proof fn sessions_ask_in_this_order(replies: spec_fn(Request) -> ReplyModel)
    ensures
        session(Request::Connect, replies) == (if replies(Request::Connect) is Failed {
            seq![Request::Connect]
        } else {
            seq![Request::Connect, Request::Read(Setting::ColorScheme)] + (if (replies(
                Request::Read(Setting::Font(FontSetting::Gnome)),
            ) matches ReplyModel::Value(ValueModel::Text(_))) {
                seq![Request::Read(Setting::Font(FontSetting::Gnome))]
            } else {
                seq![
                    Request::Read(Setting::Font(FontSetting::Gnome)),
                    Request::Read(Setting::Font(FontSetting::Kde)),
                ]
            }) + seq![
                Request::Read(Setting::CursorTheme),
                Request::Read(Setting::CursorSize),
                Request::Read(Setting::ButtonLayout),
                Request::Watch(Setting::CursorTheme),
                Request::Watch(Setting::CursorSize),
                Request::Watch(Setting::ButtonLayout),
                Request::Watch(Setting::Font(FontSetting::Gnome)),
                Request::Watch(Setting::Font(FontSetting::Kde)),
                Request::Watch(Setting::ColorScheme),
            ]
        }),
{
    let later = seq![
        Request::Read(Setting::CursorTheme),
        Request::Read(Setting::CursorSize),
        Request::Read(Setting::ButtonLayout),
        Request::Watch(Setting::CursorTheme),
        Request::Watch(Setting::CursorSize),
        Request::Watch(Setting::ButtonLayout),
        Request::Watch(Setting::Font(FontSetting::Gnome)),
        Request::Watch(Setting::Font(FontSetting::Kde)),
        Request::Watch(Setting::ColorScheme),
    ];
    assert(session(later[8], replies) =~= later.skip(8));
    assert(session(later[7], replies) =~= later.skip(7));
    assert(session(later[6], replies) =~= later.skip(6));
    assert(session(later[5], replies) =~= later.skip(5));
    assert(session(later[4], replies) =~= later.skip(4));
    assert(session(later[3], replies) =~= later.skip(3));
    assert(session(later[2], replies) =~= later.skip(2));
    assert(session(later[1], replies) =~= later.skip(1));
    assert(session(later[0], replies) =~= later);
    let gnome = Request::Read(Setting::Font(FontSetting::Gnome));
    let kde = Request::Read(Setting::Font(FontSetting::Kde));
    let colors = Request::Read(Setting::ColorScheme);
    assert(session(kde, replies) =~= seq![kde] + later);
    let fonts = if (replies(gnome) matches ReplyModel::Value(ValueModel::Text(_))) {
        seq![gnome]
    } else {
        seq![gnome, kde]
    };
    assert(session(gnome, replies) =~= fonts + later);
    assert(session(colors, replies) =~= seq![colors] + fonts + later);
    if replies(Request::Connect) is Failed {
        assert(session(Request::Connect, replies) =~= seq![Request::Connect]);
    } else {
        assert(session(Request::Connect, replies) =~= seq![Request::Connect, colors] + fonts
            + later);
    }
}

/// The search for a font takes the first text that it reads; where it reads none,
/// it goes on to the second setting, and then ends.
pub proof fn fonts_are_searched_in_order(reply: ReplyModel)
    requires
        !(reply matches ReplyModel::Value(ValueModel::Text(_))),
    ensures
        spec_next_font(FontSetting::Gnome, reply) == FontSearchModel::Read(FontSetting::Kde),
        spec_next_font(FontSetting::Kde, reply) == FontSearchModel::NotFound,
{
}

/// Where each setting is kept.
pub proof fn settings_are_kept_under_their_names()
    ensures
        Setting::ColorScheme.spec_path() is None,
        Setting::Font(FontSetting::Gnome).spec_path() == Some(
            ("org.gnome.desktop.interface"@, "font-name"@),
        ),
        Setting::Font(FontSetting::Kde).spec_path() == Some(
            ("org.kde.kdeglobals.General"@, "font"@),
        ),
        Setting::CursorTheme.spec_path() == Some(
            ("org.gnome.desktop.interface"@, "cursor-theme"@),
        ),
        Setting::CursorSize.spec_path() == Some(("org.gnome.desktop.interface"@, "cursor-size"@)),
        Setting::ButtonLayout.spec_path() == Some(
            ("org.gnome.desktop.wm.preferences"@, "button-layout"@),
        ),
        FontSetting::Gnome.spec_path() == ("org.gnome.desktop.interface"@, "font-name"@),
        FontSetting::Kde.spec_path() == ("org.kde.kdeglobals.General"@, "font"@),
{
}

/// An event is seen as what it is.
pub proof fn events_are_seen_as_they_are(event: Event)
    ensures
        match event {
            Event::WindowAppearance(appearance) => event@ == EventModel::WindowAppearance(
                appearance,
            ),
            Event::CursorTheme(theme) => event@ == EventModel::CursorTheme(theme@),
            Event::CursorSize(size) => event@ == EventModel::CursorSize(size),
            Event::ButtonLayout(layout) => event@ == EventModel::ButtonLayout(layout@),
            Event::SystemFont(families) => event@ == EventModel::SystemFont(texts(families@)),
        },
{
}

/// A reply is seen as what it is.
pub proof fn replies_are_seen_as_they_are(reply: Reply)
    ensures
        match reply {
            Reply::Failed => reply@ == ReplyModel::Failed,
            Reply::Done => reply@ == ReplyModel::Done,
            Reply::Value(SettingValue::ColorScheme(scheme)) => reply@ == ReplyModel::Value(
                ValueModel::ColorScheme(scheme),
            ),
            Reply::Value(SettingValue::Text(text)) => reply@ == ReplyModel::Value(
                ValueModel::Text(text@),
            ),
            Reply::Value(SettingValue::Number(number)) => reply@ == ReplyModel::Value(
                ValueModel::Number(number),
            ),
        },
{
}

/// A change to a value is seen as that value.
pub proof fn changes_are_seen_as_they_are(change: Change)
    ensures
        match change {
            Change::To(SettingValue::ColorScheme(scheme)) => change->To_0@
                == ValueModel::ColorScheme(scheme),
            Change::To(SettingValue::Text(text)) => change->To_0@ == ValueModel::Text(text@),
            Change::To(SettingValue::Number(number)) => change->To_0@ == ValueModel::Number(
                number,
            ),
            _ => true,
        },
{
}

/// A step is seen as what it is.
pub proof fn steps_are_seen_as_they_are(step: Step)
    ensures
        step@.event is Some <==> step.event is Some,
        step.event matches Some(event) ==> step@.event == Some(event@),
        step@.follow == step.follow,
        step@.next == step.next,
{
}

/// A search is seen as what it is.
pub proof fn searches_are_seen_as_they_are(search: FontSearch)
    ensures
        match search {
            FontSearch::Read(font) => search@ == FontSearchModel::Read(font),
            FontSearch::Found(families) => search@ == FontSearchModel::Found(texts(families@)),
            FontSearch::NotFound => search@ == FontSearchModel::NotFound,
        },
{
}

/// What a reading tells is what its value tells; a reading without a value tells
/// nothing.
pub proof fn replies_tell_their_values(setting: Setting, reply: ReplyModel)
    ensures
        reply matches ReplyModel::Value(value) ==> event_in_reply(setting, reply) == event_of(
            setting,
            value,
        ),
        !(reply is Value) ==> event_in_reply(setting, reply) is None,
{
}

} // verus!
