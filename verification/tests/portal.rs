use gpui_platform::portal::{
    advance, first_font, first_request, follow, next_font, next_request, setting_event,
    window_appearance_from_color_scheme, Change, ColorScheme, Event, FontSearch, FontSetting,
    Reply, Request, Setting, SettingValue, Step, WindowAppearance,
};

fn text(value: &str) -> SettingValue {
    SettingValue::Text(value.to_string())
}

const GNOME: Setting = Setting::Font(FontSetting::Gnome);
const KDE: Setting = Setting::Font(FontSetting::Kde);

/// Runs a session, with replies that `answer` gives.
fn run(answer: &dyn Fn(Request) -> Reply) -> (Vec<Request>, Vec<Event>, Vec<Setting>) {
    let mut requests = Vec::new();
    let mut events = Vec::new();
    let mut followed = Vec::new();
    let mut next = Some(first_request());
    while let Some(request) = next {
        requests.push(request);
        let step = advance(request, answer(request));
        next = next_request(&step, true);
        if step.follow {
            match request {
                Request::Watch(setting) => followed.push(setting),
                _ => panic!("only what is watched is followed"),
            }
        }
        events.extend(step.event);
    }
    (requests, events, followed)
}

fn full(request: Request) -> Reply {
    match request {
        Request::Connect | Request::Watch(_) => Reply::Done,
        Request::Read(Setting::ColorScheme) => {
            Reply::Value(SettingValue::ColorScheme(ColorScheme::PreferDark))
        }
        Request::Read(Setting::Font(FontSetting::Gnome)) => Reply::Value(text("Ubuntu Sans 11")),
        Request::Read(Setting::Font(FontSetting::Kde)) => Reply::Value(text("Noto Sans,10")),
        Request::Read(Setting::CursorTheme) => Reply::Value(text("Adwaita")),
        Request::Read(Setting::CursorSize) => Reply::Value(SettingValue::Number(24)),
        Request::Read(Setting::ButtonLayout) => Reply::Value(text("close:menu")),
    }
}

fn watches() -> Vec<Request> {
    vec![
        Request::Watch(Setting::CursorTheme),
        Request::Watch(Setting::CursorSize),
        Request::Watch(Setting::ButtonLayout),
        Request::Watch(GNOME),
        Request::Watch(KDE),
        Request::Watch(Setting::ColorScheme),
    ]
}

fn font(names: &[&str]) -> Event {
    Event::SystemFont(names.iter().map(|name| name.to_string()).collect())
}

#[test]
fn a_session_tells_every_setting_and_follows_it() {
    let (requests, events, followed) = run(&full);
    let mut expected = vec![
        Request::Connect,
        Request::Read(Setting::ColorScheme),
        Request::Read(GNOME),
        Request::Read(Setting::CursorTheme),
        Request::Read(Setting::CursorSize),
        Request::Read(Setting::ButtonLayout),
    ];
    expected.extend(watches());
    assert_eq!(requests, expected);
    assert_eq!(
        events,
        vec![
            Event::WindowAppearance(WindowAppearance::Dark),
            font(&["Ubuntu Sans", "Ubuntu"]),
            Event::CursorTheme("Adwaita".to_string()),
            Event::CursorSize(24),
            Event::ButtonLayout("close:menu".to_string()),
        ]
    );
    assert_eq!(
        followed,
        vec![
            Setting::CursorTheme,
            Setting::CursorSize,
            Setting::ButtonLayout,
            GNOME,
            KDE,
            Setting::ColorScheme
        ]
    );
}

#[test]
fn the_second_font_is_read_if_the_first_cannot_be() {
    let (requests, events, _) = run(&|request| match request {
        Request::Read(Setting::Font(FontSetting::Gnome)) => Reply::Failed,
        other => full(other),
    });
    assert!(requests.contains(&Request::Read(KDE)));
    assert_eq!(requests.len(), 13);
    assert_eq!(events[1], font(&["Noto Sans"]));
    let fonts = events.iter().filter(|event| matches!(event, Event::SystemFont(_))).count();
    assert_eq!(fonts, 1);
}

#[test]
fn settings_that_cannot_be_had_are_passed_over() {
    let (requests, events, followed) = run(&|request| match request {
        Request::Connect => Reply::Done,
        _ => Reply::Failed,
    });
    assert_eq!(requests.len(), 13);
    assert_eq!(requests[7..].to_vec(), watches());
    assert!(events.is_empty());
    assert!(followed.is_empty());
}

#[test]
fn a_portal_that_is_not_reached_is_left_alone() {
    let (requests, events, followed) = run(&|_| Reply::Failed);
    assert_eq!(requests, vec![Request::Connect]);
    assert!(events.is_empty() && followed.is_empty());
}

#[test]
fn a_platform_that_does_not_listen_ends_the_session() {
    let request = Request::Read(Setting::CursorTheme);
    let step = advance(request, Reply::Value(text("Adwaita")));
    assert_eq!(next_request(&step, true), Some(Request::Read(Setting::CursorSize)));
    assert_eq!(next_request(&step, false), None);
    assert_eq!(
        step,
        Step {
            event: Some(Event::CursorTheme("Adwaita".to_string())),
            follow: false,
            next: Some(Request::Read(Setting::CursorSize)),
        }
    );
}

#[test]
fn changes_are_told_until_the_stream_ends() {
    assert_eq!(
        follow(Setting::CursorTheme, Change::To(text("Breeze"))),
        Some(Event::CursorTheme("Breeze".to_string()))
    );
    assert_eq!(
        follow(KDE, Change::To(text("Hack,9"))),
        Some(font(&["Hack"]))
    );
    assert_eq!(follow(Setting::CursorTheme, Change::Failed), None);
    assert_eq!(follow(Setting::CursorTheme, Change::Ended), None);
    assert_eq!(follow(Setting::CursorTheme, Change::To(SettingValue::Number(1))), None);
}

#[test]
fn cursor_sizes_lose_their_sign() {
    let event = |size| setting_event(Setting::CursorSize, SettingValue::Number(size));
    assert_eq!(event(0), Some(Event::CursorSize(0)));
    assert_eq!(event(i32::MAX), Some(Event::CursorSize(2147483647)));
    assert_eq!(event(-1), Some(Event::CursorSize(4294967295)));
    assert_eq!(event(i32::MIN), Some(Event::CursorSize(2147483648)));
}

#[test]
fn values_of_another_type_tell_nothing() {
    assert_eq!(setting_event(Setting::ColorScheme, text("dark")), None);
    assert_eq!(setting_event(Setting::CursorSize, text("24")), None);
    assert_eq!(setting_event(GNOME, SettingValue::Number(3)), None);
    let step = advance(Request::Read(GNOME), Reply::Value(SettingValue::Number(3)));
    assert_eq!(step.next, Some(Request::Read(KDE)));
}

#[test]
fn only_a_preference_for_dark_is_dark() {
    assert_eq!(
        window_appearance_from_color_scheme(ColorScheme::PreferDark),
        WindowAppearance::Dark
    );
    assert_eq!(
        window_appearance_from_color_scheme(ColorScheme::PreferLight),
        WindowAppearance::Light
    );
    assert_eq!(
        window_appearance_from_color_scheme(ColorScheme::NoPreference),
        WindowAppearance::Light
    );
}

#[test]
fn settings_have_their_paths() {
    assert_eq!(Setting::ColorScheme.path(), None);
    assert_eq!(GNOME.path(), Some(("org.gnome.desktop.interface", "font-name")));
    assert_eq!(KDE.path(), Some(("org.kde.kdeglobals.General", "font")));
    assert_eq!(
        Setting::CursorTheme.path(),
        Some(("org.gnome.desktop.interface", "cursor-theme"))
    );
    assert_eq!(Setting::CursorSize.path(), Some(("org.gnome.desktop.interface", "cursor-size")));
    assert_eq!(
        Setting::ButtonLayout.path(),
        Some(("org.gnome.desktop.wm.preferences", "button-layout"))
    );
}

fn search(connected: bool, gnome: Reply, kde: Reply) -> Option<Vec<String>> {
    let mut replies = vec![kde, gnome];
    let mut state = first_font(connected);
    loop {
        match state {
            FontSearch::Read(font) => state = next_font(font, replies.pop().unwrap()),
            FontSearch::Found(families) => return Some(families),
            FontSearch::NotFound => return None,
        }
    }
}

#[test]
fn the_font_search_takes_the_first_that_can_be_read() {
    let gnome = || Reply::Value(text("Cantarell 11"));
    let kde = || Reply::Value(text("Noto Sans,10"));
    assert_eq!(search(true, gnome(), kde()), Some(vec!["Cantarell".to_string()]));
    assert_eq!(search(true, Reply::Failed, kde()), Some(vec!["Noto Sans".to_string()]));
    assert_eq!(search(true, Reply::Failed, Reply::Failed), None);
    assert_eq!(search(false, gnome(), kde()), None);
    assert_eq!(search(true, Reply::Value(text("")), kde()), Some(Vec::new()));
}
