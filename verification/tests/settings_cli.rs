use atbswp::cli::{apply_overrides, parse_screen, Args};
use atbswp::format::Macro;
use atbswp::settings::{effective_language, fkey_index, language_index, pick_locale, Settings};

#[test]
fn settings_defaults_and_indices() {
    let s = Settings::default();
    assert_eq!(s.repeat, 1);
    assert_eq!(s.recording_hotkey, 88);
    assert_eq!(s.mouse_speed_ms, 21);
    assert!(s.always_on_top);
    assert_eq!(s.speed_percent(), 100);
    assert_eq!(Settings { fast_play: true, ..Settings::default() }.speed_percent(), 200);
    assert_eq!(language_index("fr"), 4);
    assert_eq!(language_index("xx"), 0);
    assert_eq!(language_index(""), 0);
    assert_eq!(fkey_index(59), 0);
    assert_eq!(fkey_index(88), 11);
    assert_eq!(fkey_index(87), 10);
    assert_eq!(fkey_index(1), 11);
}

#[test]
fn effective_language_prefers_setting_then_locale() {
    assert_eq!(effective_language("de", "fr_FR.UTF-8"), "de");
    assert_eq!(effective_language("", "fr_FR.UTF-8"), "fr");
    assert_eq!(effective_language("xx", "JA_JP"), "ja");
    assert_eq!(effective_language("", "sv_SE"), "en");
    assert_eq!(effective_language("", ""), "en");
    assert_eq!(pick_locale(&[None, Some("C".to_string()), Some("pl_PL".to_string())]), "pl_PL");
    assert_eq!(pick_locale(&[Some(String::new()), Some("POSIX".to_string())]), "");
}

#[test]
fn config_text_reads_back() {
    let s = Settings {
        fast_play: true,
        infinite: false,
        repeat: 3,
        recording_hotkey: 60,
        always_on_top: false,
        recording_timer: 5,
        mouse_speed_ms: 7,
        language: String::new(),
    };
    let t = s.config_text();
    assert_eq!(
        t,
        "fast_play = true\ninfinite = false\nrepeat = 3\nrecording_hotkey = 60\nalways_on_top = false\nrecording_timer = 5\nmouse_speed_ms = 7\nlanguage = \n"
    );
    assert_eq!(Settings::parse_config(&t), s);
    let odd = Settings::parse_config("repeat = 0\nmouse_speed_ms=x\nlanguage =  de \nnonsense\nrecording_hotkey = 70000");
    assert_eq!(odd.repeat, 1);
    assert_eq!(odd.mouse_speed_ms, 21);
    assert_eq!(odd.language, "de");
    assert_eq!(odd.recording_hotkey, 88);
}

fn argv(v: &[&str]) -> Vec<String> {
    v.iter().map(|s| s.to_string()).collect()
}

#[test]
fn args_parse_flags_and_values() {
    let a = Args::parse(&argv(&["in.txt", "-o", "out.com", "--speed=150", "--dry-run", "-", "--repeat", "2"]), &["o", "repeat"]).unwrap();
    assert_eq!(a.positional, vec!["in.txt".to_string(), "-".to_string()]);
    assert!(a.has("dry-run"));
    assert!(!a.has("verbose"));
    assert_eq!(a.value("o"), Some("out.com"));
    assert_eq!(a.value("dry-run"), None);
    assert_eq!(a.u32("speed").unwrap(), Some(150));
    assert_eq!(a.u32("missing").unwrap(), None);
    let mut m = Macro::default();
    apply_overrides(&mut m, &a).unwrap();
    assert_eq!((m.header.repeat, m.header.speed_percent), (2, 150));
    match Args::parse(&argv(&["--repeat"]), &["repeat"]) {
        Err(e) => assert_eq!(e, "--repeat needs a value"),
        Ok(_) => panic!("accepted a flag without its value"),
    }
    let b = Args::parse(&argv(&["--speed", "fast"]), &["speed"]).unwrap();
    assert_eq!(b.u32("speed").unwrap_err(), "--speed: expected a number, got `fast`");
    let c = Args::parse(&argv(&["-o", "a", "-o", "b"]), &["o"]).unwrap();
    assert_eq!(c.value("o"), Some("b"));
}

#[test]
fn saved_settings_load_back_with_the_language() {
    let s = Settings {
        fast_play: true,
        infinite: false,
        repeat: 4_000_000_000,
        recording_hotkey: 65535,
        always_on_top: false,
        recording_timer: 0,
        mouse_speed_ms: 1,
        language: String::from("ja"),
    };
    let back = Settings::parse_config(&s.config_text());
    assert_eq!(back, s);
    let padded = Settings { language: String::from(" de "), ..Settings::default() };
    assert_eq!(Settings::parse_config(&padded.config_text()).language, "de");
}

#[test]
fn settings_window_values_are_clamped() {
    let s = atbswp::settings::settings_from_ui(true, false, 0, 42, false, -5, 0, -1);
    assert_eq!(
        s,
        Settings {
            fast_play: true,
            infinite: false,
            repeat: 1,
            recording_hotkey: 88,
            always_on_top: false,
            recording_timer: 0,
            mouse_speed_ms: 1,
            language: String::new(),
        }
    );
    let s = atbswp::settings::settings_from_ui(false, true, 7, 0, true, 3, 21, 6);
    assert_eq!(s.recording_hotkey, 59);
    assert_eq!(s.language, "ja");
    assert_eq!((s.repeat, s.recording_timer, s.mouse_speed_ms), (7, 3, 21));
}

#[test]
fn playback_settings_go_into_the_header() {
    let mut m = Macro::default();
    let mut s = Settings::default();
    s.repeat = 5;
    s.fast_play = true;
    atbswp::settings::apply_settings(&s, &mut m);
    assert_eq!((m.header.repeat, m.header.speed_percent), (5, 200));
    s.infinite = true;
    s.fast_play = false;
    atbswp::settings::apply_settings(&s, &mut m);
    assert_eq!((m.header.repeat, m.header.speed_percent), (0, 100));
}

#[test]
fn screen_flag_reads_width_and_height() {
    assert_eq!(parse_screen("1920x1080"), Ok((1920, 1080)));
    assert_eq!(parse_screen("+3x4"), Ok((3, 4)));
    assert_eq!(parse_screen("1920X1080"), Err("--screen expects WxH".to_string()));
    assert_eq!(parse_screen("x1080"), Err("bad width".to_string()));
    assert_eq!(parse_screen("1920x"), Err("bad height".to_string()));
    assert_eq!(parse_screen("1920x10x80"), Err("bad height".to_string()));
    assert_eq!(parse_screen("4294967296x1"), Err("bad width".to_string()));
}
