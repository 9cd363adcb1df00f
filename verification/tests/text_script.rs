use atbswp::format::{Event, EventType, Header, Macro, BTN_LEFT};
use atbswp::text::{parse, parse_duration_us, render};
use atbswp::Error;

#[test]
fn durations() {
    assert_eq!(parse_duration_us("50ms"), Some(50_000));
    assert_eq!(parse_duration_us("1.5s"), Some(1_500_000));
    assert_eq!(parse_duration_us("300us"), Some(300));
    assert_eq!(parse_duration_us("42"), Some(42));
    assert_eq!(parse_duration_us("x"), None);
}

#[test]
fn more_durations() {
    assert_eq!(parse_duration_us(" 2 s "), Some(2_000_000));
    assert_eq!(parse_duration_us("1m"), Some(60_000_000));
    assert_eq!(parse_duration_us("1min"), Some(60_000_000));
    assert_eq!(parse_duration_us("0.5"), Some(1)); // half a microsecond rounds up
    assert_eq!(parse_duration_us("0.4us"), Some(0));
    assert_eq!(parse_duration_us(".25ms"), Some(250));
    assert_eq!(parse_duration_us("5."), Some(5));
    assert_eq!(parse_duration_us("-0s"), Some(0));
    assert_eq!(parse_duration_us("-1ms"), None);
    assert_eq!(parse_duration_us("4294967295"), Some(4_294_967_295));
    assert_eq!(parse_duration_us("4294967296"), None);
    assert_eq!(parse_duration_us("72m"), None);
    assert_eq!(parse_duration_us("1h"), None);
    assert_eq!(parse_duration_us("ms"), None);
    assert_eq!(parse_duration_us("."), None);
}

#[test]
fn parse_script() {
    let m = parse(
        "# hello\nscreen 1920x1080\nrepeat 3\nmove 10 20\nwait 50ms\nclick left\nwait 1s\nkey a\nscroll down 2\nmoverel 1 -1\n",
    )
    .unwrap();
    assert_eq!(
        m.header,
        Header {
            screen_w: 1920,
            screen_h: 1080,
            repeat: 3,
            speed_percent: 100
        }
    );
    assert_eq!(
        m.events,
        vec![
            Event::move_abs(10, 20, 0),
            Event::button(BTN_LEFT, true, 50_000),
            Event::button(BTN_LEFT, false, 0),
            Event::key(30, true, 1_000_000),
            Event::key(30, false, 0),
            Event::scroll(0, 240, 0),
            Event::move_rel(1, -1, 0),
        ]
    );
}

#[test]
fn errors_have_line_numbers() {
    match parse("move 1 2\nbogus\n") {
        Err(Error::Syntax { line: 2, .. }) => {}
        other => panic!("unexpected {other:?}"),
    }
    assert!(matches!(
        parse("keydown KEY_NOPE"),
        Err(Error::Syntax { line: 1, .. })
    ));
}

#[test]
fn render_roundtrip() {
    let m = parse("screen 800x600\nmove 1 2\nwait 3ms\nbuttondown right\nwait 7us\nbuttonup right\nkeydown KEY_ESC\nkeyup KEY_ESC\nscroll -120 0\n").unwrap();
    let text = render(&m);
    assert_eq!(parse(&text).unwrap(), m);
    assert!(text.contains("wait 3ms"));
    assert!(text.contains("keydown KEY_ESC"));
    assert!(text.contains("buttondown right"));
}

fn syntax(src: &str) -> (usize, String) {
    match parse(src) {
        Err(Error::Syntax { line, msg }) => (line, msg),
        other => panic!("unexpected {other:?}"),
    }
}

#[test]
fn syntax_error_messages() {
    assert_eq!(syntax("move 1"), (1, "`move` needs more arguments".to_string()));
    assert_eq!(syntax("\n\nMOVE x 1"), (3, "expected a number, got `x`".to_string()));
    assert_eq!(syntax("screen 800"), (1, "expected WIDTHxHEIGHT".to_string()));
    assert_eq!(syntax("screen ax2"), (1, "bad width".to_string()));
    assert_eq!(syntax("screen 2Xb"), (1, "bad height".to_string()));
    assert_eq!(syntax("repeat -1"), (1, "repeat expects a non-negative count (0 = forever)".to_string()));
    assert_eq!(syntax("speed 0"), (1, "speed must be greater than 0".to_string()));
    assert_eq!(syntax("speed fast"), (1, "speed expects a positive percentage".to_string()));
    assert_eq!(syntax("wait soon"), (1, "bad duration `soon`".to_string()));
    assert_eq!(syntax("click thumb"), (1, "unknown button `thumb`".to_string()));
    assert_eq!(syntax("key KEY_NOPE"), (1, "unknown key `KEY_NOPE`".to_string()));
    assert_eq!(syntax("scroll up 99999999"), (1, "scroll amount is too large".to_string()));
    assert_eq!(syntax("Jump 1"), (1, "unknown command `jump`".to_string()));
}

#[test]
fn trailing_wait_and_saturation() {
    let m = parse("wait 4294967295us\nwait 10\n").unwrap();
    assert_eq!(m.events, vec![Event::move_rel(0, 0, u32::MAX)]);
    let m = parse("move 1 1 # a comment\r\n   \n# only a comment\nwait 2s").unwrap();
    assert_eq!(m.events, vec![Event::move_abs(1, 1, 0), Event::move_rel(0, 0, 2_000_000)]);
    let m = parse("scroll LEFT 1\nscroll up 1\nscroll right 2").unwrap();
    assert_eq!(
        m.events,
        vec![Event::scroll(-120, 0, 0), Event::scroll(0, -120, 0), Event::scroll(240, 0, 0)]
    );
}

#[test]
fn render_writes_header_and_pauses() {
    let m = Macro {
        header: Header { screen_w: 0, screen_h: 0, repeat: 0, speed_percent: 250 },
        events: vec![
            Event::move_abs(-5, 7, 2_000_000),
            Event::key(30, true, 1500),
            Event::key(999, false, 7),
            Event::button(0x117, true, 0),
        ],
    };
    let text = render(&m);
    assert_eq!(
        text,
        "# atbswp macro: 4 events, 2.002s\nrepeat 0\nspeed 250\nwait 2s\nmove -5 7\nwait 1500us\nkeydown KEY_A\nwait 7us\nkeyup 999\nbuttondown task\n"
    );
    assert_eq!(parse(&text).unwrap(), m);
}

#[test]
fn every_event_kind_survives_render_and_parse() {
    let m = Macro {
        header: Header { screen_w: 0, screen_h: 768, repeat: 0, speed_percent: 250 },
        events: vec![
            Event::move_abs(-2147483648, 2147483647, 1),
            Event::move_rel(-7, 0, 2_000),
            Event::button(0x113, true, 3_000_000),
            Event::button(0x2ff, false, 4_294_967_295),
            Event::key(30, true, 999),
            Event::key(65535, false, 0),
            Event::key(0x23, true, 1_500_000),
            Event::scroll(-120, 360, 0),
            Event { kind: EventType::MoveRel, code: 0, x: 0, y: 0, delay_us: 70 },
        ],
    };
    let text = render(&m);
    assert_eq!(parse(&text).unwrap(), m);
    assert!(text.contains("buttonup 767"));
    assert!(text.contains("keyup 65535"));
    assert!(text.contains("wait 4294967295us"));
}
