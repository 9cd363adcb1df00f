use atbswp::format::{save_kind, Event, Header, Macro, SaveKind, BTN_LEFT, EVENT_LEN, HEADER_LEN};
use atbswp::Error;

fn sample() -> Macro {
    Macro {
        header: Header {
            screen_w: 1920,
            screen_h: 1080,
            repeat: 2,
            speed_percent: 150,
        },
        events: vec![
            Event::move_abs(10, 20, 0),
            Event::button(BTN_LEFT, true, 1000),
            Event::button(BTN_LEFT, false, 2000),
            Event::key(30, true, 5),
            Event::key(30, false, 6),
            Event::scroll(0, -240, 7),
            Event::move_rel(-3, 4, 8),
        ],
    }
}

#[test]
fn roundtrip() {
    let m = sample();
    let bytes = m.encode();
    assert_eq!(bytes.len(), HEADER_LEN + 7 * EVENT_LEN);
    assert_eq!(Macro::decode(&bytes).unwrap(), m);
    assert_eq!(Macro::load(&bytes).unwrap(), m);
}

#[test]
fn layout_matches_c_header() {
    let m = Macro {
        events: vec![Event::scroll(1, -2, 3)],
        ..Default::default()
    };
    let b = m.encode();
    assert_eq!(&b[0..2], &[1, 0]); // version
    assert_eq!(&b[4..8], &[1, 0, 0, 0]); // count
    assert_eq!(&b[16..20], &[1, 0, 0, 0]); // repeat
    assert_eq!(&b[20..24], &[100, 0, 0, 0]); // speed
    let e = &b[HEADER_LEN..];
    assert_eq!(&e[0..2], &[7, 0]);
    assert_eq!(&e[4..8], &1i32.to_le_bytes());
    assert_eq!(&e[8..12], &(-2i32).to_le_bytes());
    assert_eq!(&e[12..16], &3u32.to_le_bytes());
}

#[test]
fn rejects_garbage() {
    assert!(Macro::decode(&[0u8; 10]).is_err());
    let mut b = sample().encode();
    b.truncate(b.len() - 1);
    assert!(Macro::decode(&b).is_err());
    b[0] = 9;
    assert!(matches!(Macro::decode(&b), Err(Error::Version(9))));
}

#[test]
fn decode_error_messages() {
    match Macro::decode(&[0u8; 10]) {
        Err(Error::Invalid(m)) => assert_eq!(m, "payload shorter than header"),
        other => panic!("unexpected {other:?}"),
    }
    let mut b = sample().encode();
    b.truncate(b.len() - 1);
    match Macro::decode(&b) {
        Err(Error::Invalid(m)) => assert_eq!(m, "expected 112 event bytes, found 111"),
        other => panic!("unexpected {other:?}"),
    }
    let mut b = sample().encode();
    b[HEADER_LEN] = 42;
    match Macro::decode(&b) {
        Err(Error::Invalid(m)) => assert!(m.contains("42"), "{m}"),
        other => panic!("unexpected {other:?}"),
    }
}

#[test]
fn duration_sums_pauses() {
    assert_eq!(sample().duration_us(), 1000 + 2000 + 5 + 6 + 7 + 8);
    assert_eq!(Macro::default().duration_us(), 0);
}

#[test]
fn event_constructors_fill_fields() {
    let e = Event::key(30, true, 5);
    assert_eq!((e.code, e.x, e.y, e.delay_us), (30, 0, 0, 5));
    let e = Event::move_abs(-7, 9, 11);
    assert_eq!((e.code, e.x, e.y, e.delay_us), (0, -7, 9, 11));
    assert_eq!(atbswp::EventType::from_u16(7), Some(atbswp::EventType::Scroll));
    assert_eq!(atbswp::EventType::from_u16(0), None);
    assert_eq!(atbswp::EventType::KeyRelease.to_u16(), 6);
}

#[test]
fn load_reads_scripts_and_rejects_other_bytes() {
    let m = Macro::load(b"move 1 2\n").unwrap();
    assert_eq!(m.events, vec![Event::move_abs(1, 2, 0)]);
    match Macro::load(&[0xff, 0xfe, 0x00]) {
        Err(Error::Invalid(m)) => assert_eq!(m, "not a payload, executable, or UTF-8 script"),
        other => panic!("unexpected {other:?}"),
    }
}

#[test]
fn save_kind_follows_the_extension_in_any_case() {
    assert_eq!(save_kind("atbswp"), SaveKind::Payload);
    assert_eq!(save_kind("ATBSWP"), SaveKind::Payload);
    assert_eq!(save_kind("com"), SaveKind::Executable);
    assert_eq!(save_kind("Exe"), SaveKind::Executable);
    assert_eq!(save_kind("txt"), SaveKind::Script);
    assert_eq!(save_kind(""), SaveKind::Script);
}
