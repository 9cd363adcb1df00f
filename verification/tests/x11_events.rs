use atbswp::format::{EventType, Header};
use atbswp::record::builder::Builder;
use atbswp::record::x11::{apply_item, parse_item, ServerClock, XInput, BUTTON_PRESS_EVENT, KEY_PRESS_EVENT, MOTION_NOTIFY_EVENT};
use atbswp::record::Options;

fn x_event(code: u8, detail: u8, time: u32, x: i16, y: i16) -> Vec<u8> {
    let mut d = vec![0u8; 32];
    d[0] = code;
    d[1] = detail;
    d[4..8].copy_from_slice(&time.to_ne_bytes());
    d[20..22].copy_from_slice(&x.to_ne_bytes());
    d[22..24].copy_from_slice(&y.to_ne_bytes());
    d
}

#[test]
fn server_clock_wraps() {
    let mut c = ServerClock::default();
    assert_eq!(c.at(u32::MAX - 1), 0);
    assert_eq!(c.at(3), 5_000);
    assert_eq!(c.at(10), 12_000);
}

#[test]
fn items_are_read_and_applied() {
    let mut b = Builder::new(&Options::default());
    let mut clock = ServerClock::default();
    let data = x_event(KEY_PRESS_EVENT, 38, 100, 0, 0);
    let (ev, n) = parse_item(&data).unwrap();
    assert_eq!(n, 32);
    assert_eq!(ev, XInput::Key { detail: 38, time: 100, pressed: true });
    assert!(!apply_item(&mut b, &mut clock, ev));
    let (ev, _) = parse_item(&x_event(MOTION_NOTIFY_EVENT, 0, 105, -4, 9)).unwrap();
    assert_eq!(ev, XInput::Motion { time: 105, x: -4, y: 9 });
    apply_item(&mut b, &mut clock, ev);
    let (ev, _) = parse_item(&x_event(BUTTON_PRESS_EVENT | 0x80, 5, 110, 0, 0)).unwrap();
    apply_item(&mut b, &mut clock, ev);
    let (ev, _) = parse_item(&x_event(KEY_PRESS_EVENT, 96, 120, 0, 0)).unwrap();
    assert!(apply_item(&mut b, &mut clock, ev)); // F12 stops
    let m = b.finish(Header::default());
    let kinds: Vec<_> = m.events.iter().map(|e| e.kind).collect();
    assert_eq!(
        kinds,
        vec![EventType::KeyPress, EventType::MoveAbs, EventType::Scroll, EventType::KeyRelease]
    );
    assert_eq!(m.events[0].code, 30);
    assert_eq!((m.events[1].x, m.events[1].y, m.events[1].delay_us), (-4, 9, 5_000));
    assert_eq!((m.events[2].x, m.events[2].y, m.events[2].delay_us), (0, 120, 5_000));
}

#[test]
fn short_and_other_items() {
    assert_eq!(parse_item(&[KEY_PRESS_EVENT, 1, 2]), None);
    assert_eq!(parse_item(&[9u8; 40]), Some((XInput::Skip, 32)));
    assert_eq!(parse_item(&[9u8; 10]), Some((XInput::Skip, 10)));
    let mut reply = vec![0u8; 48];
    reply[4..8].copy_from_slice(&2u32.to_ne_bytes());
    assert_eq!(parse_item(&reply), Some((XInput::Skip, 40)));
    assert_eq!(parse_item(&[0, 0, 0, 0, 1]), None);
}
