use atbswp::record::evdev::{apply, Device, Flow, Raw, RawEvent, EV_KEY, EV_REL, EV_SYN, REL_HWHEEL, REL_HWHEEL_HI_RES, REL_WHEEL, REL_Y};
use atbswp::record::builder::Builder;
use atbswp::record::Options;
use atbswp::format::{EventType, Header};
use atbswp::record::touchpad::{Touchpad, BTN_TOOL_FINGER, BTN_TOUCH};

fn event(sec: i64, usec: i64, typ: u16, code: u16, value: i32) -> Vec<u8> {
    let mut e = Vec::new();
    e.extend_from_slice(&sec.to_le_bytes());
    e.extend_from_slice(&usec.to_le_bytes());
    e.extend_from_slice(&typ.to_le_bytes());
    e.extend_from_slice(&code.to_le_bytes());
    e.extend_from_slice(&value.to_le_bytes());
    e
}

#[test]
fn line_form_roundtrip() {
    let evs = [
        RawEvent { t_us: 0, ev: Raw::Key { code: 30, pressed: true } },
        RawEvent { t_us: u64::MAX, ev: Raw::Button { code: 0x110, pressed: false } },
        RawEvent { t_us: 17, ev: Raw::Rel { dx: i32::MIN, dy: i32::MAX } },
        RawEvent { t_us: 99, ev: Raw::Scroll { x: -120, y: 0 } },
    ];
    for e in evs {
        assert_eq!(RawEvent::from_line(&e.to_line()), Some(e));
    }
    assert_eq!(evs[0].to_line(), "K 0 30 1");
    assert_eq!(evs[2].to_line(), "R 17 -2147483648 2147483647");
}

#[test]
fn line_form_rejects_and_truncates() {
    assert_eq!(RawEvent::from_line("END"), None);
    assert_eq!(RawEvent::from_line("K 1 2"), None);
    assert_eq!(RawEvent::from_line("X 1 2 3"), None);
    assert_eq!(RawEvent::from_line("K -1 2 3"), None);
    assert_eq!(RawEvent::from_line("K 1 x 3"), None);
    assert_eq!(
        RawEvent::from_line("  K  5 65566 7 extra"),
        Some(RawEvent { t_us: 5, ev: Raw::Key { code: 30, pressed: true } })
    );
    assert_eq!(
        RawEvent::from_line("R 5 4294967297 -1"),
        Some(RawEvent { t_us: 5, ev: Raw::Rel { dx: 1, dy: -1 } })
    );
}

#[test]
fn device_handles_keys_buttons_and_wheels() {
    let opts = Options::default();
    let mut d = Device::new(None);
    let (f, evs) = d.handle(&opts, &event(2, 5, EV_KEY, 30, 1), 0);
    assert_eq!(f, Flow::Continue);
    assert_eq!(evs, vec![RawEvent { t_us: 2_000_005, ev: Raw::Key { code: 30, pressed: true } }]);
    // autorepeat is dropped
    assert!(d.handle(&opts, &event(2, 6, EV_KEY, 30, 2), 0).1.is_empty());
    // buttons and relative motion; no stamp: the clock reading is used
    let (_, evs) = d.handle(&opts, &event(0, 0, EV_KEY, 0x111, 0), 77);
    assert_eq!(evs, vec![RawEvent { t_us: 77, ev: Raw::Button { code: 0x111, pressed: false } }]);
    let (_, evs) = d.handle(&opts, &event(1, 0, EV_REL, REL_Y, -3), 0);
    assert_eq!(evs, vec![RawEvent { t_us: 1_000_000, ev: Raw::Rel { dx: 0, dy: -3 } }]);
    // wheel notches add up until the frame ends
    assert!(d.handle(&opts, &event(1, 0, EV_REL, REL_WHEEL, 1), 0).1.is_empty());
    assert!(d.handle(&opts, &event(1, 0, EV_REL, REL_WHEEL, 1), 0).1.is_empty());
    let (_, evs) = d.handle(&opts, &event(1, 0, EV_SYN, 0, 0), 0);
    assert_eq!(evs, vec![RawEvent { t_us: 1_000_000, ev: Raw::Scroll { x: 0, y: -240 } }]);
    // hi-res wins once seen
    d.handle(&opts, &event(1, 0, EV_REL, REL_HWHEEL, 1), 0);
    d.handle(&opts, &event(1, 0, EV_REL, REL_HWHEEL_HI_RES, 60), 0);
    let (_, evs) = d.handle(&opts, &event(1, 0, EV_SYN, 0, 0), 0);
    assert_eq!(evs, vec![RawEvent { t_us: 1_000_000, ev: Raw::Scroll { x: 60, y: 0 } }]);
    // the stop key stops on press only, and is not delivered
    let (f, evs) = d.handle(&opts, &event(1, 0, EV_KEY, 88, 0), 0);
    assert_eq!((f, evs.len()), (Flow::Continue, 0));
    let (f, evs) = d.handle(&opts, &event(1, 0, EV_KEY, 88, 1), 0);
    assert_eq!((f, evs.len()), (Flow::Stop, 0));
    assert!(d.fits(&event(1, 0, EV_KEY, 30, 1)));
    assert!(!d.fits(&event(i64::MAX, 0, EV_KEY, 30, 1)));
}

#[test]
fn touchpad_taps_come_out_at_frame_end() {
    let opts = Options::default();
    let mut d = Device::new(Some(Touchpad::new(10, 1000)));
    assert!(d.handle(&opts, &event(1, 0, EV_KEY, BTN_TOUCH, 1), 0).1.is_empty());
    assert!(d.handle(&opts, &event(1, 0, EV_KEY, BTN_TOOL_FINGER, 1), 0).1.is_empty());
    assert!(d.handle(&opts, &event(1, 0, EV_SYN, 0, 0), 0).1.is_empty());
    d.handle(&opts, &event(1, 50_000, EV_KEY, BTN_TOUCH, 0), 0);
    d.handle(&opts, &event(1, 50_000, EV_KEY, BTN_TOOL_FINGER, 0), 0);
    let (_, evs) = d.handle(&opts, &event(1, 50_000, EV_SYN, 0, 0), 0);
    assert_eq!(
        evs,
        vec![
            RawEvent { t_us: 1_050_000, ev: Raw::Button { code: 0x110, pressed: true } },
            RawEvent { t_us: 1_050_000, ev: Raw::Button { code: 0x110, pressed: false } },
        ]
    );
}

#[test]
fn apply_feeds_the_builder() {
    let mut b = Builder::new(&Options::default());
    apply(&mut b, &RawEvent { t_us: 0, ev: Raw::Rel { dx: 1, dy: 2 } }, true);
    apply(&mut b, &RawEvent { t_us: 5, ev: Raw::Key { code: 30, pressed: true } }, false);
    apply(&mut b, &RawEvent { t_us: 9, ev: Raw::Scroll { x: 0, y: 120 } }, false);
    apply(&mut b, &RawEvent { t_us: 12, ev: Raw::Button { code: 0x110, pressed: true } }, false);
    let m = b.finish(Header::default());
    let kinds: Vec<_> = m.events.iter().map(|e| e.kind).collect();
    assert_eq!(
        kinds,
        vec![
            EventType::KeyPress,
            EventType::Scroll,
            EventType::ButtonPress,
            EventType::ButtonRelease,
            EventType::KeyRelease
        ]
    );
}
