use atbswp::format::{Event, Header, BTN_EXTRA, BTN_LEFT, BTN_MIDDLE, BTN_SIDE};
use atbswp::record::macos::{
    tap_event, TapFields, TapOutcome, TapState, FLAGS_CHANGED, KEY_DOWN, KEY_UP, LEFT_DOWN,
    MOUSE_MOVED, OTHER_UP, SCROLL_WHEEL, TAP_DISABLED_BY_TIMEOUT,
};
use atbswp::record::windows::{
    key_message, mouse_message, HookState, LLKHF_UP, WM_LBUTTONDOWN, WM_MOUSEHWHEEL,
    WM_MOUSEMOVE, WM_MOUSEWHEEL, WM_XBUTTONDOWN, WM_XBUTTONUP,
};
use atbswp::record::{Builder, Options};

fn opts() -> Options {
    Options { stop_key: Some(88), min_move_interval_us: 0, ..Default::default() }
}

fn fields() -> TapFields {
    TapFields { x: 0, y: 0, button: 0, scroll_dy: 0, scroll_dx: 0, autorepeat: false, key: None }
}

#[test]
fn windows_mouse_messages() {
    let mut b = Builder::new(&opts());
    mouse_message(&mut b, 0, WM_MOUSEMOVE, 5, 6, 0);
    mouse_message(&mut b, 10, WM_LBUTTONDOWN, 5, 6, 0);
    mouse_message(&mut b, 20, WM_XBUTTONDOWN, 5, 6, 0x0001_0000);
    mouse_message(&mut b, 30, WM_XBUTTONUP, 5, 6, 0x0002_0000);
    // a wheel turn towards the user is negative: +y is down
    mouse_message(&mut b, 40, WM_MOUSEWHEEL, 5, 6, 0xFF88_0000);
    mouse_message(&mut b, 50, WM_MOUSEHWHEEL, 5, 6, 0x0078_0000);
    let m = b.finish(Header::default());
    assert_eq!(
        m.events,
        vec![
            Event::move_abs(5, 6, 0),
            Event::button(BTN_LEFT, true, 10),
            Event::button(BTN_SIDE, true, 10),
            Event::button(BTN_EXTRA, false, 10),
            Event::scroll(0, 120, 10),
            Event::scroll(120, 0, 10),
            Event::button(BTN_SIDE, false, 0),
            Event::button(BTN_LEFT, false, 0),
        ]
    );
}

#[test]
fn windows_keys_unmapped_and_stop() {
    let mut st = HookState { b: Builder::new(&opts()), stopped: false, unmapped: 0 };
    assert!(!key_message(&mut st, 0, 0, Some(30)));
    assert!(!key_message(&mut st, 5, LLKHF_UP, Some(30)));
    assert!(!key_message(&mut st, 6, 0, None));
    assert_eq!(st.unmapped, 1);
    assert!(!st.stopped);
    assert!(key_message(&mut st, 9, 0, Some(88)));
    assert!(st.stopped);
    let m = st.b.finish(Header::default());
    assert_eq!(m.events, vec![Event::key(30, true, 0), Event::key(30, false, 5)]);
}

#[test]
fn macos_tap_events() {
    let mut st = TapState { b: Builder::new(&opts()), held_modifiers: vec![], unmapped: 0 };
    let none = TapOutcome { reenable: false, stop: false };
    assert_eq!(tap_event(&mut st, 0, MOUSE_MOVED, TapFields { x: 3, y: 4, ..fields() }), none);
    assert_eq!(tap_event(&mut st, 1, LEFT_DOWN, fields()), none);
    assert_eq!(tap_event(&mut st, 2, OTHER_UP, TapFields { button: 2, ..fields() }), none);
    // positive line deltas scroll up and left
    assert_eq!(tap_event(&mut st, 3, SCROLL_WHEEL, TapFields { scroll_dy: 1, scroll_dx: -2, ..fields() }), none);
    assert_eq!(tap_event(&mut st, 4, SCROLL_WHEEL, fields()), none);
    assert_eq!(tap_event(&mut st, 5, KEY_DOWN, TapFields { key: Some(30), autorepeat: true, ..fields() }), none);
    assert_eq!(tap_event(&mut st, 6, KEY_DOWN, TapFields { key: Some(30), ..fields() }), none);
    assert_eq!(tap_event(&mut st, 7, KEY_UP, TapFields { key: None, ..fields() }), none);
    assert_eq!(st.unmapped, 1);
    assert_eq!(tap_event(&mut st, 8, FLAGS_CHANGED, TapFields { key: Some(42), ..fields() }), none);
    assert_eq!(st.held_modifiers, vec![42]);
    assert_eq!(tap_event(&mut st, 9, FLAGS_CHANGED, TapFields { key: Some(42), ..fields() }), none);
    assert!(st.held_modifiers.is_empty());
    assert_eq!(
        tap_event(&mut st, 10, TAP_DISABLED_BY_TIMEOUT, fields()),
        TapOutcome { reenable: true, stop: false }
    );
    assert_eq!(
        tap_event(&mut st, 11, KEY_DOWN, TapFields { key: Some(88), ..fields() }),
        TapOutcome { reenable: false, stop: true }
    );
    let m = st.b.finish(Header::default());
    assert_eq!(
        m.events,
        vec![
            Event::move_abs(3, 4, 0),
            Event::button(BTN_LEFT, true, 1),
            Event::button(BTN_MIDDLE, false, 1),
            Event::scroll(240, -120, 1),
            Event::key(30, true, 3),
            Event::key(42, true, 2),
            Event::key(42, false, 1),
            Event::key(30, false, 0),
            Event::button(BTN_LEFT, false, 0),
        ]
    );
}
