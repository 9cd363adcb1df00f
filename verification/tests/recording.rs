use atbswp::format::{Event, EventType, Header, Macro};
use atbswp::record::builder::release_all;
use atbswp::record::builder::Builder;
use atbswp::record::Options;

fn opts() -> Options {
    Options {
        min_move_interval_us: 10_000,
        stop_key: Some(88),
        ..Default::default()
    }
}

#[test]
fn coalesces_motion_and_keeps_timing() {
    let mut b = atbswp::record::basic::Builder::new(10_000);
    b.motion(1_000, 1, 0);
    b.motion(2_000, 2, 0);
    b.motion(3_000, 0, 5);
    b.key(20_000, 30, true);
    b.motion(21_000, 1, 1);
    b.motion(40_000, 1, 1); // > interval: flushes the previous one
    b.key(50_000, 30, false);
    let m = b.finish(Header::default());
    let kinds: Vec<_> = m.events.iter().map(|e| e.kind).collect();
    assert_eq!(
        kinds,
        vec![
            EventType::MoveRel,
            EventType::KeyPress,
            EventType::MoveRel,
            EventType::MoveRel,
            EventType::KeyRelease
        ]
    );
    assert_eq!(
        (m.events[0].x, m.events[0].y, m.events[0].delay_us),
        (3, 5, 0)
    );
    assert_eq!(m.events[1].delay_us, 19_000);
    assert_eq!(
        (m.events[2].x, m.events[2].y, m.events[2].delay_us),
        (1, 1, 1_000)
    );
    assert_eq!(
        (m.events[3].x, m.events[3].y, m.events[3].delay_us),
        (1, 1, 19_000)
    );
    assert_eq!(m.events[4].delay_us, 10_000);
    assert_eq!(m.duration_us(), 49_000);
}

#[test]
fn record_zero_motion_is_dropped() {
    let mut b = atbswp::record::basic::Builder::new(10_000);
    b.motion(0, 0, 0);
    b.scroll(5, 0, 120);
    let m = b.finish(Header::default());
    assert_eq!(m.events.len(), 1);
    assert_eq!(m.events[0].kind, EventType::Scroll);
}

#[test]
fn coalesces_relative_motion_and_keeps_timing() {
    let mut b = Builder::new(&opts());
    b.motion(1_000, 1, 0);
    b.motion(2_000, 2, 0);
    b.motion(3_000, 0, 5);
    assert!(!b.key(20_000, 30, true));
    b.motion(21_000, 1, 1);
    b.motion(40_000, 1, 1); // > interval: flushes the previous one
    assert!(!b.key(50_000, 30, false));
    let m = b.finish(Header::default());
    let kinds: Vec<_> = m.events.iter().map(|e| e.kind).collect();
    assert_eq!(
        kinds,
        vec![
            EventType::MoveRel,
            EventType::KeyPress,
            EventType::MoveRel,
            EventType::MoveRel,
            EventType::KeyRelease
        ]
    );
    assert_eq!(
        (m.events[0].x, m.events[0].y, m.events[0].delay_us),
        (3, 5, 0)
    );
    assert_eq!(m.events[1].delay_us, 19_000);
    assert_eq!(
        (m.events[2].x, m.events[2].y, m.events[2].delay_us),
        (1, 1, 1_000)
    );
    assert_eq!(
        (m.events[3].x, m.events[3].y, m.events[3].delay_us),
        (1, 1, 19_000)
    );
    assert_eq!(m.events[4].delay_us, 10_000);
    assert_eq!(m.duration_us(), 49_000);
}

#[test]
fn repeated_absolute_position_is_not_duplicated() {
    let mut b = Builder::new(&opts());
    b.move_abs(0, 5, 5);
    b.move_abs(20_000, 5, 5);
    b.move_abs(40_000, 5, 5);
    b.move_abs(60_000, 6, 6);
    let m = b.finish(Header::default());
    assert_eq!(
        m.events
            .iter()
            .filter(|e| e.kind == EventType::MoveAbs)
            .count(),
        2
    );
}

#[test]
fn coalesces_absolute_motion_to_last_position() {
    let mut b = Builder::new(&opts());
    b.move_abs(0, 1, 1);
    b.move_abs(2_000, 5, 5);
    b.move_abs(4_000, 9, 9);
    b.button(6_000, 0x110, true);
    b.button(7_000, 0x110, false);
    let m = b.finish(Header::default());
    assert_eq!(m.events.len(), 3);
    assert_eq!(
        (
            m.events[0].kind,
            m.events[0].x,
            m.events[0].y,
            m.events[0].delay_us
        ),
        (EventType::MoveAbs, 9, 9, 0) // the clock starts at the first event
    );
    assert_eq!(m.events[1].delay_us, 2_000);
}

#[test]
fn stop_key_is_not_recorded_and_held_keys_are_released() {
    let mut b = Builder::new(&opts());
    assert!(!b.key(0, 29, true)); // leftctrl held
    assert!(!b.key(10, 88, false)); // stray release of the stop key: ignored
    assert!(b.key(20, 88, true)); // stop
    let m = b.finish(Header::default());
    assert_eq!(m.events.len(), 2);
    assert_eq!(
        (m.events[1].kind, m.events[1].code),
        (EventType::KeyRelease, 29)
    );
}

#[test]
fn builder_zero_motion_is_dropped() {
    let mut b = Builder::new(&opts());
    b.motion(0, 0, 0);
    b.scroll(5, 0, 120);
    let m = b.finish(Header::default());
    assert_eq!(m.events.len(), 1);
    assert_eq!(m.events[0].kind, EventType::Scroll);
}

#[test]
fn release_all_releases_in_reverse_order() {
    let m = Macro {
        header: Header::default(),
        events: vec![
            Event::key(29, true, 0),
            Event::button(0x110, true, 1),
            Event::key(42, true, 2),
            Event::key(29, true, 3), // autorepeat-like duplicate: held once
            Event::key(42, false, 4),
            Event::key(56, true, 5),
        ],
    };
    let r = release_all(m.clone());
    assert_eq!(&r.events[..6], &m.events[..]);
    assert_eq!(
        &r.events[6..],
        &[Event::key(56, false, 0), Event::button(0x110, false, 0), Event::key(29, false, 0)]
    );
    // releasing again adds nothing
    assert_eq!(release_all(r.clone()).events, r.events);
}

#[test]
fn options_default() {
    let o = Options::default();
    assert_eq!(o.stop_key, Some(88));
    assert_eq!(o.screen, None);
    assert_eq!(o.min_move_interval_us, 10_000);
    assert!(!o.handle_signals);
    assert!(o.allow_elevate);
    assert!(o.raw_from.is_none());
}

#[test]
fn relative_motion_sums_survive_coalescing() {
    let mut b = Builder::new(&opts());
    let moves: [(u64, i32, i32); 7] = [
        (0, 3, -1),
        (1_000, 4, 2),
        (15_000, -7, 5),
        (16_000, 1, 1),
        (40_000, 0, 0),
        (41_000, 10, -20),
        (70_000, -2, 2),
    ];
    b.key(5_000, 30, true);
    for (t, dx, dy) in moves {
        b.motion(t, dx, dy);
    }
    b.move_abs(50_000, 100, 100);
    b.scroll(60_000, 0, 1);
    let m = b.finish(Header::default());
    let rel: Vec<&Event> = m.events.iter().filter(|e| e.kind == EventType::MoveRel).collect();
    assert!(rel.len() < moves.len());
    assert_eq!(rel.iter().map(|e| e.x).sum::<i32>(), moves.iter().map(|m| m.1).sum::<i32>());
    assert_eq!(rel.iter().map(|e| e.y).sum::<i32>(), moves.iter().map(|m| m.2).sum::<i32>());
}

#[test]
fn absolute_position_is_not_repeated_across_other_events() {
    let mut b = Builder::new(&opts());
    b.move_abs(0, 7, 7);
    b.button(1_000, 0x110, true);
    b.move_abs(2_000, 7, 7);
    b.button(3_000, 0x110, false);
    b.move_abs(4_000, 8, 7);
    b.move_abs(30_000, 7, 7);
    let m = b.finish(Header::default());
    let abs: Vec<(i32, i32)> = m
        .events
        .iter()
        .filter(|e| e.kind == EventType::MoveAbs)
        .map(|e| (e.x, e.y))
        .collect();
    assert_eq!(abs, vec![(7, 7), (8, 7), (7, 7)]);
}
