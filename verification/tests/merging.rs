use atbswp::format::{Event, Header};
use atbswp::record::evdev::{Raw, RawEvent};
use atbswp::record::merge::{cursor_sample, Merger, Sample, SpaMetaCursor};
use atbswp::record::Options;

fn opts() -> Options {
    Options { stop_key: Some(88), min_move_interval_us: 0, ..Default::default() }
}

#[test]
fn cursor_meta_without_a_cursor_gives_no_sample() {
    let mut c = SpaMetaCursor { id: 0, flags: 0, x: 10, y: 20, hotspot_x: 1, hotspot_y: 2, bitmap_offset: 0 };
    assert_eq!(cursor_sample(&c, 5), None);
    c.id = 7;
    assert_eq!(cursor_sample(&c, 5), Some(Sample { t_us: 5, x: 10, y: 20 }));
}

#[test]
fn cursor_samples_come_before_later_events_and_motion_is_dropped() {
    let mut m = Merger::new(&opts(), true);
    let arrived = [Sample { t_us: 100, x: 1, y: 2 }, Sample { t_us: 300, x: 3, y: 4 }];
    m.feed(RawEvent { t_us: 200, ev: Raw::Rel { dx: 5, dy: 5 } }, &arrived);
    m.feed(RawEvent { t_us: 250, ev: Raw::Key { code: 30, pressed: true } }, &[]);
    m.feed(RawEvent { t_us: 400, ev: Raw::Key { code: 30, pressed: false } }, &[]);
    let mac = m.finish(0, &[], Some((1920, 1080)), None);
    assert_eq!(mac.header, Header { screen_w: 1920, screen_h: 1080, repeat: 1, speed_percent: 100 });
    assert_eq!(
        mac.events,
        vec![
            Event::move_abs(1, 2, 0),
            Event::key(30, true, 150),
            Event::move_abs(3, 4, 50),
            Event::key(30, false, 100),
        ]
    );
}

#[test]
fn a_final_hover_still_counts_and_the_asked_screen_wins() {
    let mut m = Merger::new(&opts(), true);
    m.feed(RawEvent { t_us: 10, ev: Raw::Button { code: 0x110, pressed: true } }, &[]);
    m.feed(RawEvent { t_us: 20, ev: Raw::Button { code: 0x110, pressed: false } }, &[]);
    let late = [Sample { t_us: 90, x: -4, y: 8 }, Sample { t_us: 500, x: 9, y: 9 }];
    let mac = m.finish(100, &late, Some((800, 600)), Some((1024, 768)));
    assert_eq!(mac.header.screen_w, 1024);
    assert_eq!(mac.header.screen_h, 768);
    assert_eq!(
        mac.events,
        vec![
            Event::button(0x110, true, 0),
            Event::button(0x110, false, 10),
            Event::move_abs(-4, 8, 70),
        ]
    );
}

#[test]
fn without_a_cursor_relative_motion_is_kept() {
    let mut m = Merger::new(&opts(), false);
    let e = RawEvent { t_us: 0, ev: Raw::Rel { dx: 3, dy: -1 } };
    assert!(m.fits(&e));
    m.feed(e, &[]);
    let mac = m.finish(0, &[], None, None);
    assert_eq!(mac.header, Header::default());
    assert_eq!(mac.events, vec![Event::move_rel(3, -1, 0)]);
}
