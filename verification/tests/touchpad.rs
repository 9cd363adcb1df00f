use atbswp::format::{BTN_LEFT, BTN_MIDDLE, BTN_RIGHT};
use atbswp::record::touchpad::{Out, Touchpad, ABS_X, ABS_Y, BTN_TOOL_DOUBLETAP, BTN_TOOL_FINGER, BTN_TOOL_TRIPLETAP, BTN_TOUCH};

fn pad() -> Touchpad {
    Touchpad::new(10, 1000) // 10 units/mm -> 20 unit threshold
}

#[test]
fn one_finger_tap_is_left_click() {
    let mut p = pad();
    p.abs(ABS_X, 500);
    p.abs(ABS_Y, 500);
    p.key(BTN_TOUCH, true);
    p.key(BTN_TOOL_FINGER, true);
    assert!(p.frame(0).is_empty());
    p.abs(ABS_X, 505); // jitter below threshold
    assert!(p.frame(50_000).is_empty());
    p.key(BTN_TOUCH, false);
    p.key(BTN_TOOL_FINGER, false);
    assert_eq!(
        p.frame(100_000),
        vec![Out::Press(BTN_LEFT), Out::Release(BTN_LEFT)]
    );
}

#[test]
fn two_finger_tap_is_right_click_and_slow_or_moving_touch_is_not_a_click() {
    let mut p = pad();
    p.key(BTN_TOUCH, true);
    p.key(BTN_TOOL_DOUBLETAP, true);
    p.frame(0);
    p.key(BTN_TOUCH, false);
    p.key(BTN_TOOL_DOUBLETAP, false);
    assert_eq!(
        p.frame(120_000),
        vec![Out::Press(BTN_RIGHT), Out::Release(BTN_RIGHT)]
    );

    // too slow
    p.key(BTN_TOUCH, true);
    p.key(BTN_TOOL_FINGER, true);
    p.frame(1_000_000);
    p.key(BTN_TOUCH, false);
    p.key(BTN_TOOL_FINGER, false);
    assert!(p.frame(1_400_000).is_empty());

    // moved: a pointer motion, not a tap
    p.abs(ABS_X, 100);
    p.key(BTN_TOUCH, true);
    p.key(BTN_TOOL_FINGER, true);
    p.frame(2_000_000);
    p.abs(ABS_X, 200);
    p.frame(2_050_000);
    p.key(BTN_TOUCH, false);
    p.key(BTN_TOOL_FINGER, false);
    assert!(p.frame(2_100_000).is_empty());
}

#[test]
fn physical_press_with_two_fingers_is_right_click_and_suppresses_tap() {
    let mut p = pad();
    p.key(BTN_TOUCH, true);
    p.key(BTN_TOOL_DOUBLETAP, true);
    p.key(BTN_LEFT, true); // same frame as the fingers landing
    assert_eq!(p.frame(0), vec![Out::Press(BTN_RIGHT)]);
    p.key(BTN_LEFT, false);
    assert_eq!(p.frame(80_000), vec![Out::Release(BTN_RIGHT)]);
    p.key(BTN_TOUCH, false);
    p.key(BTN_TOOL_DOUBLETAP, false);
    assert!(p.frame(100_000).is_empty()); // lift-off is not a second click
}

#[test]
fn plain_physical_click_is_left() {
    let mut p = pad();
    p.key(BTN_TOUCH, true);
    p.key(BTN_TOOL_FINGER, true);
    p.frame(0);
    p.key(BTN_LEFT, true);
    assert_eq!(p.frame(300_000), vec![Out::Press(BTN_LEFT)]);
    p.key(BTN_LEFT, false);
    assert_eq!(p.frame(400_000), vec![Out::Release(BTN_LEFT)]);
}

#[test]
fn three_finger_tap_is_middle_and_threshold_from_range() {
    let mut p = pad();
    p.key(BTN_TOUCH, true);
    p.key(BTN_TOOL_TRIPLETAP, true);
    p.frame(0);
    p.key(BTN_TOUCH, false);
    p.key(BTN_TOOL_TRIPLETAP, false);
    assert_eq!(p.frame(10), vec![Out::Press(BTN_MIDDLE), Out::Release(BTN_MIDDLE)]);
    assert!(Touchpad::is_tool_key(BTN_TOUCH));
    assert!(!Touchpad::is_tool_key(BTN_LEFT));
    assert!(Touchpad::new(0, 5000).describe().ends_with("threshold 100 units"));
    assert!(Touchpad::new(0, 10).describe().ends_with("threshold 1 units"));
    assert!(pad().describe().ends_with("threshold 20 units"));
}

#[test]
fn tap_button_follows_most_fingers_over_the_whole_touch() {
    let mut p = pad();
    p.key(BTN_TOOL_FINGER, true);
    p.key(BTN_TOUCH, true);
    assert_eq!(p.frame(0), vec![]);
    p.abs(ABS_X, 3);
    p.key(BTN_TOOL_FINGER, false);
    p.key(BTN_TOOL_DOUBLETAP, true);
    assert_eq!(p.frame(40_000), vec![]);
    p.key(BTN_TOOL_DOUBLETAP, false);
    p.key(BTN_TOOL_FINGER, true);
    p.abs(ABS_Y, -2);
    assert_eq!(p.frame(80_000), vec![]);
    p.key(BTN_TOOL_FINGER, false);
    p.key(BTN_TOUCH, false);
    assert_eq!(p.frame(120_000), vec![Out::Press(BTN_RIGHT), Out::Release(BTN_RIGHT)]);
}

#[test]
fn a_stray_in_the_middle_of_a_touch_cancels_the_tap() {
    let mut p = pad();
    p.key(BTN_TOOL_FINGER, true);
    p.key(BTN_TOUCH, true);
    assert_eq!(p.frame(0), vec![]);
    p.abs(ABS_X, 500);
    assert_eq!(p.frame(10_000), vec![]);
    p.abs(ABS_X, 0);
    assert_eq!(p.frame(20_000), vec![]);
    p.key(BTN_TOOL_FINGER, false);
    p.key(BTN_TOUCH, false);
    assert_eq!(p.frame(30_000), vec![]);
}
