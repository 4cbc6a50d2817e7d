use r1_panel::input::{
    eviocgabs, eviocgbit, has_abs_events, has_bit, parse_events, read_axis_range, scale_delta,
    scale_position, should_lock_horizontal, should_unlock_horizontal, AxisProbe, InputEvent,
    TouchInput, TouchUpdate, ABS_MT_POSITION_X, ABS_MT_POSITION_Y, ABS_MT_TRACKING_ID, ABS_X,
    ABS_Y, BTN_TOUCH, EV_ABS, EV_KEY, EV_SYN, SYN_REPORT,
};

/// One kernel `input_event` record as the device delivers it.
fn record(type_: u16, code: u16, value: i32) -> Vec<u8> {
    let mut bytes = vec![0u8; 16];
    bytes.extend_from_slice(&type_.to_le_bytes());
    bytes.extend_from_slice(&code.to_le_bytes());
    bytes.extend_from_slice(&value.to_le_bytes());
    bytes
}

fn frame(events: &[(u16, u16, i32)]) -> Vec<u8> {
    let mut bytes = Vec::new();
    for (t, c, v) in events {
        bytes.extend(record(*t, *c, *v));
    }
    bytes.extend(record(EV_SYN, SYN_REPORT, 0));
    bytes
}

#[test]
fn scales_touch_coordinates() {
    assert_eq!(scale_position(0, 0, 960, 960), 0);
    assert_eq!(scale_position(960, 0, 960, 960), 959);
    assert_eq!(scale_delta(-240, 0, 960, 960), -240);
}

#[test]
fn parses_multitouch_tracking_lifecycle() {
    for (value, down) in [(4, true), (-1, false)] {
        let bytes = record(EV_ABS, ABS_MT_TRACKING_ID, value);
        let parsed = parse_events(&bytes);
        assert!(
            matches!(parsed.as_slice(), [InputEvent::TouchDown] if down)
                || matches!(parsed.as_slice(), [InputEvent::TouchUp] if !down)
        );
    }
}

#[test]
fn horizontal_motion_can_take_over_after_vertical_motion() {
    assert!(!should_lock_horizontal(0, 7, 12));
    assert!(!should_lock_horizontal(1, 40, 97));
    assert!(should_lock_horizontal(1, -200, 97));
    assert!(!should_lock_horizontal(2, -240, 30));
}

#[test]
fn horizontal_lock_yields_to_clearly_vertical_motion() {
    assert!(should_unlock_horizontal(-46, 913));
    assert!(should_unlock_horizontal(-10, 100));
    assert!(!should_unlock_horizontal(277, 221));
    assert!(!should_unlock_horizontal(-118, 85));
    assert!(!should_unlock_horizontal(371, 242));
    assert!(!should_unlock_horizontal(100, 120));
}

#[test]
fn decodes_positions_touch_key_and_partial_records() {
    let mut bytes = record(EV_ABS, ABS_MT_POSITION_X, 120);
    bytes.extend(record(EV_ABS, ABS_Y, 330));
    bytes.extend(record(EV_KEY, BTN_TOUCH, 1));
    bytes.extend(record(EV_KEY, BTN_TOUCH, 0));
    bytes.extend(record(EV_SYN, SYN_REPORT, 0));
    bytes.extend_from_slice(&[1, 2, 3]);
    let parsed = parse_events(&bytes);
    assert_eq!(
        parsed,
        vec![
            InputEvent::AbsX(120),
            InputEvent::AbsY(330),
            InputEvent::TouchDown,
            InputEvent::TouchUp,
            InputEvent::TouchMove,
        ]
    );
}

#[test]
fn scale_delta_keeps_small_motion_visible() {
    assert_eq!(scale_delta(1, 0, 4095, 376), 1);
    assert_eq!(scale_delta(-1, 0, 4095, 376), -1);
    assert_eq!(scale_delta(0, 0, 4095, 376), 0);
    assert_eq!(scale_delta(4095, 0, 4095, 376), 376);
    assert_eq!(scale_position(-50, 0, 4095, 376), 0);
    assert_eq!(scale_position(2048, 0, 4095, 376), 188);
}

#[test]
fn tap_is_reported_at_release() {
    let mut touch = TouchInput::new(0, 376, 0, 960);
    let down = frame(&[
        (EV_ABS, ABS_MT_TRACKING_ID, 1),
        (EV_ABS, ABS_MT_POSITION_X, 100),
        (EV_ABS, ABS_MT_POSITION_Y, 200),
    ]);
    let update = touch.poll(&vec![down], 376, 960);
    assert!(update.touch_started);
    assert!(update.touching);
    assert_eq!(update.tap, None);
    let up = frame(&[(EV_ABS, ABS_MT_TRACKING_ID, -1)]);
    let update = touch.poll(&vec![up], 376, 960);
    assert!(!update.touching);
    assert_eq!(update.tap, Some((100, 200)));
    assert_eq!(update.swipe_x, None);
    assert_eq!(update.scroll_y, 0);
}

#[test]
fn vertical_drag_scrolls_and_finishes() {
    let mut touch = TouchInput::new(0, 376, 0, 960);
    let down = frame(&[
        (EV_ABS, ABS_MT_TRACKING_ID, 1),
        (EV_ABS, ABS_MT_POSITION_X, 100),
        (EV_ABS, ABS_MT_POSITION_Y, 500),
    ]);
    touch.poll(&vec![down], 376, 960);
    let moved = frame(&[(EV_ABS, ABS_MT_POSITION_Y, 440)]);
    let update = touch.poll(&vec![moved], 376, 960);
    assert_eq!(update.scroll_y, 60);
    assert_eq!(update.swipe_x, None);
    let up = frame(&[(EV_ABS, ABS_MT_TRACKING_ID, -1)]);
    let update = touch.poll(&vec![up], 376, 960);
    assert!(update.scroll_finished);
    assert_eq!(update.tap, None);
}

#[test]
fn long_horizontal_drag_changes_page() {
    let mut touch = TouchInput::new(0, 376, 0, 960);
    let down = frame(&[
        (EV_ABS, ABS_MT_TRACKING_ID, 1),
        (EV_ABS, ABS_MT_POSITION_X, 300),
        (EV_ABS, ABS_MT_POSITION_Y, 500),
    ]);
    touch.poll(&vec![down], 376, 960);
    let moved = frame(&[(EV_ABS, ABS_MT_POSITION_X, 150)]);
    let update = touch.poll(&vec![moved], 376, 960);
    assert_eq!(update.swipe_x, Some(-150));
    assert!(!update.swipe_finished);
    let up = frame(&[(EV_ABS, ABS_MT_TRACKING_ID, -1)]);
    let update = touch.poll(&vec![up], 376, 960);
    assert!(update.swipe_finished);
    assert_eq!(update.page_delta, 1);
    assert_eq!(update.swipe_x, Some(-150));
}

#[test]
fn short_horizontal_drag_springs_back() {
    let mut touch = TouchInput::new(0, 376, 0, 960);
    let down = frame(&[
        (EV_ABS, ABS_MT_TRACKING_ID, 1),
        (EV_ABS, ABS_MT_POSITION_X, 100),
        (EV_ABS, ABS_MT_POSITION_Y, 500),
    ]);
    touch.poll(&vec![down], 376, 960);
    let moved = frame(&[(EV_ABS, ABS_MT_POSITION_X, 140)]);
    touch.poll(&vec![moved], 376, 960);
    let up = frame(&[(EV_ABS, ABS_MT_TRACKING_ID, -1)]);
    let update = touch.poll(&vec![up], 376, 960);
    assert!(update.swipe_finished);
    assert_eq!(update.page_delta, 0);
}

#[test]
fn default_update_is_empty() {
    let update = TouchUpdate::default();
    assert_eq!(update.scroll_y, 0);
    assert_eq!(update.tap, None);
    assert!(!update.touching && !update.touch_started && !update.touched);
}

#[test]
fn ioctl_requests_match_the_kernel_encoding() {
    // EVIOCGBIT(EV_ABS, 8) and EVIOCGABS(ABS_MT_POSITION_X).
    assert_eq!(eviocgbit(EV_ABS as usize, 8), 0x8008_4523);
    assert_eq!(eviocgabs(ABS_MT_POSITION_X), 0x8018_4575);
}

#[test]
fn abs_capabilities_need_both_axes() {
    let mut bits = [0u8; 8];
    bits[0] = 0b0000_0011;
    assert!(has_bit(&bits, ABS_X));
    assert!(has_bit(&bits, ABS_Y));
    assert!(!has_bit(&bits, 100));
    assert!(has_abs_events(8, &bits));
    assert!(!has_abs_events(-1, &bits));
    let mut mt = [0u8; 8];
    mt[(ABS_MT_POSITION_X / 8) as usize] |= 1 << (ABS_MT_POSITION_X % 8);
    assert!(!has_abs_events(8, &mt));
    mt[(ABS_MT_POSITION_Y / 8) as usize] |= 1 << (ABS_MT_POSITION_Y % 8);
    assert!(has_abs_events(8, &mt));
}

#[test]
fn axis_range_prefers_multitouch() {
    let mt = AxisProbe { result: 0, minimum: 0, maximum: 1023 };
    let classic = AxisProbe { result: 0, minimum: 0, maximum: 4095 };
    assert_eq!(read_axis_range(mt, classic), Some((0, 1023)));
    let empty = AxisProbe { result: 0, minimum: 5, maximum: 5 };
    assert_eq!(read_axis_range(empty, classic), Some((0, 4095)));
    let failed = AxisProbe { result: -1, minimum: 0, maximum: 9 };
    assert_eq!(read_axis_range(failed, failed), None);
    let touch = TouchInput::from_ranges(None, Some((0, 1023)));
    let _ = touch;
}

#[test]
fn empty_poll_reports_only_the_touch_state() {
    let mut touch = TouchInput::new(0, 376, 0, 960);
    let update = touch.poll(&Vec::new(), 376, 960);
    assert!(!update.touching && !update.touched && update.tap.is_none());
    let down = frame(&[(EV_ABS, ABS_MT_TRACKING_ID, 1), (EV_ABS, ABS_MT_POSITION_X, 10)]);
    touch.poll(&vec![down], 376, 960);
    let update = touch.poll(&Vec::new(), 376, 960);
    assert!(update.touching && !update.touched && !update.touch_started);
    assert_eq!(update.scroll_y, 0);
}

#[test]
fn axis_probe_needs_an_answer_and_a_range() {
    use_probe(AxisProbe { result: 0, minimum: 0, maximum: 10 }, true);
    use_probe(AxisProbe { result: -1, minimum: 0, maximum: 10 }, false);
    use_probe(AxisProbe { result: 0, minimum: 10, maximum: 10 }, false);
}

fn use_probe(p: AxisProbe, expected: bool) {
    assert_eq!(r1_panel::input::probe_usable(p), expected);
}
