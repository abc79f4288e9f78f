use flow_motion_controller::firmware::{
    combine_buttons, CenterMeasurement, SampledInput, Transmitter, CHANGE_TRANSMIT_COUNT,
    KEEPALIVE_INTERVAL_NS,
};
use flow_motion_controller::joystick::{axis, deadzone, joystick_axis};
use flow_motion_controller::protocol::{BUTTON_A, BUTTON_GRIP, BUTTON_SWITCH_HAND, BUTTON_TRIGGER};
use flow_motion_controller::session::sequence_is_newer;

const MS: u64 = 1_000_000;
const TENTH: i32 = 3277;

#[test]
fn axis_maps_ranges_around_center() {
    assert_eq!(axis(2048, 2048), 0);
    assert_eq!(axis(0, 2048), i16::MIN);
    assert_eq!(axis(4095, 2048), i16::MAX);
    assert_eq!(axis(1024, 2048), -16384);
    assert_eq!(axis(3071, 2048), 16375);
    assert_eq!(axis(1000, 3000), -21845);
    assert_eq!(axis(4095, 4095), 0);
    assert_eq!(axis(5000, 4095), i16::MAX);
    assert_eq!(axis(0, 0), 0);
}

#[test]
fn deadzone_removes_inner_range_and_keeps_edges() {
    assert_eq!(deadzone(3000, TENTH), 0);
    assert_eq!(deadzone(-3277, TENTH), 0);
    assert_eq!(deadzone(i16::MAX, TENTH), i16::MAX);
    assert_eq!(deadzone(i16::MIN, TENTH), i16::MIN);
    assert_eq!(deadzone(16384, TENTH), 14563);
    assert_eq!(deadzone(-20000, TENTH), -18581);
    assert_eq!(deadzone(123, 0), 123);
    assert_eq!(deadzone(i16::MIN, 32768), 0);
}

#[test]
fn joystick_axis_inverts_with_saturation() {
    assert_eq!(joystick_axis(0, 2048, false, TENTH), i16::MIN);
    assert_eq!(joystick_axis(0, 2048, true, TENTH), i16::MAX);
    assert_eq!(joystick_axis(4095, 2048, true, TENTH), -i16::MAX);
    assert_eq!(joystick_axis(2048, 2048, true, TENTH), 0);
}

fn sample(buttons: u16) -> SampledInput {
    SampledInput {
        buttons,
        joystick_x: 0,
        joystick_y: 0,
    }
}

#[test]
fn change_is_sent_three_times_then_keepalive() {
    let mut t = Transmitter::new(0);
    let mut sent = Vec::new();
    let mut now = 0;
    for _ in 0..5 {
        now += MS;
        if let Some(frame) = t.sample(sample(BUTTON_A), now) {
            sent.push(frame.sequence);
            assert_eq!(t.sent(true, now), None);
        }
    }
    assert_eq!(sent, vec![0, 0, 0]);
    assert_eq!(CHANGE_TRANSMIT_COUNT, 3);
    // Nothing more until the keepalive interval has passed since the last send.
    assert!(t.sample(sample(BUTTON_A), 3 * MS + KEEPALIVE_INTERVAL_NS - 1).is_none());
    let keepalive = t.sample(sample(BUTTON_A), 3 * MS + KEEPALIVE_INTERVAL_NS).unwrap();
    assert_eq!(keepalive.sequence, 1);
    assert!(sequence_is_newer(keepalive.sequence, 0));
}

#[test]
fn newer_state_supersedes_pending_repeats() {
    let mut t = Transmitter::new(0);
    let first = t.sample(sample(BUTTON_TRIGGER), MS).unwrap();
    t.sent(true, MS);
    let second = t.sample(sample(0), 2 * MS).unwrap();
    assert_eq!(second.sequence, first.sequence + 1);
    assert_eq!(second.buttons, 0);
    assert_eq!(t.state().transmits_left, 3);
}

#[test]
fn failed_send_turns_led_off_and_retries() {
    let mut t = Transmitter::new(0);
    let frame = t.sample(sample(BUTTON_GRIP), MS).unwrap();
    assert_eq!(t.sent(false, MS), Some(false));
    assert_eq!(t.sent(false, MS), None);
    let again = t.sample(sample(BUTTON_GRIP), 101 * MS).unwrap();
    assert_eq!(again, frame);
    assert_eq!(t.sent(true, 101 * MS), Some(true));
    assert_eq!(t.state().transmits_left, 2);
}

#[test]
fn buttons_combine_configured_actions() {
    let actions = [
        BUTTON_TRIGGER,
        BUTTON_SWITCH_HAND,
        BUTTON_A,
        0,
        BUTTON_GRIP,
        0,
        0,
        0,
    ];
    assert_eq!(combine_buttons(&[false; 8], &actions), 0);
    assert_eq!(
        combine_buttons(&[true, false, true, true, false, false, false, false], &actions),
        BUTTON_TRIGGER | BUTTON_A
    );
    assert_eq!(
        combine_buttons(&[true; 8], &actions),
        BUTTON_TRIGGER | BUTTON_SWITCH_HAND | BUTTON_A | BUTTON_GRIP
    );
}

#[test]
fn center_is_mean_of_readings() {
    let mut m = CenterMeasurement::new();
    m.add(2000, 100);
    m.add(2001, 4095);
    m.add(2003, 0);
    assert_eq!(m.center(), (2001, 1398));
}
