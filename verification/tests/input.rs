use flow_motion_controller::protocol::{
    InputFrame, BUTTON_A, BUTTON_BOTH_TRIGGERS, BUTTON_SWITCH_HAND, BUTTON_TRIGGER, FRAME_SIZE,
};
use flow_motion_controller::session::{
    input_for_hand, sequence_is_newer, HandInput, PeerAddress, SharedState, INPUT_TIMEOUT_NS,
};

const MS: u64 = 1_000_000;

fn localhost(port: u16) -> PeerAddress {
    PeerAddress::V4 { ip4: 0x7f00_0001, port }
}

#[test]
fn sequence_order_handles_duplicates_and_wraparound() {
    assert!(sequence_is_newer(11, 10));
    assert!(!sequence_is_newer(10, 10));
    assert!(!sequence_is_newer(9, 10));
    assert!(sequence_is_newer(0, u32::MAX));
}

#[test]
fn sequence_order_half_circle() {
    assert!(sequence_is_newer(0x7fff_ffff, 0));
    assert!(!sequence_is_newer(0x8000_0000, 0));
    assert!(!sequence_is_newer(0, 0x8000_0000));
    assert!(sequence_is_newer(5, 0xffff_fff0));
}

#[test]
fn both_triggers_reaches_both_hands_without_other_inputs() {
    let frame = InputFrame {
        buttons: BUTTON_BOTH_TRIGGERS | BUTTON_A,
        ..InputFrame::default()
    };

    let right = input_for_hand(frame, true, false);
    let left = input_for_hand(frame, true, true);
    assert_eq!(right.trigger, 1);
    assert_eq!(right.a, 1);
    assert_eq!(left.trigger, 1);
    assert_eq!(left.a, 0);
}

#[test]
fn inactive_hand_reports_nothing_else() {
    let frame = InputFrame {
        sequence: 3,
        buttons: BUTTON_TRIGGER | BUTTON_A,
        joystick_x: 1000,
        joystick_y: -2000,
    };
    let left = input_for_hand(frame, true, true);
    assert_eq!(left, HandInput::default());
    let right = input_for_hand(frame, true, false);
    assert_eq!(right.trigger, 1);
    assert_eq!(right.joystick_x, 1000);
    assert_eq!(right.joystick_y, -2000);
    let left_selected = input_for_hand(frame, false, true);
    assert_eq!(left_selected, right);
}

#[test]
fn switch_bounce_does_not_toggle_hands_twice() {
    let mut shared = SharedState::new();
    let start: u64 = 5_000 * MS;
    let peer = localhost(4242);
    let frame = |sequence, pressed| InputFrame {
        sequence,
        buttons: if pressed { BUTTON_SWITCH_HAND } else { 0 },
        ..InputFrame::default()
    };

    shared.handle_frame_at(peer, frame(0, true), start);
    shared.handle_frame_at(peer, frame(1, false), start + MS);
    shared.handle_frame_at(peer, frame(2, true), start + 2 * MS);
    shared.handle_frame_at(peer, frame(3, false), start + 21 * MS);
    shared.handle_frame_at(peer, frame(4, true), start + 22 * MS);
    shared.handle_frame_at(peer, frame(5, false), start + 23 * MS);
    assert!(!shared.active_right);

    shared.handle_frame_at(peer, frame(6, true), start + 42 * MS);
    assert!(shared.active_right);
}

#[test]
fn another_udp_sender_waits_for_the_active_session_to_expire() {
    let mut shared = SharedState::new();
    let start: u64 = 5_000 * MS;
    let first_peer = localhost(4242);
    let second_peer = localhost(4243);

    shared.handle_frame_at(
        first_peer,
        InputFrame {
            sequence: 10,
            ..InputFrame::default()
        },
        start,
    );
    shared.handle_frame_at(
        second_peer,
        InputFrame {
            sequence: 11,
            ..InputFrame::default()
        },
        start + MS,
    );
    assert_eq!(shared.latest.unwrap().frame.sequence, 10);

    shared.handle_frame_at(
        second_peer,
        InputFrame {
            sequence: 0,
            ..InputFrame::default()
        },
        start + INPUT_TIMEOUT_NS + MS,
    );
    assert_eq!(shared.peer, Some(second_peer));
    assert_eq!(shared.latest.unwrap().frame.sequence, 0);
}

#[test]
fn stale_and_duplicate_frames_are_dropped() {
    let mut shared = SharedState::new();
    let peer = localhost(4242);
    let frame = |sequence| InputFrame {
        sequence,
        buttons: BUTTON_A,
        ..InputFrame::default()
    };
    shared.handle_frame_at(peer, frame(20), 100 * MS);
    shared.handle_frame_at(peer, frame(20), 101 * MS);
    assert_eq!(shared.latest.unwrap().received_at, 100 * MS);
    shared.handle_frame_at(peer, frame(19), 102 * MS);
    assert_eq!(shared.latest.unwrap().frame.sequence, 20);
    shared.handle_frame_at(peer, frame(21), 103 * MS);
    assert_eq!(shared.latest.unwrap().frame.sequence, 21);
    assert_eq!(shared.latest.unwrap().received_at, 103 * MS);
}

#[test]
fn poll_reports_nothing_after_timeout() {
    let mut shared = SharedState::new();
    let peer = localhost(4242);
    let frame = InputFrame {
        sequence: 1,
        buttons: BUTTON_A,
        joystick_x: 50,
        joystick_y: 60,
    };
    assert_eq!(shared.poll(0, false), HandInput::default());
    shared.handle_frame_at(peer, frame, 10 * MS);
    let right = shared.poll(10 * MS + INPUT_TIMEOUT_NS, false);
    assert_eq!(right.a, 1);
    assert_eq!(right.joystick_x, 50);
    assert_eq!(shared.poll(10 * MS + INPUT_TIMEOUT_NS + 1, false), HandInput::default());
}

#[test]
fn receive_datagram_takes_only_exact_frames() {
    let mut shared = SharedState::new();
    let peer = PeerAddress::V6 {
        ip6: 1,
        port: 4242,
        flowinfo: 0,
        scope_id: 0,
    };
    let frame = InputFrame {
        sequence: 7,
        buttons: BUTTON_A,
        joystick_x: -5,
        joystick_y: 5,
    };
    let mut bytes = [0u8; FRAME_SIZE];
    frame.encode(&mut bytes);
    let mut longer = bytes.to_vec();
    longer.push(0);
    shared.receive_datagram(peer, &longer, MS);
    assert!(shared.latest.is_none());
    shared.receive_datagram(peer, &bytes[..15], MS);
    assert!(shared.latest.is_none());
    let mut bad = bytes;
    bad[0] = b'X';
    shared.receive_datagram(peer, &bad, MS);
    assert!(shared.latest.is_none());
    shared.receive_datagram(peer, &bytes, MS);
    assert_eq!(shared.latest.unwrap().frame, frame);
    assert_eq!(shared.peer, Some(peer));
}

#[test]
fn release_does_not_switch_and_new_session_forgets_switch_state() {
    let mut shared = SharedState::new();
    let peer = localhost(1);
    let press = |sequence| InputFrame {
        sequence,
        buttons: BUTTON_SWITCH_HAND,
        ..InputFrame::default()
    };
    shared.handle_frame_at(peer, press(1), 0);
    assert!(!shared.active_right);
    assert!(shared.switch_was_pressed);
    // Held button in a fresh session toggles again once.
    shared.handle_frame_at(peer, press(2), INPUT_TIMEOUT_NS + 1);
    assert!(shared.active_right);
    shared.handle_frame_at(peer, press(3), INPUT_TIMEOUT_NS + 100 * MS);
    assert!(shared.active_right);
}

#[test]
fn held_switch_toggles_only_once() {
    let mut shared = SharedState::new();
    let peer = localhost(4242);
    for sequence in 0..200u32 {
        shared.handle_frame_at(
            peer,
            InputFrame {
                sequence,
                buttons: BUTTON_SWITCH_HAND,
                ..InputFrame::default()
            },
            u64::from(sequence) * 100 * MS,
        );
        assert!(!shared.active_right);
    }
}
