use flow_motion_controller::protocol::{InputFrame, FRAME_MAGIC, FRAME_SIZE};

#[test]
fn encode_layout_is_little_endian() {
    let frame = InputFrame {
        sequence: 0x0403_0201,
        buttons: 0x0a09,
        joystick_x: -2,
        joystick_y: 0x1234,
    };
    let mut bytes = [0xffu8; FRAME_SIZE];
    frame.encode(&mut bytes);
    assert_eq!(
        bytes,
        [b'F', b'M', b'C', b'1', 1, 2, 3, 4, 9, 10, 0, 0, 0xfe, 0xff, 0x34, 0x12]
    );
    assert_eq!(&bytes[..4], &FRAME_MAGIC);
}

#[test]
fn decode_reverses_encode() {
    for frame in [
        InputFrame::default(),
        InputFrame {
            sequence: u32::MAX,
            buttons: u16::MAX,
            joystick_x: i16::MIN,
            joystick_y: i16::MAX,
        },
        InputFrame {
            sequence: 77,
            buttons: 0x41,
            joystick_x: -300,
            joystick_y: 301,
        },
    ] {
        let mut bytes = [0u8; FRAME_SIZE];
        frame.encode(&mut bytes);
        assert_eq!(InputFrame::decode(&bytes), Some(frame));
    }
}

#[test]
fn decode_rejects_short_input_and_bad_magic() {
    let mut bytes = [0u8; FRAME_SIZE];
    InputFrame::default().encode(&mut bytes);
    assert_eq!(InputFrame::decode(&bytes[..15]), None);
    assert_eq!(InputFrame::decode(&[]), None);
    for index in 0..4 {
        let mut bad = bytes;
        bad[index] ^= 0x20;
        assert_eq!(InputFrame::decode(&bad), None);
    }
}

#[test]
fn decode_ignores_reserved_and_trailing_bytes() {
    let frame = InputFrame {
        sequence: 9,
        buttons: 3,
        joystick_x: 4,
        joystick_y: -4,
    };
    let mut bytes = [0u8; FRAME_SIZE];
    frame.encode(&mut bytes);
    let mut noisy = bytes.to_vec();
    noisy[10] = 0xaa;
    noisy[11] = 0x55;
    noisy.extend_from_slice(&[1, 2, 3]);
    assert_eq!(InputFrame::decode(&noisy), Some(frame));
}
