use flow_motion_controller::calibration_file::{
    calibration_file_text, hand_index, hand_name, parse_calibration_text, serial_matches,
    StoredHandText,
};
use flow_motion_controller::debug::action_names;
use flow_motion_controller::protocol::{
    BUTTON_A, BUTTON_B, BUTTON_BOTH_TRIGGERS, BUTTON_JOYSTICK, BUTTON_TRIGGER,
};
use flow_motion_controller::settings::requested_hand;

#[test]
fn action_names_lists_set_buttons() {
    assert_eq!(action_names(0), "none");
    assert_eq!(action_names(BUTTON_A | BUTTON_B), "A, B");
    assert_eq!(
        action_names(BUTTON_TRIGGER | BUTTON_BOTH_TRIGGERS | BUTTON_JOYSTICK),
        "Trigger, BothTriggers, JoystickButton"
    );
    assert_eq!(action_names(0x0101), "Trigger, Unknown(0x0100)");
    assert_eq!(action_names(0xab00), "Unknown(0xab00)");
    assert_eq!(
        action_names(0xffff),
        "Trigger, SwitchHand, A, B, Grip, System, BothTriggers, JoystickButton, Unknown(0xff00)"
    );
}

#[test]
fn hands_are_named_and_indexed() {
    assert_eq!(hand_name(true), "LEFT");
    assert_eq!(hand_name(false), "RIGHT");
    assert_eq!(hand_index(true), 0);
    assert_eq!(hand_index(false), 1);
}

#[test]
fn calibration_text_parses_entries_and_reports_malformed_lines() {
    let text = "# comment\n\n  LEFT_SERIAL = LHR-1 \r\nbroken line\nRIGHT_OFFSET_X=0.5=x\n   # note\nLEFT_SERIAL=LHR-2";
    let parsed = parse_calibration_text(text);
    let entries: Vec<(String, String)> = parsed
        .entries
        .iter()
        .map(|e| (e.key.clone(), e.value.clone()))
        .collect();
    assert_eq!(
        entries,
        vec![
            ("LEFT_SERIAL".to_owned(), "LHR-1".to_owned()),
            ("RIGHT_OFFSET_X".to_owned(), "0.5=x".to_owned()),
            ("LEFT_SERIAL".to_owned(), "LHR-2".to_owned()),
        ]
    );
    assert_eq!(parsed.malformed_lines, vec![4]);
    assert_eq!(
        parsed.value(&"LEFT_SERIAL".to_owned()).map(String::as_str),
        Some("LHR-2")
    );
    assert_eq!(parsed.value(&"RIGHT_SERIAL".to_owned()), None);
    assert!(parsed.has_key_with_prefix("RIGHT_"));
    assert!(!parsed.has_key_with_prefix("LEFT_OFFSET"));
}

#[test]
fn empty_calibration_text_has_nothing() {
    let parsed = parse_calibration_text("");
    assert!(parsed.entries.is_empty());
    assert!(parsed.malformed_lines.is_empty());
    let parsed = parse_calibration_text("\u{3000}key\u{a0}=\tvalue\u{2029}\n");
    assert_eq!(parsed.entries[0].key, "key");
    assert_eq!(parsed.entries[0].value, "value");
}

fn hand(serial: &str) -> StoredHandText {
    StoredHandText {
        serial: serial.to_owned(),
        offset_x: "0.000000000".to_owned(),
        offset_y: "0.010000000".to_owned(),
        offset_z: "-0.020000000".to_owned(),
        offset_qx: "0.000000000".to_owned(),
        offset_qy: "0.707106769".to_owned(),
        offset_qz: "0.000000000".to_owned(),
        offset_qw: "0.707106769".to_owned(),
    }
}

#[test]
fn calibration_file_round_trips() {
    let text = calibration_file_text(&None, &Some(hand("LHR-RIGHT")));
    assert_eq!(
        text,
        "# Flow Motion Controller mount calibration\n# Position is in metres; orientation is quaternion x, y, z, w.\nRIGHT_SERIAL=LHR-RIGHT\nRIGHT_OFFSET_X=0.000000000\nRIGHT_OFFSET_Y=0.010000000\nRIGHT_OFFSET_Z=-0.020000000\nRIGHT_OFFSET_QX=0.000000000\nRIGHT_OFFSET_QY=0.707106769\nRIGHT_OFFSET_QZ=0.000000000\nRIGHT_OFFSET_QW=0.707106769\n"
    );
    let both = calibration_file_text(&Some(hand("L")), &Some(hand("R")));
    let parsed = parse_calibration_text(&both);
    assert_eq!(parsed.entries.len(), 16);
    assert!(parsed.malformed_lines.is_empty());
    assert_eq!(parsed.value(&"LEFT_SERIAL".to_owned()).unwrap(), "L");
    assert_eq!(parsed.value(&"RIGHT_SERIAL".to_owned()).unwrap(), "R");
    assert_eq!(
        parsed.value(&"LEFT_OFFSET_Z".to_owned()).unwrap(),
        "-0.020000000"
    );
}

#[test]
fn requested_hand_accepts_left_and_right_in_any_case() {
    assert_eq!(requested_hand(None), Ok(None));
    assert_eq!(requested_hand(Some("left")), Ok(Some(true)));
    assert_eq!(requested_hand(Some("LeFt")), Ok(Some(true)));
    assert_eq!(requested_hand(Some("RIGHT")), Ok(Some(false)));
    assert_eq!(
        requested_hand(Some("both")),
        Err("FMC_CALIBRATE_HAND must be 'left' or 'right', not 'both'".to_owned())
    );
    assert!(requested_hand(Some("lefty")).is_err());
}

#[test]
fn hand_fields_report_present_values() {
    let parsed = parse_calibration_text(
        "LEFT_SERIAL=L1\nLEFT_OFFSET_X=\nLEFT_OFFSET_QW=1\nLEFT_OFFSET_Y=2\nLEFT_OFFSET_Y=3\n",
    );
    assert!(parsed.hand_fields(false).is_none());
    let fields = parsed.hand_fields(true).unwrap();
    assert_eq!(fields.len(), 8);
    assert_eq!(fields[0].as_deref(), Some("L1"));
    assert_eq!(fields[1], None);
    assert_eq!(fields[2].as_deref(), Some("3"));
    assert_eq!(fields[3], None);
    assert_eq!(fields[7].as_deref(), Some("1"));
    assert!(serial_matches(&"L1".to_owned(), &"L1".to_owned()));
    assert!(!serial_matches(&"L1".to_owned(), &"L2".to_owned()));
    assert!(!serial_matches(&String::new(), &String::new()));
}
