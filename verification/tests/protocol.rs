use dygma_focus::numerical_vec_to_string;
use dygma_focus::Focus;
use dygma_focus::FocusError;
use dygma_focus::LedMode;
use dygma_focus::MockStep;
use dygma_focus::MockTransport;
use dygma_focus::Side;
use dygma_focus::WirelessPowerMode;
use dygma_focus::RGB;
use dygma_focus::RGBW;

fn chunk(s: &str) -> MockStep {
    MockStep::Chunk(s.as_bytes().to_vec())
}

fn session(steps: Vec<MockStep>) -> Focus<MockTransport> {
    Focus::from_transport(MockTransport::new(steps))
}

fn writes_of(focus: &Focus<MockTransport>) -> Vec<String> {
    focus
        .transport_ref()
        .recorded_writes()
        .iter()
        .map(|w| String::from_utf8(w.clone()).unwrap())
        .collect()
}

#[test]
fn version_round_trip() {
    let mut focus = session(vec![chunk("1.2.3\r\n.\r\n")]);
    let version = focus.version().unwrap();
    assert_eq!(version, "1.2.3");
    assert_eq!(writes_of(&focus), vec!["version\n".to_string()]);
}

#[test]
fn keymap_custom_round_trip_reproduces_the_wire_form() {
    let mut focus = session(vec![chunk("41 30 31\r\n.\r\n"), chunk("\r\n.\r\n")]);
    let keymap = focus.keymap_custom_get().unwrap();
    assert_eq!(keymap, vec![41, 30, 31]);

    let encoded = numerical_vec_to_string(&keymap);
    assert_eq!(encoded, "41 30 31");

    focus.keymap_custom_set(&keymap).unwrap();
    assert_eq!(
        writes_of(&focus),
        vec![
            "keymap.custom\n".to_string(),
            "keymap.custom 41 30 31\n".to_string(),
        ]
    );
}

#[test]
fn framing_removes_a_mid_stream_sentinel_and_trims() {
    let mut focus = session(vec![chunk("  part1\r\n.\r\npart2 \r\n.\r\n")]);
    let response = focus.read_string().unwrap();
    assert_eq!(response, "part1\r\n.\r\npart2".replace("\r\n.\r\n", ""));
    assert_eq!(response, "part1part2");
}

#[test]
fn framing_reassembles_chunked_responses() {
    let mut focus = session(vec![chunk("1."), chunk("2.3\r\n."), chunk("\r\n")]);
    let response = focus.read_string().unwrap();
    assert_eq!(response, "1.2.3");
}

#[test]
fn framing_strips_null_padding() {
    let mut focus = session(vec![MockStep::Chunk(b"4\x001\0\r\n.\r\n".to_vec())]);
    let response = focus.read_string().unwrap();
    assert_eq!(response, "41");
}

#[test]
fn framing_empty_payload_is_a_plain_acknowledgement() {
    let mut focus = session(vec![chunk("\r\n.\r\n")]);
    let response = focus.read_string().unwrap();
    assert_eq!(response, "");
}

#[test]
fn framing_read_failure_is_fatal() {
    let mut focus = session(vec![MockStep::Fail]);
    let r = focus.read_string();
    assert!(matches!(r, Err(FocusError::SerialPortReadError(_))));
}

#[test]
fn bool_responses_decode_exactly() {
    for (payload, expected) in [("0", false), ("false", false), ("1", true), ("true", true)] {
        let mut focus = session(vec![chunk(&format!("{}\r\n.\r\n", payload))]);
        assert_eq!(focus.keymap_only_custom_get().unwrap(), expected);
    }

    let mut focus = session(vec![chunk("\r\n.\r\n")]);
    assert_eq!(
        focus.keymap_only_custom_get(),
        Err(FocusError::EmptyResponseError)
    );

    let mut focus = session(vec![chunk("2\r\n.\r\n")]);
    assert_eq!(
        focus.keymap_only_custom_get(),
        Err(FocusError::ParseBoolError { string: "2".to_string() })
    );
}

#[test]
fn numeric_response_parse_failure_keeps_the_raw_string() {
    let mut focus = session(vec![chunk("abc\r\n.\r\n")]);
    assert_eq!(
        focus.settings_default_layer_get(),
        Err(FocusError::ParseNumericalError { string: "abc".to_string() })
    );
}

#[test]
fn led_mode_codes_decode_and_out_of_range_fails() {
    let mut focus = session(vec![chunk("3\r\n.\r\n")]);
    assert_eq!(focus.led_mode_get().unwrap(), LedMode::Stalker);

    let mut focus = session(vec![chunk("11\r\n.\r\n")]);
    assert_eq!(
        focus.led_mode_get(),
        Err(FocusError::ParseNumericalError { string: "11".to_string() })
    );

    let mut focus = session(vec![chunk("\r\n.\r\n")]);
    focus.led_mode_set(LedMode::Bluetooth).unwrap();
    assert_eq!(writes_of(&focus), vec!["led.mode 10\n".to_string()]);
}

#[test]
fn set_default_layer_above_limit_fails_and_sends_nothing() {
    let mut focus = session(vec![]);
    let r = focus.settings_default_layer_set(10);
    assert_eq!(
        r,
        Err(FocusError::ValueAboveLimitError { label: "layer", max: 9, provided: 10 })
    );
    assert_eq!(writes_of(&focus).len(), 0);
}

#[test]
fn set_default_layer_short_circuits_when_already_current() {
    let mut focus = session(vec![chunk("1\r\n.\r\n")]);
    focus.settings_default_layer_set(1).unwrap();
    // the pre-read went out; no second (write) command was issued
    assert_eq!(writes_of(&focus), vec!["settings.defaultLayer\n".to_string()]);
}

#[test]
fn set_default_layer_writes_when_the_value_differs() {
    let mut focus = session(vec![chunk("0\r\n.\r\n"), chunk("\r\n.\r\n")]);
    focus.settings_default_layer_set(1).unwrap();
    assert_eq!(
        writes_of(&focus),
        vec![
            "settings.defaultLayer\n".to_string(),
            "settings.defaultLayer 1\n".to_string(),
        ]
    );
}

#[test]
fn superkeys_overlap_boundary_is_inclusive() {
    let mut focus = session(vec![]);
    assert_eq!(
        focus.superkeys_overlap_set(81),
        Err(FocusError::ValueAboveLimitError { label: "percentage", max: 80, provided: 81 })
    );
    assert_eq!(writes_of(&focus).len(), 0);

    let mut focus = session(vec![chunk("\r\n.\r\n")]);
    focus.superkeys_overlap_set(80).unwrap();
    assert_eq!(writes_of(&focus), vec!["superkeys.overlap 80\n".to_string()]);
}

#[test]
fn seconds_limits_are_enforced_client_side() {
    let mut focus = session(vec![]);
    assert_eq!(
        focus.led_idle_true_sleep_time_set(65001),
        Err(FocusError::ValueAboveLimitError { label: "seconds", max: 65000, provided: 65001 })
    );
    assert_eq!(
        focus.led_idle_time_limit_wired_set(65001),
        Err(FocusError::ValueAboveLimitError { label: "seconds", max: 65000, provided: 65001 })
    );
    assert_eq!(
        focus.led_idle_time_limit_wireless_set(65001),
        Err(FocusError::ValueAboveLimitError { label: "seconds", max: 65000, provided: 65001 })
    );
    assert_eq!(
        focus.mouse_speed_set(128),
        Err(FocusError::ValueAboveLimitError { label: "speed", max: 127, provided: 128 })
    );
    assert_eq!(writes_of(&focus).len(), 0);
}

#[test]
fn layer_validation_and_state() {
    let mut focus = session(vec![]);
    assert_eq!(
        focus.layer_is_active(10),
        Err(FocusError::ValueAboveLimitError { label: "layer", max: 9, provided: 10 })
    );
    assert_eq!(
        focus.layer_deactivate(Some(10)),
        Err(FocusError::ValueAboveLimitError { label: "layer", max: 9, provided: 10 })
    );
    assert_eq!(writes_of(&focus).len(), 0);

    let mut focus = session(vec![chunk("1 0 0 1\r\n.\r\n")]);
    assert_eq!(
        focus.layer_state().unwrap(),
        vec![true, false, false, true]
    );
}

#[test]
fn led_at_parses_an_exact_triple() {
    let mut focus = session(vec![chunk("10 20 30\r\n.\r\n")]);
    assert_eq!(focus.led_at_get(3).unwrap(), RGB { r: 10, g: 20, b: 30 });

    let mut focus = session(vec![chunk("10 20\r\n.\r\n")]);
    assert_eq!(
        focus.led_at_get(3),
        Err(FocusError::PartCountError { expected: 3 })
    );

    let mut focus = session(vec![chunk("\r\n.\r\n")]);
    assert_eq!(focus.led_at_get(3), Err(FocusError::EmptyResponseError));

    let mut focus = session(vec![chunk("\r\n.\r\n")]);
    focus.led_at_set(7, &RGB { r: 1, g: 2, b: 3 }).unwrap();
    assert_eq!(writes_of(&focus), vec!["led.at 7 1 2 3\n".to_string()]);
}

#[test]
fn help_splits_lines_and_strips_carriage_returns() {
    let mut focus = session(vec![chunk("version\r\nkeymap.custom\r\nhelp\r\n.\r\n")]);
    let commands = focus.help().unwrap();
    assert_eq!(commands, vec!["version", "keymap.custom", "help"]);
}

#[test]
fn settings_valid_takes_the_bool_literals() {
    let mut focus = session(vec![chunk("true\r\n.\r\n")]);
    assert_eq!(focus.settings_valid().unwrap(), true);
    let mut focus = session(vec![chunk("1\r\n.\r\n")]);
    assert_eq!(
        focus.settings_valid(),
        Err(FocusError::ParseNumericalError { string: "1".to_string() })
    );
}

#[test]
fn upgrade_errors_carry_their_domain_meaning() {
    let mut focus = session(vec![MockStep::Fail]);
    assert_eq!(
        focus.upgrade_keyscanner_begin(Side::Left),
        Err(FocusError::SideDisconnectedError { side: Side::Left })
    );

    let mut focus = session(vec![MockStep::Fail]);
    assert_eq!(
        focus.upgrade_keyscanner_is_ready(),
        Err(FocusError::DeviceNotReadyError)
    );

    let mut focus = session(vec![]);
    focus.upgrade_keyscanner_send_write().unwrap();
    assert_eq!(
        writes_of(&focus),
        vec!["upgrade.keyscanner.sendWrite ".to_string()]
    );
}

#[test]
fn read_all_tolerates_an_optional_field_failure() {
    let steps = vec![
        chunk("41 30 31\r\n.\r\n"),  // keymap.custom
        chunk("1 2 3\r\n.\r\n"),     // keymap.default
        chunk("1\r\n.\r\n"),         // keymap.onlyCustom
        chunk("0\r\n.\r\n"),         // settings.defaultLayer
        chunk("41 30\r\n.\r\n"),     // superkeys.map
        chunk("500\r\n.\r\n"),       // superkeys.waitfor
        chunk("200\r\n.\r\n"),       // superkeys.timeout
        chunk("20\r\n.\r\n"),        // superkeys.repeat
        chunk("200\r\n.\r\n"),       // superkeys.holdstart
        chunk("20\r\n.\r\n"),        // superkeys.overlap
        chunk("0\r\n.\r\n"),         // led.mode
        chunk("255\r\n.\r\n"),       // led.brightness
        MockStep::Fail,              // led.brightnessUG: the optional field's read fails
        chunk("100\r\n.\r\n"),       // led.brightness.wireless
        chunk("90\r\n.\r\n"),        // led.brightnessUG.wireless
        chunk("0\r\n.\r\n"),         // led.fade
        chunk("1 2 3 4 5 6\r\n.\r\n"),  // led.theme
        chunk("1 2 3\r\n.\r\n"),     // palette (as RGB)
        chunk("1 2 3 4\r\n.\r\n"),   // palette (as RGBW)
        chunk("0 1 2\r\n.\r\n"),     // colormap.map
        chunk("0\r\n.\r\n"),         // idleleds.true_sleep
        chunk("60\r\n.\r\n"),        // idleleds.true_sleep_time
        chunk("600\r\n.\r\n"),       // idleleds.time_limit
        chunk("300\r\n.\r\n"),       // idleleds.wireless
        chunk("250\r\n.\r\n"),       // qukeys.holdTimeout
        chunk("80\r\n.\r\n"),        // qukeys.overlapThreshold
        chunk("0 1\r\n.\r\n"),       // macros.map
        chunk("1\r\n.\r\n"),         // mouse.speed
        chunk("2\r\n.\r\n"),         // mouse.speedDelay
        chunk("3\r\n.\r\n"),         // mouse.accelSpeed
        chunk("4\r\n.\r\n"),         // mouse.accelDelay
        chunk("5\r\n.\r\n"),         // mouse.wheelSpeed
        chunk("6\r\n.\r\n"),         // mouse.wheelDelay
        chunk("7\r\n.\r\n"),         // mouse.speedLimit
        chunk("0\r\n.\r\n"),         // wireless.battery.savingMode
        chunk("1\r\n.\r\n"),         // wireless.rf.power
        chunk("true\r\n.\r\n"),      // wireless.rf.channelHop
    ];
    let mut focus = session(steps);
    let settings = focus.settings_get().unwrap();

    // the failed optional field became None; everything else is populated
    assert_eq!(settings.led_brightness_underglow_wired, None);
    assert_eq!(settings.keymap_custom, vec![41, 30, 31]);
    assert_eq!(settings.keymap_default, vec![1, 2, 3]);
    assert_eq!(settings.keymap_only_custom, true);
    assert_eq!(settings.settings_default_layer, 0);
    assert_eq!(settings.superkeys_map, vec![41, 30]);
    assert_eq!(settings.superkeys_wait_for, 500);
    assert_eq!(settings.led_mode, LedMode::Static);
    assert_eq!(settings.led_brightness_keys_wired, 255);
    assert_eq!(settings.led_brightness_keys_wireless, Some(100));
    assert_eq!(settings.led_brightness_underglow_wireless, Some(90));
    assert_eq!(settings.led_fade, Some(0));
    assert_eq!(
        settings.led_theme,
        vec![RGB { r: 1, g: 2, b: 3 }, RGB { r: 4, g: 5, b: 6 }]
    );
    assert_eq!(settings.palette_rgb, Some(vec![RGB { r: 1, g: 2, b: 3 }]));
    assert_eq!(
        settings.palette_rgbw,
        Some(vec![RGBW { r: 1, g: 2, b: 3, w: 4 }])
    );
    assert_eq!(settings.color_map, vec![0, 1, 2]);
    assert_eq!(settings.led_idle_true_sleep, Some(false));
    assert_eq!(settings.led_idle_true_sleep_time, Some(60));
    assert_eq!(settings.led_idle_time_limit_wired, 600);
    assert_eq!(settings.led_idle_time_limit_wireless, Some(300));
    assert_eq!(settings.qukeys_hold_timeout, 250);
    assert_eq!(settings.qukeys_overlap_threshold, 80);
    assert_eq!(settings.macros_map, vec![0, 1]);
    assert_eq!(settings.mouse_speed, 1);
    assert_eq!(settings.mouse_delay, 2);
    assert_eq!(settings.mouse_acceleration_speed, 3);
    assert_eq!(settings.mouse_acceleration_delay, 4);
    assert_eq!(settings.mouse_wheel_speed, 5);
    assert_eq!(settings.mouse_wheel_delay, 6);
    assert_eq!(settings.mouse_speed_limit, 7);
    assert_eq!(settings.wireless_battery_saving_mode, Some(false));
    assert_eq!(settings.wireless_rf_power_level, Some(WirelessPowerMode::Medium));
    assert_eq!(settings.wireless_rf_channel_hop, Some(true));

    // a mandatory field's failure aborts the whole read
    let mut focus = session(vec![MockStep::Fail]);
    assert!(matches!(
        focus.settings_get(),
        Err(FocusError::SerialPortReadError(_))
    ));
}

#[test]
fn write_all_sends_mandatory_fields_and_present_optionals() {
    let settings = dygma_focus::Settings {
        keymap_custom: vec![41, 30],
        keymap_default: vec![1],
        keymap_only_custom: true,
        settings_default_layer: 0,
        superkeys_map: vec![9],
        superkeys_wait_for: 500,
        superkeys_timeout: 200,
        superkeys_repeat: 20,
        superkeys_hold_start: 200,
        superkeys_overlap: 20,
        led_mode: LedMode::Static,
        led_brightness_keys_wired: 255,
        led_brightness_underglow_wired: None,
        led_brightness_keys_wireless: None,
        led_brightness_underglow_wireless: None,
        led_fade: None,
        led_theme: vec![RGB { r: 1, g: 2, b: 3 }],
        palette_rgb: None,
        palette_rgbw: Some(vec![RGBW { r: 1, g: 2, b: 3, w: 4 }]),
        color_map: vec![0, 1],
        led_idle_true_sleep: None,
        led_idle_true_sleep_time: None,
        led_idle_time_limit_wired: 600,
        led_idle_time_limit_wireless: None,
        qukeys_hold_timeout: 250,
        qukeys_overlap_threshold: 80,
        macros_map: vec![0],
        mouse_speed: 1,
        mouse_delay: 2,
        mouse_acceleration_speed: 3,
        mouse_acceleration_delay: 4,
        mouse_wheel_speed: 5,
        mouse_wheel_delay: 6,
        mouse_speed_limit: 7,
        wireless_battery_saving_mode: None,
        wireless_rf_power_level: None,
        wireless_rf_channel_hop: None,
    };
    // one reply per command: the default-layer pre-read answers 0 (equal,
    // so no write follows); every other command gets a plain ack
    let mut steps = Vec::new();
    for i in 0..26 {
        if i == 3 {
            steps.push(chunk("0\r\n.\r\n"));
        } else {
            steps.push(chunk("\r\n.\r\n"));
        }
    }
    let mut focus = session(steps);
    focus.settings_set(&settings).unwrap();

    let writes = writes_of(&focus);
    assert_eq!(writes.len(), 26);
    assert_eq!(writes[0], "keymap.custom 41 30\n");
    assert_eq!(writes[1], "keymap.default 1\n");
    assert_eq!(writes[2], "keymap.onlyCustom 1\n");
    assert_eq!(writes[3], "settings.defaultLayer\n");
    assert_eq!(writes[4], "superkeys.map 9\n");
    assert_eq!(writes[10], "led.mode 0\n");
    assert_eq!(writes[11], "led.brightness 255\n");
    assert_eq!(writes[12], "led.theme 1 2 3\n");
    assert_eq!(writes[13], "palette 1 2 3 4\n");
    assert_eq!(writes[14], "colormap.map 0 1\n");
    assert_eq!(writes[15], "idleleds.time_limit 600\n");
    assert_eq!(writes[25], "mouse.speedLimit 7\n");
}

#[test]
fn opening_a_nonexistent_port_fails_cleanly() {
    let r = Focus::new_via_port("/dev/path-to-no-such-port");
    assert!(matches!(r, Err(FocusError::SerialPortOpenError(_))));
}

#[test]
fn whitespace_only_payload_trims_to_the_empty_acknowledgement() {
    let mut focus = session(vec![chunk("   \t \r\n.\r\n")]);
    let response = focus.read_string().unwrap();
    assert_eq!(response, "");
}
