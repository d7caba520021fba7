use capellix::atomic_changed::AtomicChanged;
use capellix::codec::SocketCommandCodec;
use capellix::error::Error;
use capellix::fan::Fan;
use capellix::hid::{
    build_report, check_response, firmware_gate, parse_firmware_version, parse_speeds,
    parse_temp, print_u16_windows, response_matches, validate_fan_speed, REPORT_LENGTH,
};
use capellix::hid_command::{
    get_firmware_info, set_controller_state, set_mode, set_mode_direct, write_direct, HARDWARE,
    SOFTWARE,
};
use capellix::hwmon::{classify_entry, HwmonEntry, HwmonFileKind, Pwm, Temp};
use capellix::orchestrator::{apply_fan_target, record_coolant_temp, speed_tick, temp_tick};
use capellix::pipe::Pipe;
use capellix::pwm::{AmdGpuPwmEnable, MsiPwmEnable, PwmMode};
use capellix::shared_state::SharedState;
use capellix::socket_command::{CommandEffect, SocketCommand};
use capellix::error::print_thread_result;

#[test]
fn shared_state_defaults() {
    let state = SharedState::default();
    assert_eq!(state.coolant_temp, 312);
    assert_eq!(state.pump_speed, 2268);
    assert_eq!(state.fan_targets, [50; 7]);
}

#[test]
fn get_coolant_temp_replies_with_stored_value() {
    // The framed read command arrives on the wire, decodes, and executes.
    let mut codec = SocketCommandCodec::default();
    let mut src = vec![b'C', b'P', b'L', b'X', 0];
    let command = codec.decode(&mut src).expect("one framed command");
    let mut state = SharedState::default();
    record_coolant_temp(&mut state, 312);
    let (reply, effect) = command.run(&state);
    assert_eq!(reply, vec![0x00, 0x38, 0x01]);
    assert!(matches!(effect, CommandEffect::Nothing));
}

#[test]
fn get_pump_speed_replies_with_stored_value() {
    let state = SharedState::default();
    let (reply, effect) = SocketCommand::GetPumpSpeed.run(&state);
    assert_eq!(reply, vec![0x01, 0xdc, 0x08]);
    assert!(matches!(effect, CommandEffect::Nothing));
}

#[test]
fn set_fan_target_clamps_before_forwarding_and_echoing() {
    let state = SharedState::default();
    let (reply, effect) = SocketCommand::SetFanTarget(Fan::Fan(0), 150).run(&state);
    assert_eq!(reply, vec![1]);
    match effect {
        CommandEffect::SendFanTarget(fan, speed) => {
            assert_eq!(fan, Fan::Fan(0));
            assert_eq!(speed, 100);
        }
        _ => panic!("wrong effect"),
    }
    let (_, effect) = SocketCommand::SetFanTarget(Fan::Pump, 70).run(&state);
    match effect {
        CommandEffect::SendFanTarget(_, speed) => assert_eq!(speed, 70),
        _ => panic!("wrong effect"),
    }
}

#[test]
fn set_colors_publishes_the_buffer() {
    let state = SharedState::default();
    let colors = vec![capellix::socket_command::Rgb { r: 1, g: 2, b: 3 }; 233];
    let (reply, effect) = SocketCommand::SetColors(colors.clone()).run(&state);
    assert_eq!(reply, vec![1]);
    match effect {
        CommandEffect::PublishColors(published) => assert_eq!(published, colors),
        _ => panic!("wrong effect"),
    }
}

#[test]
fn validate_fan_speed_clamps_at_100() {
    assert_eq!(validate_fan_speed(0), 0);
    assert_eq!(validate_fan_speed(100), 100);
    assert_eq!(validate_fan_speed(101), 100);
    assert_eq!(validate_fan_speed(65535), 100);
}

#[test]
fn firmware_gate_enforces_the_fieldwise_baseline() {
    // The known-good baseline passes.
    assert_eq!(firmware_gate(2, 10, 219, false), Ok(()));
    // Any lesser field rejects outright, even on a newer-looking version.
    assert_eq!(firmware_gate(1, 10, 219, false), Err(Error::FirmwareTooOld));
    assert_eq!(firmware_gate(2, 9, 219, false), Err(Error::FirmwareTooOld));
    assert_eq!(firmware_gate(3, 9, 255, false), Err(Error::FirmwareTooOld));
    // A greater field rejects without the override and passes with it.
    assert_eq!(firmware_gate(2, 10, 220, false), Err(Error::FirmwareUnrecognized));
    assert_eq!(firmware_gate(3, 10, 219, false), Err(Error::FirmwareUnrecognized));
    assert_eq!(firmware_gate(2, 10, 220, true), Ok(()));
    assert_eq!(firmware_gate(2, 11, 219, true), Ok(()));
}

#[test]
fn firmware_version_reads_fixed_offsets() {
    let mut buffer = vec![0u8; 97];
    buffer[3] = 2;
    buffer[4] = 10;
    buffer[5] = 220;
    assert_eq!(parse_firmware_version(&buffer), (2, 10, 220));
}

#[test]
fn temp_tick_stores_the_le_reading() {
    let mut buffer = vec![0u8; 97];
    buffer[7] = 0x38;
    buffer[8] = 0x01;
    let mut state = SharedState::default();
    let temp = temp_tick(&mut state, &buffer);
    assert_eq!(temp, 312);
    assert_eq!(state.coolant_temp, 312);
    assert_eq!(parse_temp(&buffer), 312);
}

#[test]
fn speed_tick_stores_pump_and_returns_all_seven() {
    let mut buffer = vec![0u8; 97];
    for i in 0..7u16 {
        let v = (1000 + i * 10).to_le_bytes();
        buffer[6 + 2 * i as usize] = v[0];
        buffer[7 + 2 * i as usize] = v[1];
    }
    let mut state = SharedState::default();
    let speeds = speed_tick(&mut state, &buffer);
    assert_eq!(speeds, [1000, 1010, 1020, 1030, 1040, 1050, 1060]);
    assert_eq!(state.pump_speed, 1000);
    assert_eq!(parse_speeds(&buffer), speeds);
}

#[test]
fn fan_target_change_reissues_all_seven_targets() {
    let mut state = SharedState::default();
    let targets = apply_fan_target(&mut state, Fan::Fan(1), 80).expect("changed");
    assert_eq!(targets, [50, 50, 80, 50, 50, 50, 50]);
    assert_eq!(state.fan_targets[2], 80);
    // An unchanged target issues nothing.
    assert!(apply_fan_target(&mut state, Fan::Fan(1), 80).is_none());
}

#[test]
fn report_layout_is_zero_filled_with_header() {
    let report = build_report(&[0x02, 0x13]);
    assert_eq!(report.len(), 1 + REPORT_LENGTH);
    assert_eq!(report[0], 0);
    assert_eq!(report[1], 0x08);
    assert_eq!(report[2], 0x02);
    assert_eq!(report[3], 0x13);
    assert!(report[4..].iter().all(|b| *b == 0));
}

#[test]
fn response_echo_check() {
    let mut response = vec![0u8; 97];
    response[1] = 0x02;
    assert!(response_matches(&response, &[0x02, 0x13]));
    assert_eq!(check_response(&response, &[0x02, 0x13]), Ok(()));
    assert!(!response_matches(&response, &[0x05, 0x01]));
    assert_eq!(check_response(&response, &[0x05, 0x01]), Err(Error::ResponseMismatch));
}

#[test]
fn hid_command_bytes() {
    assert_eq!(get_firmware_info(), vec![0x02, 0x13]);
    assert_eq!(set_controller_state(SOFTWARE), [0x01, 0x03, 0x00, 0x02]);
    assert_eq!(set_controller_state(HARDWARE), [0x01, 0x03, 0x00, 0x01]);
    assert_eq!(set_mode(&[0xaa, 0xbb]), vec![0x0d, 0x00, 0xaa, 0xbb]);
    assert_eq!(set_mode_direct(&[0xaa]), vec![0x0d, 0x01, 0xaa]);
    assert_eq!(capellix::hid_command::write(&[0x01]), vec![0x06, 0x00, 0x01]);
    assert_eq!(write_direct(&[0x01]), vec![0x06, 0x01, 0x01]);
}

#[test]
fn u16_windows_read_both_byte_orders() {
    let windows = print_u16_windows(&[0x01, 0x02, 0x03], 10);
    assert_eq!(windows, vec![(0x0201, 0x0102), (0x0302, 0x0203)]);
    let windows = print_u16_windows(&[0x01, 0x02, 0x03], 1);
    assert_eq!(windows, vec![(0x0201, 0x0102)]);
    assert!(print_u16_windows(&[0x01], 5).is_empty());
}

#[test]
fn changed_cell_runs_consumer_once_per_change() {
    let mut cell = AtomicChanged::new(5u16);
    assert_eq!(cell.if_changed(|v| *v + 1), Some(6));
    assert_eq!(cell.if_changed(|v| *v + 1), None);
    cell.change(|v| *v > 100);
    assert_eq!(cell.if_changed(|v| *v), None);
    cell.change(|v| *v < 100);
    assert_eq!(cell.if_changed(|v| *v), Some(5));
    let out = cell.change_mut(|v| (*v + 10, *v));
    assert_eq!(out, 5);
    assert_eq!(cell.if_changed(|v| *v), Some(15));
}

#[test]
fn pipe_hands_the_value_through() {
    let doubled = 21u32.pipe(|v| v * 2);
    assert_eq!(doubled, 42);
}

#[test]
fn print_thread_result_passes_through() {
    assert_eq!(print_thread_result::<u8>(Ok(3)), Ok(3));
    assert_eq!(
        print_thread_result::<u8>(Err(Error::ResponseMismatch)),
        Err(Error::ResponseMismatch)
    );
}

#[test]
fn pwm_enable_conversions_roundtrip_and_reject() {
    for v in 0u8..=2 {
        assert_eq!(AmdGpuPwmEnable::from_u8(v).unwrap().to_u8(), v);
    }
    assert_eq!(AmdGpuPwmEnable::from_u8(3), Err(Error::InvalidAmdGpuPwmEnable));
    for v in 0u8..=5 {
        assert_eq!(MsiPwmEnable::from_u8(v).unwrap().to_u8(), v);
    }
    assert_eq!(MsiPwmEnable::from_u8(6), Err(Error::InvalidMsiPwmEnable));
    for v in 0u8..=1 {
        assert_eq!(PwmMode::from_u8(v).unwrap().to_u8(), v);
    }
    assert_eq!(PwmMode::from_u8(2), Err(Error::InvalidPwmMode));
}

#[test]
fn hwmon_entries_classify_by_name() {
    assert_eq!(classify_entry("name"), HwmonFileKind::ChipName);
    assert_eq!(classify_entry("pwm1"), HwmonFileKind::PwmChannel(1));
    assert_eq!(classify_entry("fan2_input"), HwmonFileKind::FanInput(2));
    assert_eq!(classify_entry("temp3_input"), HwmonFileKind::TempInput(3));
    assert_eq!(classify_entry("pwm1_enable"), HwmonFileKind::Other);
    assert_eq!(classify_entry("fanX_input"), HwmonFileKind::Other);
    assert_eq!(classify_entry("temp_input"), HwmonFileKind::Other);
    assert_eq!(classify_entry("device"), HwmonFileKind::Other);
    assert_eq!(classify_entry(""), HwmonFileKind::Other);
}

#[test]
fn hwmon_suffix_appends_attribute() {
    let pwm = Pwm(String::from("/sys/class/hwmon/hwmon3/pwm1"));
    assert_eq!(pwm.suffix("_enable"), "/sys/class/hwmon/hwmon3/pwm1_enable");
    let temp = Temp(String::from("/sys/class/hwmon/hwmon3/temp2"));
    assert_eq!(temp.suffix("_label"), "/sys/class/hwmon/hwmon3/temp2_label");
}

#[test]
fn hwmon_entry_emptiness() {
    let entry = HwmonEntry {
        name: String::from("amdgpu"),
        fans: vec![],
        pwms: vec![],
        temps: vec![],
    };
    assert!(entry.is_empty());
    let entry = HwmonEntry {
        name: String::from("amdgpu"),
        fans: vec![(1, capellix::hwmon::Fan(String::from("fan1")))],
        pwms: vec![],
        temps: vec![],
    };
    assert!(!entry.is_empty());
}

#[test]
fn error_descriptions_are_stable() {
    assert_eq!(Error::InvalidFan.describe(), "Invalid Fan");
    assert_eq!(Error::TrailingBytes.describe(), "bytes remaining on stream");
    assert_eq!(
        Error::FirmwareTooOld.describe(),
        "Firmware versions prior to 2.10.219 are not supported."
    );
}
