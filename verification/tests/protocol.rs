//! The reports that a controller sends.
use steambattery::interface::ChargeState;
use steambattery::protocol::{classify, parse_battery_report, u16_le, Report};

fn sample_battery_report() -> [u8; 15] {
    let mut r = [0u8; 15];
    r[0] = 0x43;
    r[1] = 1; // discharging
    r[2] = 87; // level
    r[3..5].copy_from_slice(&3812u16.to_le_bytes()); // battery mV
    r[5..7].copy_from_slice(&3790u16.to_le_bytes()); // system mV
    r[7..9].copy_from_slice(&0u16.to_le_bytes()); // input mV (unplugged)
    r[9..11].copy_from_slice(&142u16.to_le_bytes()); // current
    r[11..13].copy_from_slice(&0u16.to_le_bytes()); // input current
    r[13..15].copy_from_slice(&2950u16.to_le_bytes()); // temperature
    r
}

#[test]
fn parses_battery_report() {
    let b = parse_battery_report(&sample_battery_report()).unwrap();
    assert_eq!(b.charge_state, ChargeState::Discharging);
    assert_eq!(b.level, 87);
    assert_eq!(b.battery_voltage, 3812);
    assert_eq!(b.system_voltage, 3790);
    assert_eq!(b.input_voltage, 0);
    assert_eq!(b.current, 142);
    assert_eq!(b.input_current, 0);
    assert_eq!(b.temperature, 2950);
}

#[test]
fn rejects_wrong_id_and_short_reports() {
    let mut r = sample_battery_report();
    r[0] = 0x42;
    assert_eq!(parse_battery_report(&r), None);
    assert_eq!(parse_battery_report(&r[..14]), None);
    assert_eq!(parse_battery_report(&[]), None);
}

#[test]
fn classifies_reports() {
    assert!(matches!(
        classify(&sample_battery_report()),
        Some(Report::Battery(_))
    ));
    assert_eq!(classify(&[0x42; 54]), Some(Report::Liveness));
    assert_eq!(classify(&[0x45; 46]), Some(Report::Liveness));
    assert_eq!(classify(&[0x7b; 13]), Some(Report::Other(0x7b)));
    assert_eq!(classify(&[]), None);
}

#[test]
fn a_battery_report_cut_short_means_nothing() {
    assert_eq!(classify(&sample_battery_report()[..14]), None);
    assert_eq!(parse_battery_report(&sample_battery_report()[..14]), None);
}

#[test]
fn a_longer_buffer_holds_the_same_report() {
    let mut long = sample_battery_report().to_vec();
    long.extend_from_slice(&[0xff; 49]);
    assert_eq!(
        parse_battery_report(&long),
        parse_battery_report(&sample_battery_report())
    );
}

#[test]
fn numbers_are_little_endian() {
    assert_eq!(u16_le(&[0x34, 0x12], 0), 0x1234);
    assert_eq!(u16_le(&[0, 0xff, 0xff], 1), 0xffff);
}

#[test]
fn a_status_is_read_back_from_its_bytes() {
    let mut r = sample_battery_report();
    r[1] = 3;
    r[3..5].copy_from_slice(&65535u16.to_le_bytes());
    r[13..15].copy_from_slice(&26424u16.to_le_bytes());
    let b = parse_battery_report(&r).unwrap();
    let mut again = vec![0x43, b.charge_state.as_u8(), b.level];
    again.extend_from_slice(&b.battery_voltage.to_le_bytes());
    again.extend_from_slice(&b.system_voltage.to_le_bytes());
    again.extend_from_slice(&b.input_voltage.to_le_bytes());
    again.extend_from_slice(&b.current.to_le_bytes());
    again.extend_from_slice(&b.input_current.to_le_bytes());
    again.extend_from_slice(&b.temperature.to_le_bytes());
    assert_eq!(again, r.to_vec());
}
