//! Charge states and their codes.
use steambattery::interface::{ChargeState, PropertyValue, BUS_NAME, LEVEL_UNKNOWN, ROOT_PATH};

#[test]
fn charge_state_roundtrip() {
    for v in 0..=5u8 {
        assert_eq!(ChargeState::from(v).as_u8(), v);
    }
    assert_eq!(ChargeState::from(4), ChargeState::ChargingDone);
    assert_eq!(ChargeState::from(9), ChargeState::Unknown(9));
    assert!(ChargeState::Charging.is_charging());
    assert!(ChargeState::SrcValidate.is_charging());
    assert!(!ChargeState::Discharging.is_charging());
    assert_eq!(ChargeState::ChargingDone.label(), "Fully charged");
    assert_eq!(ChargeState::Unknown(9).label(), "Unknown");
}

#[test]
fn every_code_survives_the_round_trip() {
    for v in 0..=255u8 {
        let state = ChargeState::from(v);
        assert_eq!(state.as_u8(), v);
        assert_eq!(state.is_charging(), v == 2 || v == 3);
        assert_eq!(ChargeState::from(state.as_u8()), state);
    }
}

#[test]
fn every_state_has_its_label() {
    assert_eq!(ChargeState::Reset.label(), "Unknown");
    assert_eq!(ChargeState::Discharging.label(), "Discharging");
    assert_eq!(ChargeState::Charging.label(), "Charging");
    assert_eq!(ChargeState::SrcValidate.label(), "Charger validating");
}

#[test]
fn names_on_the_bus() {
    assert_eq!(BUS_NAME, "io.github.steambattery");
    assert_eq!(ROOT_PATH, "/io/github/steambattery");
    assert_eq!(LEVEL_UNKNOWN, 255);
}

#[test]
fn property_values_compare_by_type_and_value() {
    let text = PropertyValue::Text("a".to_string());
    assert!(text.same_as(&PropertyValue::Text("a".to_string())));
    assert!(!text.same_as(&PropertyValue::Text("b".to_string())));
    assert!(!PropertyValue::Byte(1).same_as(&PropertyValue::Uint16(1)));
    assert!(!PropertyValue::Uint64(1).same_as(&PropertyValue::Uint16(1)));
    assert!(PropertyValue::Flag(true).same_as(&PropertyValue::Flag(true)));
    assert!(!PropertyValue::Flag(true).same_as(&PropertyValue::Flag(false)));
}
