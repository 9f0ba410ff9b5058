//! What the applet shows.
use steambattery::applet::{ago_label, DetailValue, DeviceInfo};
use steambattery::clock::UnixTime;
use steambattery::dbus::device_props;
use steambattery::interface::{ChargeState, PropertyValue};
use steambattery::key_map::KeyMap;
use steambattery::protocol::BatteryStatus;
use steambattery::state::DeviceSnapshot;
use steambattery::window::{
    badge_size, on_bus_event, BusEvent, BusStep, Effect, Message, PopupContent, Window,
};

fn info(connected: bool, level: u8, charge_state: u8) -> DeviceInfo {
    DeviceInfo {
        name: "dev".to_string(),
        connected,
        charging: false,
        charge_state,
        level,
        battery_voltage: 3812,
        system_voltage: 3790,
        input_voltage: 0,
        current: 142,
        input_current: 7,
        temperature: 26424,
        last_updated: 1000,
    }
}

fn window(devices: Vec<DeviceInfo>) -> Window {
    let mut w = Window::new();
    assert_eq!(w.update(Message::State(Some(devices)), 0), Effect::Nothing);
    w
}

fn text(t: &str) -> DetailValue {
    DetailValue::Text(t.to_string())
}

#[test]
fn labels() {
    assert_eq!(info(true, 255, 2).charge_state_label(), "No data");
    for (code, label) in [
        (0, "Unknown"),
        (1, "Discharging"),
        (2, "Charging"),
        (3, "Charger validating"),
        (4, "Fully charged"),
        (5, "Unknown"),
    ] {
        let d = info(true, 50, code);
        assert_eq!(d.charge_state_label(), label);
        assert_eq!(d.charge_state_label(), ChargeState::from(code).label());
        assert_eq!(d.charging(), code == 2 || code == 3);
    }
    assert!(!info(true, 255, 0).has_battery_data());
    assert!(info(true, 0, 0).has_battery_data());
    assert_eq!(info(true, 100, 1).level_label(), "100%");
    assert_eq!(info(true, 7, 1).level_label(), "7%");
    assert_eq!(info(true, 255, 1).level_label(), "--");
}

#[test]
fn statuses() {
    assert_eq!(info(true, 50, 1).status(), "Discharging");
    assert_eq!(info(true, 255, 0).status(), "No data");
    assert_eq!(info(false, 50, 4).status(), "Fully charged (asleep, last known)");
    assert_eq!(info(false, 255, 0).status(), "Asleep or disconnected");
}

#[test]
fn ages() {
    for (secs, label) in [
        (0, "0 s ago"),
        (59, "59 s ago"),
        (60, "1 min ago"),
        (3599, "59 min ago"),
        (3600, "1 h ago"),
        (90_000, "25 h ago"),
    ] {
        assert_eq!(ago_label(secs), label);
    }
}

#[test]
fn details() {
    assert_eq!(
        info(true, 50, 1).details(1090),
        vec![
            ("Battery voltage", DetailValue::Volts(3812)),
            ("System voltage", DetailValue::Volts(3790)),
            ("Current", text("142 mA")),
            ("Temperature", DetailValue::Celsius(26424)),
            ("Updated", text("1 min ago")),
        ]
    );
    let mut plugged = info(true, 50, 2);
    plugged.input_voltage = 5100;
    plugged.last_updated = 0;
    assert_eq!(
        plugged.details(1090),
        vec![
            ("Battery voltage", DetailValue::Volts(3812)),
            ("System voltage", DetailValue::Volts(3790)),
            ("Input voltage", DetailValue::Volts(5100)),
            ("Input current", text("7 mA")),
            ("Current", text("142 mA")),
            ("Temperature", DetailValue::Celsius(26424)),
        ]
    );
    assert!(info(true, 255, 0).details(1090).is_empty());
    // A clock that was set back makes nothing older than now.
    assert_eq!(
        info(true, 50, 1).details(10)[4],
        ("Updated", text("0 s ago"))
    );
}

#[test]
fn the_applet_reads_what_the_daemon_serves() {
    let snap = DeviceSnapshot {
        key: "k".to_string(),
        name: "Steam Controller (USB)".to_string(),
        connected: true,
        battery: Some(BatteryStatus {
            charge_state: ChargeState::SrcValidate,
            level: 42,
            battery_voltage: 1,
            system_voltage: 2,
            input_voltage: 3,
            current: 4,
            input_current: 5,
            temperature: 6,
        }),
        last_updated: Some(UnixTime { secs: 77, nanos: 3 }),
    };
    let mut props = KeyMap::new();
    for (name, value) in device_props(&snap) {
        props.insert(name.to_string(), value);
    }
    let d = DeviceInfo::from_properties(&props);
    assert_eq!(
        d,
        DeviceInfo {
            name: "Steam Controller (USB)".to_string(),
            connected: true,
            charging: true,
            charge_state: 3,
            level: 42,
            battery_voltage: 1,
            system_voltage: 2,
            input_voltage: 3,
            current: 4,
            input_current: 5,
            temperature: 6,
            last_updated: 77,
        }
    );
    assert!(d.charging());
}

#[test]
fn charge_states_2_and_3_mean_charging() {
    for (code, charging) in [(0, false), (1, false), (2, true), (3, true), (4, false), (9, false)] {
        let mut props = KeyMap::new();
        props.insert("ChargeState".to_string(), PropertyValue::Byte(code));
        let d = DeviceInfo::from_properties(&props);
        assert_eq!(d.charging, charging, "{code}");
        assert_eq!(d.charging(), charging, "{code}");
    }
}

#[test]
fn what_is_missing_or_mistyped_counts_as_nothing() {
    let empty = DeviceInfo::from_properties(&KeyMap::new());
    assert_eq!(empty.name, "");
    assert!(!empty.connected && !empty.charging);
    assert_eq!(empty.level, 255);
    assert_eq!(empty.charge_state, 0);
    let mut props = KeyMap::new();
    props.insert("Current".to_string(), PropertyValue::Byte(9));
    props.insert("BatteryLevel".to_string(), PropertyValue::Uint16(9));
    props.insert("Charging".to_string(), PropertyValue::Flag(true));
    props.insert("Name".to_string(), PropertyValue::Flag(true));
    props.insert("LastUpdated".to_string(), PropertyValue::Uint64(9));
    let d = DeviceInfo::from_properties(&props);
    assert_eq!((d.current, d.level, d.charging, d.last_updated), (0, 255, true, 9));
    assert_eq!(d.name, "");
}

#[test]
fn the_panel_prefers_a_connected_device() {
    assert_eq!(Window::new().primary(), None);
    let w = window(vec![
        info(true, 255, 0),
        info(false, 30, 1),
        info(true, 60, 1),
        info(true, 70, 1),
    ]);
    assert_eq!(w.primary().unwrap().level, 60);
    let w = window(vec![info(true, 255, 0), info(false, 30, 1), info(false, 40, 1)]);
    assert_eq!(w.primary().unwrap().level, 30);
    assert_eq!(window(vec![info(true, 255, 0)]).primary(), None);
}

#[test]
fn icons() {
    assert_eq!(Window::new().battery_icon(), "battery-missing-symbolic");
    for (level, code, icon) in [
        (0, 1, "battery-level-0-symbolic"),
        (4, 1, "battery-level-0-symbolic"),
        (5, 1, "battery-level-10-symbolic"),
        (87, 1, "battery-level-90-symbolic"),
        (94, 2, "battery-level-90-charging-symbolic"),
        (95, 2, "battery-level-100-charged-symbolic"),
        (100, 4, "battery-level-100-charged-symbolic"),
        (100, 1, "battery-level-100-symbolic"),
        (50, 4, "battery-level-50-charging-symbolic"),
        (50, 3, "battery-level-50-charging-symbolic"),
        (200, 1, "battery-level-100-symbolic"),
    ] {
        assert_eq!(window(vec![info(true, level, code)]).battery_icon(), icon);
    }
}

#[test]
fn badges() {
    assert_eq!(badge_size(0), 8);
    assert_eq!(badge_size(16), 8);
    assert_eq!(badge_size(17), 9);
    assert_eq!(badge_size(100), 56);
    assert_eq!(badge_size(1170), 655);
    assert_eq!(badge_size(1171), 655);
    assert_eq!(badge_size(u16::MAX), 655);
}

#[test]
fn the_popup_is_toggled_and_closed() {
    let mut w = Window::new();
    assert!(!w.ticks());
    assert_eq!(w.update(Message::TogglePopup, 5), Effect::OpenPopup(5));
    assert!(w.ticks());
    assert_eq!(w.update(Message::CloseRequested(4), 6), Effect::Nothing);
    assert!(w.ticks());
    assert_eq!(w.update(Message::Tick, 6), Effect::Nothing);
    assert_eq!(w.update(Message::TogglePopup, 6), Effect::DestroyPopup(5));
    assert!(!w.ticks());
    w.update(Message::TogglePopup, 7);
    w.update(Message::CloseRequested(7), 8);
    assert!(!w.ticks());
}

#[test]
fn the_popup_leaves_out_slots_that_were_never_used() {
    assert_eq!(Window::new().popup_content(), PopupContent::NotRunning);
    assert_eq!(
        Window::new().popup_content().message(),
        Some("steambatteryd is not running")
    );
    let w = window(vec![info(false, 255, 0)]);
    assert_eq!(w.popup_content(), PopupContent::NoController);
    assert_eq!(w.popup_content().message(), Some("No Steam Controller detected"));
    let w = window(vec![info(true, 255, 0), info(false, 255, 0), info(false, 9, 1)]);
    let content = w.popup_content();
    assert_eq!(content.message(), None);
    assert_eq!(
        content,
        PopupContent::Devices(vec![info(true, 255, 0), info(false, 9, 1)])
    );
    let mut w = w;
    w.update(Message::State(None), 0);
    assert_eq!(w.popup_content(), PopupContent::NotRunning);
}

#[test]
fn events_on_the_bus() {
    assert_eq!(on_bus_event(BusEvent::SignalsEnded), BusStep::Reconnect);
    assert_eq!(
        on_bus_event(BusEvent::PropertiesChanged),
        BusStep::DebounceThenFetch
    );
    assert_eq!(on_bus_event(BusEvent::OwnerChanged), BusStep::Fetch);
    assert_eq!(on_bus_event(BusEvent::Timeout), BusStep::Fetch);
}
