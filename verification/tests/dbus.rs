//! What the device objects show.
use steambattery::clock::UnixTime;
use steambattery::dbus::{changed_props, device_path, device_props, last_updated_secs, Device};
use steambattery::interface::{ChargeState, PropertyValue};
use steambattery::protocol::BatteryStatus;
use steambattery::state::DeviceSnapshot;

fn snapshot(battery: Option<BatteryStatus>, last_updated: Option<UnixTime>) -> DeviceSnapshot {
    DeviceSnapshot {
        key: "k".to_string(),
        name: "dev".to_string(),
        connected: true,
        battery,
        last_updated,
    }
}

fn status() -> BatteryStatus {
    BatteryStatus {
        charge_state: ChargeState::Charging,
        level: 42,
        battery_voltage: 3800,
        system_voltage: 3780,
        input_voltage: 5100,
        current: 100,
        input_current: 450,
        temperature: 26424,
    }
}

fn at(secs: i64, nanos: u32) -> Option<UnixTime> {
    Some(UnixTime { secs, nanos })
}

/// The `.Device` interface as it is introspected on the bus.
const DEVICE_XML: &str = r#"<interface name="io.github.steambattery.Device">
  <property name="BatteryLevel" type="y" access="read"/>
  <property name="BatteryVoltage" type="q" access="read"/>
  <property name="ChargeState" type="y" access="read"/>
  <property name="Connected" type="b" access="read"/>
  <property name="Current" type="q" access="read"/>
  <property name="InputCurrent" type="q" access="read"/>
  <property name="InputVoltage" type="q" access="read"/>
  <property name="LastUpdated" type="t" access="read"/>
  <property name="Name" type="s" access="read"/>
  <property name="SystemVoltage" type="q" access="read"/>
  <property name="Temperature" type="q" access="read"/>
</interface>"#;

/// `device_props` must list exactly the properties of the interface: a missing
/// or misspelled entry silently stops that property's `PropertiesChanged`
/// emission.
#[test]
fn device_props_matches_interface() {
    let snap = snapshot(None, at(1_700_000_000, 5));
    let xml = DEVICE_XML;

    let props = device_props(&snap);
    assert_eq!(xml.matches("<property").count(), props.len());
    for (name, value) in props {
        assert!(
            xml.contains(&format!("name=\"{name}\"")),
            "device_props entry {name} is not a Device property"
        );
        let signature = match value {
            PropertyValue::Text(_) => "s",
            PropertyValue::Flag(_) => "b",
            PropertyValue::Byte(_) => "y",
            PropertyValue::Uint16(_) => "q",
            PropertyValue::Uint64(_) => "t",
        };
        assert!(xml.contains(&format!("name=\"{name}\" type=\"{signature}\"")));
    }
}

#[test]
fn properties_before_the_first_report() {
    let d = Device { snapshot: snapshot(None, None) };
    assert!(d.battery().is_none());
    assert_eq!(d.name(), "dev");
    assert!(d.connected());
    assert_eq!(d.charge_state(), 0);
    assert_eq!(d.battery_level(), 255);
    assert_eq!(d.battery_voltage(), 0);
    assert_eq!(d.system_voltage(), 0);
    assert_eq!(d.input_voltage(), 0);
    assert_eq!(d.current(), 0);
    assert_eq!(d.input_current(), 0);
    assert_eq!(d.temperature(), 0);
    assert_eq!(d.last_updated(), 0);
}

#[test]
fn properties_after_a_report() {
    let d = Device { snapshot: snapshot(Some(status()), at(77, 9)) };
    assert_eq!(d.battery(), Some(&status()));
    assert_eq!(d.charge_state(), 2);
    assert_eq!(d.battery_level(), 42);
    assert_eq!(d.battery_voltage(), 3800);
    assert_eq!(d.system_voltage(), 3780);
    assert_eq!(d.input_voltage(), 5100);
    assert_eq!(d.current(), 100);
    assert_eq!(d.input_current(), 450);
    assert_eq!(d.temperature(), 26424);
    assert_eq!(d.last_updated(), 77);
    let props = device_props(&d.snapshot);
    assert_eq!(props[0], ("Name", PropertyValue::Text("dev".to_string())));
    assert_eq!(props[3], ("BatteryLevel", PropertyValue::Byte(42)));
    assert_eq!(props[9], ("Temperature", PropertyValue::Uint16(26424)));
    assert_eq!(props[10], ("LastUpdated", PropertyValue::Uint64(77)));
}

#[test]
fn the_level_stays_a_percentage_once_there_is_a_report() {
    for (reported, shown) in [(0, 0), (99, 99), (100, 100), (101, 100), (200, 100), (255, 100)] {
        let mut b = status();
        b.level = reported;
        let d = Device { snapshot: snapshot(Some(b), at(77, 9)) };
        assert_eq!(d.battery_level(), shown);
        assert_eq!(
            device_props(&d.snapshot)[3],
            ("BatteryLevel", PropertyValue::Byte(shown))
        );
    }
}

#[test]
fn a_moment_before_the_epoch_reads_as_never() {
    assert_eq!(last_updated_secs(&snapshot(None, at(-1, 999_999_999))), 0);
    assert_eq!(last_updated_secs(&snapshot(None, at(0, 1))), 0);
    assert_eq!(last_updated_secs(&snapshot(None, at(5, 0))), 5);
}

#[test]
fn a_signal_carries_only_what_moved() {
    let old = snapshot(Some(status()), at(77, 0));
    let mut moved = status();
    moved.level = 41;
    moved.current = 120;
    let new = snapshot(Some(moved), at(80, 0));
    assert_eq!(
        changed_props(&old, &new),
        vec![
            ("BatteryLevel", PropertyValue::Byte(41)),
            ("Current", PropertyValue::Uint16(120)),
            ("LastUpdated", PropertyValue::Uint64(80)),
        ]
    );
    assert!(changed_props(&old, &old).is_empty());
    // A step of less than a second is not seen on the bus.
    assert!(changed_props(&old, &snapshot(Some(status()), at(77, 5))).is_empty());
}

#[test]
fn device_paths() {
    assert_eq!(device_path(0).as_str(), "/io/github/steambattery/dev0");
    assert_eq!(device_path(137).as_str(), "/io/github/steambattery/dev137");
    assert_eq!(
        device_path(usize::MAX).as_str(),
        format!("/io/github/steambattery/dev{}", usize::MAX)
    );
}
