//! Which hidraw nodes are controllers.
use steambattery::discovery::{
    classify, interpret, scan, Event, HidParent, HidrawNode, UdevDevice, Uevent,
};

fn some(text: &str) -> Option<String> {
    Some(text.to_string())
}

fn device(id: &str) -> UdevDevice {
    UdevDevice {
        devnode: some("/dev/hidraw3"),
        hid: Some(HidParent {
            id: some(id),
            uniq: None,
            syspath: "/sys/hid/0003:28DE:1302.0007".to_string(),
        }),
        interface_number: None,
        usb_syspath: some("/sys/usb1/1-2"),
    }
}

fn puck(interface: &str) -> UdevDevice {
    let mut d = device("0003:000028DE:00001304");
    d.interface_number = some(interface);
    d
}

fn node(key: &str, name: &str) -> Option<HidrawNode> {
    Some(HidrawNode {
        devnode: "/dev/hidraw3".to_string(),
        key: key.to_string(),
        name: name.to_string(),
    })
}

#[test]
fn a_wired_controller_is_known_by_its_usb_device() {
    let d = device("0003:000028DE:00001302");
    assert_eq!(classify(&d), node("/sys/usb1/1-2", "Steam Controller (USB)"));
    let mut bare = device("0003:000028DE:00001302");
    bare.usb_syspath = None;
    assert_eq!(classify(&bare), None);
}

#[test]
fn a_puck_has_four_slots() {
    for (interface, slot) in [("02", 0), ("03", 1), ("4", 2), ("05", 3)] {
        assert_eq!(
            classify(&puck(interface)),
            node(
                &format!("/sys/usb1/1-2/slot{slot}"),
                &format!("Steam Controller (puck slot {slot})"),
            )
        );
    }
    for other in ["00", "01", "06", "0a", "", "300"] {
        assert_eq!(classify(&puck(other)), None, "{other}");
    }
    let mut nameless = puck("02");
    nameless.interface_number = None;
    assert_eq!(classify(&nameless), None);
    let mut bare = puck("02");
    bare.usb_syspath = None;
    assert_eq!(classify(&bare), None);
}

#[test]
fn slots_of_different_pucks_have_different_keys() {
    let mut other = puck("02");
    other.usb_syspath = some("/sys/usb1/1-3");
    let key = |d: &UdevDevice| classify(d).unwrap().key;
    assert_ne!(key(&puck("02")), key(&other));
    assert_ne!(key(&puck("02")), key(&puck("03")));
    assert_eq!(key(&puck("02")), key(&puck("2")));
}

#[test]
fn a_bluetooth_controller_is_known_by_its_address() {
    let mut d = device("0005:000028DE:00001303");
    d.usb_syspath = None;
    d.hid.as_mut().unwrap().uniq = some("aa:bb:cc");
    assert_eq!(
        classify(&d),
        node("ble/aa:bb:cc", "Steam Controller (Bluetooth)")
    );
    for missing in [None, some("")] {
        d.hid.as_mut().unwrap().uniq = missing;
        assert_eq!(
            classify(&d),
            node(
                "/sys/hid/0003:28DE:1302.0007",
                "Steam Controller (Bluetooth)"
            )
        );
    }
}

#[test]
fn other_devices_are_ignored() {
    for id in [
        "0003:0000046D:00001302",
        "0003:000028DE:00001102",
        "0003:28DE",
        "28DE",
        "0003:28DE:1302:1",
        "0003:xyz:1302",
        "0003:28DE:",
        "",
    ] {
        assert_eq!(classify(&device(id)), None, "{id}");
    }
    let mut d = device("0003:28de:1302");
    assert!(classify(&d).is_some());
    d.devnode = None;
    assert_eq!(classify(&d), None);
    d = device("0003:28de:1302");
    d.hid.as_mut().unwrap().id = None;
    assert_eq!(classify(&d), None);
    d.hid = None;
    assert_eq!(classify(&d), None);
}

#[test]
fn a_scan_keeps_the_controllers_in_their_order() {
    let devices = vec![
        puck("05"),
        device("0003:0000046D:0000C52B"),
        device("0003:28de:1302"),
        puck("06"),
        puck("02"),
    ];
    let keys: Vec<String> = scan(&devices).into_iter().map(|n| n.key).collect();
    assert_eq!(
        keys,
        vec!["/sys/usb1/1-2/slot3", "/sys/usb1/1-2", "/sys/usb1/1-2/slot0"]
    );
    assert!(scan(&Vec::new()).is_empty());
}

#[test]
fn events_come_of_controllers_and_of_removals() {
    let d = device("0003:28de:1302");
    let added = Some(Event::Added(classify(&d).unwrap()));
    assert_eq!(interpret(Uevent::Add, &d), added);
    assert_eq!(interpret(Uevent::Change, &d), added);
    assert_eq!(interpret(Uevent::Other, &d), None);
    assert_eq!(
        interpret(Uevent::Remove, &d),
        Some(Event::Removed("/dev/hidraw3".to_string()))
    );
    // A device that is gone tells no more than its node.
    let gone = UdevDevice {
        devnode: some("/dev/hidraw9"),
        hid: None,
        interface_number: None,
        usb_syspath: None,
    };
    assert_eq!(interpret(Uevent::Add, &gone), None);
    assert_eq!(
        interpret(Uevent::Remove, &gone),
        Some(Event::Removed("/dev/hidraw9".to_string()))
    );
    let nameless = UdevDevice { devnode: None, ..gone };
    assert_eq!(interpret(Uevent::Remove, &nameless), None);
}
