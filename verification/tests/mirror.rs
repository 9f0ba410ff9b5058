//! The objects on the bus as a mirror of the registry.
use steambattery::clock::UnixTime;
use steambattery::interface::PropertyValue;
use steambattery::mirror::{Change, Mirror};
use steambattery::state::DeviceSnapshot;

fn snap(key: &str, connected: bool) -> DeviceSnapshot {
    DeviceSnapshot {
        key: key.to_string(),
        name: format!("dev {key}"),
        connected,
        battery: None,
        last_updated: None,
    }
}

fn add(index: usize, key: &str) -> Change {
    Change::Add { index, snapshot: snap(key, false) }
}

#[test]
fn devices_get_objects() {
    let mut m = Mirror::new();
    assert_eq!(
        m.sync(&vec![snap("a", false), snap("b", false)]),
        vec![add(0, "a"), add(1, "b"), Change::List(vec![0, 1])]
    );
    assert!(m.sync(&vec![snap("a", false), snap("b", false)]).is_empty());
    assert!(Mirror::new().sync(&Vec::new()).is_empty());
}

#[test]
fn a_change_is_signalled_on_the_same_object() {
    let mut m = Mirror::new();
    m.sync(&vec![snap("a", false), snap("b", false)]);
    assert_eq!(
        m.sync(&vec![snap("a", false), snap("b", true)]),
        vec![Change::Update {
            index: 1,
            snapshot: snap("b", true),
            changed: vec![("Connected", PropertyValue::Flag(true))],
        }]
    );
    // An update that no property shows is taken over without a signal.
    let mut later = snap("a", false);
    later.last_updated = Some(UnixTime { secs: 0, nanos: 1 });
    assert_eq!(
        m.sync(&vec![later.clone(), snap("b", true)]),
        vec![Change::Update { index: 0, snapshot: later, changed: vec![] }]
    );
}

#[test]
fn removals_come_first_and_paths_are_never_reused() {
    let mut m = Mirror::new();
    m.sync(&vec![snap("a", false), snap("c", false)]);
    assert_eq!(
        m.sync(&vec![snap("b", false), snap("c", false)]),
        vec![
            Change::Remove(0),
            add(2, "b"),
            Change::List(vec![1, 2]),
        ]
    );
    // The list is in the order of the numbers, whatever the order of the keys.
    assert_eq!(
        m.sync(&vec![snap("a", false), snap("b", false), snap("c", false)]),
        vec![add(3, "a"), Change::List(vec![1, 2, 3])]
    );
    assert_eq!(
        m.sync(&Vec::new()),
        vec![
            Change::Remove(3),
            Change::Remove(2),
            Change::Remove(1),
            Change::List(vec![]),
        ]
    );
    assert_eq!(
        m.sync(&vec![snap("a", false)]),
        vec![add(4, "a"), Change::List(vec![4])]
    );
}
