//! The registry.
use steambattery::clock::{UnixTime, SECOND};
use steambattery::interface::ChargeState;
use steambattery::protocol::BatteryStatus;
use steambattery::state::{
    significant, Registry, DEADBAND_MA, DEADBAND_MC, DEADBAND_MV, RESUME_GRACE, STALE_AFTER,
};

/// A moment at which most tests take place.
const NOW: i64 = 1000 * SECOND;

fn wall(secs: i64) -> UnixTime {
    UnixTime { secs, nanos: 0 }
}

fn battery(level: u8) -> BatteryStatus {
    BatteryStatus {
        charge_state: ChargeState::Discharging,
        level,
        battery_voltage: 3800,
        system_voltage: 3780,
        input_voltage: 0,
        current: 100,
        input_current: 0,
        temperature: 2900,
    }
}

#[test]
fn acquire_release_lifecycle() {
    let mut r = Registry::new();
    let rx = r.subscribe();
    r.acquire("k", "dev");
    r.acquire("k", "dev");
    assert_eq!(rx.borrow().len(), 1);
    r.release("k");
    assert_eq!(rx.borrow().len(), 1);
    r.release("k");
    assert_eq!(rx.borrow().len(), 0);
}

#[test]
fn battery_update_marks_connected_and_survives_sweep_retention() {
    let mut r = Registry::new();
    let rx = r.subscribe();
    r.acquire("k", "dev");
    r.update_battery("k", battery(80), NOW, wall(5));
    {
        let snap = rx.borrow();
        assert!(snap[0].connected);
        assert_eq!(snap[0].battery.unwrap().level, 80);
    }
    // Sweep with fresh traffic: stays connected.
    r.sweep(NOW, wall(5));
    assert!(rx.borrow()[0].connected);
}

#[test]
fn sweep_disconnects_never_seen_entries() {
    let mut r = Registry::new();
    let rx = r.subscribe();
    r.acquire("k", "dev");
    r.mark_traffic("k", NOW);
    assert!(rx.borrow()[0].connected);
    // Fake staleness by clearing last_seen.
    r.inner.get_mut("k").unwrap().last_seen = None;
    r.sweep(NOW, wall(5));
    let snap = rx.borrow();
    assert!(!snap[0].connected);
}

/// Sub-deadband jitter must not publish; liveness still refreshes.
#[test]
fn deadband_suppresses_jitter() {
    let mut r = Registry::new();
    let mut rx = r.subscribe();
    r.acquire("k", "dev");
    r.update_battery("k", battery(80), NOW, wall(5));
    rx.borrow_and_update();

    let mut jitter = battery(80);
    jitter.battery_voltage += DEADBAND_MV - 1;
    jitter.current -= DEADBAND_MA - 1;
    jitter.temperature += DEADBAND_MC - 1;
    r.update_battery("k", jitter, NOW + 1, wall(6));
    assert!(!rx.has_changed().unwrap());
    // Published snapshot still carries the original values.
    assert_eq!(rx.borrow()[0].battery.unwrap().battery_voltage, 3800);
    // ...but the report refreshed liveness.
    assert!(r.inner.get("k").unwrap().last_seen.is_some());
    assert_eq!(r.inner.get("k").unwrap().last_seen, Some(NOW + 1));
}

/// The deadband anchor is the last *published* value, so sub-threshold
/// drift accumulates until it crosses the band, then re-anchors.
#[test]
fn deadband_reanchors_on_publish() {
    let mut r = Registry::new();
    let mut rx = r.subscribe();
    r.acquire("k", "dev");
    r.update_battery("k", battery(80), NOW, wall(5));
    rx.borrow_and_update();

    let step = |mv: u16| {
        let mut b = battery(80);
        b.battery_voltage = mv;
        b
    };
    r.update_battery("k", step(3800 + 8), NOW, wall(6));
    assert!(!rx.has_changed().unwrap());
    // +16 from the 3800 anchor: crosses the band even though each step
    // was only 8 mV.
    r.update_battery("k", step(3800 + 16), NOW, wall(7));
    assert!(rx.has_changed().unwrap());
    assert_eq!(
        rx.borrow_and_update()[0].battery.unwrap().battery_voltage,
        3816
    );
    // The anchor moved to 3816: 8 mV away is jitter again.
    r.update_battery("k", step(3816 + 8), NOW, wall(8));
    assert!(!rx.has_changed().unwrap());
}

/// `level` and `charge_state` publish on any change, no deadband.
#[test]
fn level_and_charge_state_always_publish() {
    let mut r = Registry::new();
    let mut rx = r.subscribe();
    r.acquire("k", "dev");
    r.update_battery("k", battery(80), NOW, wall(5));
    rx.borrow_and_update();

    r.update_battery("k", battery(79), NOW, wall(6));
    assert!(rx.has_changed().unwrap());
    rx.borrow_and_update();

    let mut b = battery(79);
    b.charge_state = ChargeState::Charging;
    r.update_battery("k", b, NOW, wall(7));
    assert!(rx.has_changed().unwrap());
}

/// No connected devices: no deadline, the sweeper parks timer-free.
#[test]
fn next_deadline_none_when_nothing_connected() {
    let mut r = Registry::new();
    assert!(r.next_deadline(NOW).is_none());
    r.acquire("k", "dev");
    assert!(r.next_deadline(NOW).is_none());
    r.mark_traffic("k", NOW);
    assert!(r.next_deadline(NOW).is_some());
    r.inner.get_mut("k").unwrap().last_seen = None;
    r.sweep(NOW, wall(5));
    assert!(r.next_deadline(NOW).is_none());
}

/// After a resume the staleness deadline lands `RESUME_GRACE` from now,
/// not `STALE_AFTER` after a pre-suspend `last_seen`.
#[test]
fn note_resume_rewinds_deadline() {
    let mut r = Registry::new();
    r.acquire("k", "dev");
    r.mark_traffic("k", NOW);
    let before = r.next_deadline(NOW).unwrap();
    r.note_resume(NOW);
    let after = r.next_deadline(NOW).unwrap();
    assert!(after < before);
    let now = NOW;
    assert!(after <= now + RESUME_GRACE);
    // Fresh traffic after resume restores the full window.
    r.mark_traffic("k", now);
    assert!(r.next_deadline(now).unwrap() > now + RESUME_GRACE);
}

#[test]
fn deadlines_are_exact() {
    let mut r = Registry::new();
    r.acquire("a", "dev");
    r.acquire("b", "dev");
    r.mark_traffic("a", NOW + 3);
    r.mark_traffic("b", NOW);
    assert_eq!(r.next_deadline(NOW), Some(NOW + STALE_AFTER));
    r.release("b");
    assert_eq!(r.next_deadline(NOW), Some(NOW + 3 + STALE_AFTER));
    assert!(r.note_resume(NOW + 10));
    assert_eq!(r.next_deadline(NOW + 10), Some(NOW + 10 + RESUME_GRACE));
    // A device whose traffic was never seen is stale at once.
    r.inner.get_mut("a").unwrap().last_seen = None;
    assert_eq!(r.next_deadline(NOW + 11), Some(NOW + 11));
}

#[test]
fn a_sweep_disconnects_only_past_the_deadline() {
    let mut r = Registry::new();
    let mut rx = r.subscribe();
    r.acquire("k", "dev");
    r.mark_traffic("k", NOW);
    rx.borrow_and_update();
    r.sweep(NOW + STALE_AFTER, wall(5));
    assert!(!rx.has_changed().unwrap());
    r.sweep(NOW + STALE_AFTER + 1, wall(5));
    assert!(rx.has_changed().unwrap());
    assert!(!rx.borrow_and_update()[0].connected);
    // Again: nothing more to do.
    r.sweep(NOW + STALE_AFTER + 2, wall(6));
    assert!(!rx.has_changed().unwrap());
}

/// A disconnected device keeps its values, stamped with the moment up to which
/// they held; one without values has no stamp.
#[test]
fn a_sweep_stamps_what_it_retains() {
    let mut r = Registry::new();
    let rx = r.subscribe();
    r.acquire("a", "dev");
    r.acquire("b", "dev");
    r.update_battery("a", battery(80), NOW, wall(5));
    r.mark_traffic("b", NOW);
    r.sweep(NOW + STALE_AFTER + 1, wall(77));
    let snap = rx.borrow();
    assert!(!snap[0].connected && !snap[1].connected);
    assert_eq!(snap[0].battery, Some(battery(80)));
    assert_eq!(snap[0].last_updated, Some(wall(77)));
    assert_eq!(snap[1].battery, None);
    assert_eq!(snap[1].last_updated, None);
}

#[test]
fn a_survivor_does_not_flap_and_the_dead_are_swept() {
    let mut r = Registry::new();
    let rx = r.subscribe();
    r.acquire("dead", "dev");
    r.acquire("live", "dev");
    r.mark_traffic("dead", NOW);
    r.mark_traffic("live", NOW);
    r.note_resume(NOW + SECOND);
    r.mark_traffic("live", NOW + 2 * SECOND);
    r.sweep(NOW + SECOND + RESUME_GRACE, wall(5));
    assert!(rx.borrow()[0].connected && rx.borrow()[1].connected);
    r.sweep(NOW + SECOND + RESUME_GRACE + 1, wall(5));
    assert!(!rx.borrow()[0].connected);
    assert!(rx.borrow()[1].connected);
}

#[test]
fn snapshots_come_in_key_order_and_carry_their_names() {
    let mut r = Registry::new();
    let rx = r.subscribe();
    r.acquire("b", "second");
    r.acquire("ab", "first");
    r.acquire("a", "very first");
    let keys: Vec<String> = rx.borrow().iter().map(|s| s.key.clone()).collect();
    assert_eq!(keys, vec!["a", "ab", "b"]);
    let names: Vec<String> = rx.borrow().iter().map(|s| s.name.clone()).collect();
    assert_eq!(names, vec!["very first", "first", "second"]);
}

#[test]
fn the_sweeper_is_woken_when_a_device_connects() {
    let mut r = Registry::new();
    assert!(!r.mark_traffic("k", NOW));
    r.acquire("k", "dev");
    assert!(r.mark_traffic("k", NOW));
    assert!(!r.mark_traffic("k", NOW + 1));
    assert!(!r.update_battery("k", battery(80), NOW + 2, wall(5)));
    r.sweep(NOW + 2 + STALE_AFTER + 1, wall(6));
    assert!(r.update_battery("k", battery(80), NOW + 3 + STALE_AFTER, wall(7)));
}

#[test]
fn unknown_devices_are_ignored() {
    let mut r = Registry::new();
    let rx = r.subscribe();
    r.release("k");
    r.mark_traffic("k", NOW);
    r.update_battery("k", battery(80), NOW, wall(5));
    assert!(!rx.has_changed().unwrap());
    assert!(rx.borrow().is_empty());
}

#[test]
fn a_ref_bump_publishes_nothing() {
    let mut r = Registry::new();
    r.acquire("k", "dev");
    // All that was published before counts as seen by a new receiver.
    let rx = r.subscribe();
    assert!(!rx.has_changed().unwrap());
    r.acquire("k", "dev");
    assert!(!rx.has_changed().unwrap());
    r.release("k");
    assert!(!rx.has_changed().unwrap());
    r.release("k");
    assert!(rx.has_changed().unwrap());
}

#[test]
fn a_reconnecting_device_publishes_jitter_too() {
    let mut r = Registry::new();
    let mut rx = r.subscribe();
    r.acquire("k", "dev");
    r.update_battery("k", battery(80), NOW, wall(5));
    r.sweep(NOW + STALE_AFTER + 1, wall(6));
    rx.borrow_and_update();
    let mut jitter = battery(80);
    jitter.battery_voltage += 1;
    r.update_battery("k", jitter, NOW + STALE_AFTER + 2, wall(9));
    assert!(rx.has_changed().unwrap());
    assert_eq!(rx.borrow()[0].battery.unwrap().battery_voltage, 3801);
    assert_eq!(rx.borrow()[0].last_updated, Some(wall(9)));
}

#[test]
fn each_deadband_is_exact() {
    let old = battery(50);
    let mut new = old;
    assert!(!significant(&old, &new));
    new.battery_voltage = old.battery_voltage - 14;
    assert!(!significant(&old, &new));
    new.battery_voltage = old.battery_voltage - 15;
    assert!(significant(&old, &new));
    new = old;
    new.system_voltage += 15;
    assert!(significant(&old, &new));
    new = old;
    new.input_voltage = 15;
    assert!(significant(&old, &new));
    new = old;
    new.current += 9;
    assert!(!significant(&old, &new));
    new.current += 1;
    assert!(significant(&old, &new));
    new = old;
    new.input_current = 10;
    assert!(significant(&old, &new));
    new = old;
    new.temperature += 299;
    assert!(!significant(&old, &new));
    new.temperature += 1;
    assert!(significant(&old, &new));
}

#[test]
fn a_device_is_there_while_it_is_read() {
    let mut r = Registry::new();
    let rx = r.subscribe();
    r.acquire("k", "first name");
    r.mark_traffic("k", NOW);
    r.acquire("k", "another name");
    r.update_battery("k", battery(80), NOW, wall(5));
    r.acquire("k", "another name");
    r.release("k");
    r.mark_traffic("k", NOW + 1);
    r.release("k");
    r.sweep(NOW + 2 + STALE_AFTER, wall(6));
    assert_eq!(rx.borrow().len(), 1);
    assert_eq!(rx.borrow()[0].name, "first name");
    assert_eq!(rx.borrow()[0].battery, Some(battery(80)));
    r.release("k");
    assert!(rx.borrow().is_empty());
    r.release("k");
    // Another reader makes it start afresh.
    r.acquire("k", "another name");
    let snap = rx.borrow();
    assert_eq!(snap[0].name, "another name");
    assert!(!snap[0].connected);
    assert_eq!(snap[0].battery, None);
    assert_eq!(snap[0].last_updated, None);
}

#[test]
fn a_resume_moves_the_deadline_to_the_earlier_one() {
    let mut r = Registry::new();
    let rx = r.subscribe();
    r.acquire("k", "dev");
    r.mark_traffic("k", NOW);
    let seen = rx.borrow().clone();
    // The deadline is further away than the grace.
    r.note_resume(NOW + SECOND);
    assert_eq!(r.next_deadline(NOW), Some(NOW + SECOND + RESUME_GRACE));
    r.note_resume(NOW + SECOND);
    assert_eq!(r.next_deadline(NOW), Some(NOW + SECOND + RESUME_GRACE));
    // It is nearer than that.
    r.mark_traffic("k", NOW);
    r.note_resume(NOW + 9 * SECOND);
    assert_eq!(r.next_deadline(NOW), Some(NOW + STALE_AFTER));
    assert_eq!(*rx.borrow(), seen);
}
