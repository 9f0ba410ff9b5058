//! Supervision of the readers.
use std::io::{Error, ErrorKind};
use steambattery::clock::SECOND;
use steambattery::discovery::{Event, HidrawNode};
use steambattery::key_map::KeyMap;
use steambattery::reader::End;
use steambattery::supervisor::{retry_delay, Action, Supervisor, RETRY_MAX_ATTEMPTS};

const NOW: i64 = 100 * SECOND;

fn node(n: u32) -> HidrawNode {
    HidrawNode {
        devnode: format!("/dev/hidraw{n}"),
        key: format!("key{n}"),
        name: "dev".to_string(),
    }
}

fn open_failed() -> End {
    End::OpenFailed(Error::new(ErrorKind::PermissionDenied, "no ACL yet"))
}

fn read_failed() -> End {
    End::ReadFailed(Error::new(ErrorKind::Other, "EIO"))
}

fn none() -> KeyMap<()> {
    KeyMap::new()
}

fn finished(nodes: &[u32]) -> KeyMap<()> {
    let mut m = KeyMap::new();
    for n in nodes {
        m.insert(node(*n).devnode, ());
    }
    m
}

#[test]
fn delays_double_up_to_the_cap() {
    let delays: Vec<i64> = (0..RETRY_MAX_ATTEMPTS).map(|n| retry_delay(n) / SECOND).collect();
    assert_eq!(delays, vec![1, 2, 4, 8, 16, 30]);
}

#[test]
fn the_first_scan_starts_every_node() {
    let mut s = Supervisor::new();
    assert_eq!(s.next_retry(), None);
    let actions = s.begin(&vec![node(1), node(2)]);
    assert_eq!(actions, vec![Action::Start(node(1)), Action::Start(node(2))]);
    assert!(s.is_read("/dev/hidraw1") && s.is_read("/dev/hidraw2"));
    assert!(!s.is_read("/dev/hidraw3"));
}

#[test]
fn a_node_that_keeps_failing_is_given_up() {
    let mut s = Supervisor::new();
    s.begin(&vec![node(1)]);
    let mut now = NOW;
    for attempt in 0..RETRY_MAX_ATTEMPTS {
        let end = if attempt % 2 == 0 { open_failed() } else { read_failed() };
        s.reader_ended(node(1), &end, now);
        assert!(!s.is_read("/dev/hidraw1"));
        let at = s.next_retry().unwrap();
        assert_eq!(at, now + retry_delay(attempt));
        assert!(s.retry(&none(), at - 1).is_empty());
        assert_eq!(s.next_retry(), Some(at));
        assert_eq!(s.retry(&none(), at), vec![Action::Start(node(1))]);
        assert_eq!(s.next_retry(), None);
        now = at;
    }
    s.reader_ended(node(1), &open_failed(), now);
    assert_eq!(s.next_retry(), None);
    assert!(!s.is_read("/dev/hidraw1"));
    // A udev event starts the node over.
    assert_eq!(
        s.nodes_changed(Event::Added(node(1)), &none()),
        vec![Action::Start(node(1))]
    );
    s.reader_ended(node(1), &open_failed(), now);
    assert_eq!(s.next_retry(), Some(now + retry_delay(0)));
}

#[test]
fn a_clean_unplug_is_not_retried() {
    let mut s = Supervisor::new();
    s.begin(&vec![node(1)]);
    s.reader_ended(node(1), &End::DeviceGone, NOW);
    assert_eq!(s.next_retry(), None);
    assert!(!s.is_read("/dev/hidraw1"));
    assert_eq!(s.attempts.len(), 0);
}

#[test]
fn an_event_for_a_live_reader_changes_nothing() {
    let mut s = Supervisor::new();
    s.begin(&vec![node(1)]);
    assert!(s.nodes_changed(Event::Added(node(1)), &none()).is_empty());
    // A reader that has finished is replaced.
    assert_eq!(
        s.nodes_changed(Event::Added(node(1)), &finished(&[1])),
        vec![Action::Start(node(1))]
    );
}

#[test]
fn a_removal_aborts_and_forgets() {
    let mut s = Supervisor::new();
    s.begin(&vec![node(1), node(2)]);
    s.reader_ended(node(2), &open_failed(), NOW);
    assert_eq!(
        s.nodes_changed(Event::Removed("/dev/hidraw1".to_string()), &none()),
        vec![Action::Abort("/dev/hidraw1".to_string())]
    );
    assert!(s.next_retry().is_some());
    assert!(s
        .nodes_changed(Event::Removed("/dev/hidraw2".to_string()), &none())
        .is_empty());
    assert_eq!(s.next_retry(), None);
    assert!(!s.is_read("/dev/hidraw1"));
}

#[test]
fn an_event_drops_the_retries_of_its_node_alone() {
    let mut s = Supervisor::new();
    s.begin(&vec![node(1), node(2)]);
    s.reader_ended(node(1), &open_failed(), NOW);
    s.reader_ended(node(2), &open_failed(), NOW + 5);
    assert_eq!(s.next_retry(), Some(NOW + SECOND));
    s.nodes_changed(Event::Added(node(1)), &none());
    assert_eq!(s.next_retry(), Some(NOW + 5 + SECOND));
    assert_eq!(s.retries.len(), 1);
    assert_eq!(s.attempts.get("/dev/hidraw2"), Some(&1));
    assert_eq!(s.attempts.get("/dev/hidraw1"), None);
}

#[test]
fn what_is_due_is_started_once() {
    let mut s = Supervisor::new();
    s.reader_ended(node(1), &open_failed(), NOW);
    s.reader_ended(node(1), &open_failed(), NOW);
    s.reader_ended(node(2), &open_failed(), NOW);
    let later = NOW + 60 * SECOND;
    assert_eq!(
        s.retry(&none(), later),
        vec![Action::Start(node(1)), Action::Start(node(2))]
    );
    assert_eq!(s.next_retry(), None);
    // Both are read by now, so nothing more is started for them.
    s.reader_ended(node(3), &open_failed(), NOW);
    s.nodes_changed(Event::Added(node(3)), &none());
    assert!(s.retry(&none(), later).is_empty());
}

#[test]
fn a_finished_reader_is_retried_though_its_task_is_held() {
    let mut s = Supervisor::new();
    s.begin(&vec![node(1)]);
    s.reader_ended(node(1), &open_failed(), NOW);
    s.reader_ended(node(1), &open_failed(), NOW);
    s.begin(&vec![node(1)]);
    let later = NOW + 60 * SECOND;
    assert_eq!(
        s.retry(&finished(&[1]), later),
        vec![Action::Start(node(1))]
    );
}

#[test]
fn a_resume_rescans_for_the_dead() {
    let mut s = Supervisor::new();
    s.begin(&vec![node(1), node(2)]);
    s.reader_ended(node(3), &open_failed(), NOW);
    let actions = s.resumed(
        &finished(&[2]),
        &Some(vec![node(1), node(2), node(3), node(3)]),
    );
    assert_eq!(actions, vec![Action::Start(node(2)), Action::Start(node(3))]);
    assert_eq!(s.next_retry(), None);
    assert_eq!(s.attempts.len(), 0);
    for n in 1..=3 {
        assert!(s.is_read(&node(n).devnode));
    }
}

#[test]
fn a_failed_rescan_only_lets_go_of_the_dead() {
    let mut s = Supervisor::new();
    s.begin(&vec![node(1), node(2)]);
    assert!(s.resumed(&finished(&[2]), &None).is_empty());
    assert!(s.is_read("/dev/hidraw1"));
    assert!(!s.is_read("/dev/hidraw2"));
}
