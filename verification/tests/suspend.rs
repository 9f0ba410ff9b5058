//! Suspend and resume.
use steambattery::clock::SECOND;
use steambattery::suspend::{is_resume, next_delay, RECONNECT_BASE};

#[test]
fn the_reconnect_delay_doubles_up_to_a_minute() {
    let mut delay = RECONNECT_BASE;
    let mut delays = vec![];
    for _ in 0..6 {
        delays.push(delay / SECOND);
        delay = next_delay(delay);
    }
    assert_eq!(delays, vec![5, 10, 20, 40, 60, 60]);
}

#[test]
fn only_the_end_of_a_sleep_is_a_resume() {
    assert!(is_resume(Some(false)));
    assert!(!is_resume(Some(true)));
    assert!(!is_resume(None));
}
