//! The read loop of a node.
use std::io::{Error, ErrorKind};
use steambattery::clock::{MILLISECOND, SECOND};
use steambattery::reader::{
    End, Life, OpenStep, Phase, ReadEvent, ReadStep, Reader, BUF_LEN, DRAIN_SLEEP, MARK_INTERVAL,
    MAX_CONSECUTIVE_ERRORS,
};
use steambattery::state::RESUME_GRACE;

fn failed(os_code: Option<i32>, interrupted: bool) -> ReadEvent<'static> {
    ReadEvent::Failed {
        os_code,
        interrupted,
        error: Error::new(ErrorKind::Other, "glitch"),
    }
}

fn battery_report() -> Vec<u8> {
    let mut r = vec![0u8; 15];
    r[0] = 0x43;
    r[2] = 55;
    r
}

#[test]
fn liveness_marks_are_throttled() {
    let mut r = Reader::new();
    let state = [0x42u8; 54];
    assert!(matches!(r.step(ReadEvent::Ready, 0), ReadStep::Read));
    assert!(matches!(r.step(ReadEvent::Read(&state), 0), ReadStep::Mark));
    assert!(matches!(r.step(ReadEvent::Read(&state), 1), ReadStep::Read));
    assert!(matches!(
        r.step(ReadEvent::Read(&state), MARK_INTERVAL - 1),
        ReadStep::Read
    ));
    assert!(matches!(
        r.step(ReadEvent::Read(&state), MARK_INTERVAL),
        ReadStep::Mark
    ));
    assert!(matches!(
        r.step(ReadEvent::Read(&[0x45; 46]), 2 * MARK_INTERVAL),
        ReadStep::Mark
    ));
    assert_eq!(r.last_mark, Some(2 * MARK_INTERVAL));
}

#[test]
fn battery_reports_are_handed_on() {
    let mut r = Reader::new();
    match r.step(ReadEvent::Read(&battery_report()), 0) {
        ReadStep::Battery(status) => assert_eq!(status.level, 55),
        other => panic!("{other:?}"),
    }
    // Other reports and broken ones are read over.
    assert!(matches!(r.step(ReadEvent::Read(&[0x7b; 13]), 0), ReadStep::Read));
    assert!(matches!(r.step(ReadEvent::Read(&[0x43; 3]), 0), ReadStep::Read));
}

#[test]
fn the_end_of_the_file_and_enodev_end_the_reader() {
    assert!(matches!(
        Reader::new().step(ReadEvent::Read(&[]), 0),
        ReadStep::Stop(End::DeviceGone)
    ));
    assert!(matches!(
        Reader::new().step(failed(Some(libc::ENODEV), false), 0),
        ReadStep::Stop(End::DeviceGone)
    ));
}

#[test]
fn the_fifth_error_in_a_row_is_fatal() {
    let mut r = Reader::new();
    for _ in 1..MAX_CONSECUTIVE_ERRORS {
        assert!(matches!(
            r.step(failed(Some(libc::EIO), false), 0),
            ReadStep::SleepThenWait
        ));
    }
    match r.step(failed(Some(libc::EIO), false), 0) {
        ReadStep::Stop(End::ReadFailed(e)) => assert_eq!(format!("{e}"), "glitch"),
        other => panic!("{other:?}"),
    }
}

#[test]
fn a_read_that_succeeds_forgets_the_errors() {
    let mut r = Reader::new();
    for _ in 0..20 {
        assert!(matches!(
            r.step(failed(None, false), 0),
            ReadStep::SleepThenWait
        ));
        assert_eq!(r.consecutive_errors, 1);
        assert!(matches!(r.step(ReadEvent::Read(&[1]), 0), ReadStep::Read));
        assert_eq!(r.consecutive_errors, 0);
    }
}

#[test]
fn interruptions_do_not_count() {
    let mut r = Reader::new();
    for _ in 0..20 {
        assert!(matches!(r.step(failed(Some(libc::EINTR), true), 0), ReadStep::Read));
    }
    assert_eq!(r, Reader::new());
}

#[test]
fn an_idle_node_is_waited_for_without_sleeping() {
    let mut r = Reader::new();
    r.step(ReadEvent::Ready, 0);
    assert!(matches!(r.step(ReadEvent::WouldBlock, 0), ReadStep::Wait));
    r.step(ReadEvent::Ready, 0);
    r.step(ReadEvent::Read(&[1]), 0);
    assert!(matches!(
        r.step(ReadEvent::WouldBlock, 0),
        ReadStep::SleepThenWait
    ));
    r.step(ReadEvent::Ready, 0);
    assert!(matches!(r.step(ReadEvent::WouldBlock, 0), ReadStep::Wait));
}

#[test]
fn a_failure_to_wait_ends_the_reader() {
    let e = Error::new(ErrorKind::Other, "no reactor");
    assert!(matches!(
        Reader::new().step(ReadEvent::WaitFailed(e), 0),
        ReadStep::Stop(End::ReadFailed(_))
    ));
}

#[test]
fn the_grace_after_a_resume_covers_the_reader() {
    assert_eq!(DRAIN_SLEEP, 200 * MILLISECOND);
    assert_eq!(MARK_INTERVAL, SECOND);
    assert!(RESUME_GRACE >= MARK_INTERVAL + DRAIN_SLEEP);
    assert_eq!(BUF_LEN, 64);
}

#[test]
fn a_node_that_cannot_be_opened_is_not_registered() {
    let mut life = Life::new();
    let refused = Error::new(ErrorKind::PermissionDenied, "no ACL yet");
    match life.on_open(Some(refused)) {
        OpenStep::Stop(End::OpenFailed(e)) => assert_eq!(e.kind(), ErrorKind::PermissionDenied),
        other => panic!("{other:?}"),
    }
    assert_eq!(life.phase, Phase::Failed);
    assert!(!life.on_drop());
}

#[test]
fn an_acquired_device_is_released_once() {
    // The reader stops on its own.
    let mut life = Life::new();
    assert!(matches!(life.on_open(None), OpenStep::Acquire));
    assert!(matches!(life.step(ReadEvent::Ready, 0), ReadStep::Read));
    assert!(matches!(
        life.step(ReadEvent::Read(&battery_report()), 0),
        ReadStep::Battery(_)
    ));
    assert_eq!(life.phase, Phase::Reading);
    assert!(matches!(
        life.step(ReadEvent::Read(&[]), 1),
        ReadStep::Stop(End::DeviceGone)
    ));
    assert_eq!(life.phase, Phase::Stopped);
    assert!(life.on_drop());
    assert!(!life.on_drop());
    // It is aborted while it reads.
    let mut aborted = Life::new();
    aborted.on_open(None);
    assert!(aborted.on_drop());
    assert!(!aborted.on_drop());
    // It never got to open its node.
    assert!(!Life::new().on_drop());
}
