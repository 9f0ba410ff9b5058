//! The read loop of one hidraw node: what each read means, and what the loop
//! does next. The kernel delivers exactly one HID report per `read()`.
use crate::clock::{longer_than, MILLISECOND, SECOND};
use crate::protocol::{classify, BatteryStatus, Report};
use vstd::prelude::*;

verus! {

/// Largest report to expect (0x42 is 54 bytes); 64 covers everything.
pub const BUF_LEN: usize = 64;

/// How long to sleep after draining the node before waiting for it again. The
/// kernel queues up to 63 reports per open file and drops the newest on
/// overflow, so at 266 Hz the queue covers about 237 ms: 200 ms batch about 53
/// reports per wakeup without losing anything.
pub const DRAIN_SLEEP: i64 = 200 * MILLISECOND;

/// Transient read errors tolerated before the reader gives up; a successful
/// read resets the count.
pub const MAX_CONSECUTIVE_ERRORS: u32 = 5;

/// Liveness reports arrive at about 266 Hz but only feed a window of seconds,
/// so registry marks are throttled.
pub const MARK_INTERVAL: i64 = SECOND;

#[verifier::external_type_specification]
#[verifier::external_body]
pub struct ExIoError(std::io::Error);

/// Why a reader stopped. The supervisor retries failures (with backoff) but
/// not clean unplugs.
#[derive(Debug)]
pub enum End {
    /// Unplug/EOF/ENODEV; the device is gone, nothing to retry.
    DeviceGone,
    /// Could not open the node (typically a seat-ACL race): worth retrying.
    OpenFailed(std::io::Error),
    /// Reads kept failing after the device opened fine.
    ReadFailed(std::io::Error),
}

/// What happened to a reader that holds an open node.
#[derive(Debug)]
pub enum ReadEvent<'a> {
    /// The node has something to read.
    Ready,
    /// Waiting for the node failed.
    WaitFailed(std::io::Error),
    /// A read delivered these bytes; none of them at the end of the file.
    Read(&'a [u8]),
    /// A read failed, with the operating system's code for it.
    Failed { os_code: Option<i32>, interrupted: bool, error: std::io::Error },
    /// There is nothing more to read for now.
    WouldBlock,
}

/// What a reader does next.
#[derive(Debug)]
pub enum ReadStep {
    /// Read once more.
    Read,
    /// Hand this battery report to the registry, then read once more.
    Battery(BatteryStatus),
    /// Tell the registry of traffic, then read once more.
    Mark,
    /// Wait until the node has something to read.
    Wait,
    /// Sleep for `DRAIN_SLEEP`, then wait until there is something to read.
    SleepThenWait,
    /// Stop.
    Stop(End),
}

/// What a reader remembers from one event to the next.
#[derive(Debug, Clone, Copy, PartialEq, Eq, Structural)]
pub struct Reader {
    /// Failed reads since the last one that succeeded.
    pub consecutive_errors: u32,
    /// When the registry was last told of traffic.
    pub last_mark: Option<i64>,
    /// Something was read, or failed to be, since the node became ready.
    pub drained: bool,
}

/// The code by which Linux says that a device is gone.
pub const NO_SUCH_DEVICE: i32 = 19;

/// Reads the constant `libc::ENODEV`, which is 19 on Linux.
#[verifier::external_body]
fn enodev() -> (code: i32)
    ensures
        code == NO_SUCH_DEVICE,
{
    libc::ENODEV
}

/// The registry has to be told of traffic: it has not been, or not for
/// `MARK_INTERVAL`.
pub open spec fn mark_due(last_mark: Option<i64>, now: i64) -> bool {
    last_mark is Some ==> now - last_mark->0 >= MARK_INTERVAL
}

/// A reader after one event, and what it does next.
pub open spec fn stepped(r: Reader, event: ReadEvent<'_>, now: i64) -> (Reader, ReadStep) {
    match event {
        ReadEvent::Ready => (Reader { drained: false, ..r }, ReadStep::Read),
        ReadEvent::WaitFailed(error) => (r, ReadStep::Stop(End::ReadFailed(error))),
        ReadEvent::Read(bytes) => {
            let fed = Reader { drained: true, consecutive_errors: 0, ..r };
            if bytes@.len() == 0 {
                (r, ReadStep::Stop(End::DeviceGone))
            } else {
                match crate::protocol::meaning(bytes@) {
                    Some(Report::Battery(status)) => (fed, ReadStep::Battery(status)),
                    Some(Report::Liveness) => if mark_due(r.last_mark, now) {
                        (Reader { last_mark: Some(now), ..fed }, ReadStep::Mark)
                    } else {
                        (fed, ReadStep::Read)
                    },
                    _ => (fed, ReadStep::Read),
                }
            }
        },
        ReadEvent::Failed { os_code, interrupted, error } => {
            if os_code == Some(NO_SUCH_DEVICE) {
                (r, ReadStep::Stop(End::DeviceGone))
            } else if interrupted {
                (r, ReadStep::Read)
            } else {
                let errors = (r.consecutive_errors + 1) as u32;
                if errors >= MAX_CONSECUTIVE_ERRORS {
                    (
                        Reader { consecutive_errors: errors, ..r },
                        ReadStep::Stop(End::ReadFailed(error)),
                    )
                } else {
                    (
                        Reader { consecutive_errors: errors, drained: true, ..r },
                        ReadStep::SleepThenWait,
                    )
                }
            }
        },
        ReadEvent::WouldBlock => (
            r,
            if r.drained {
                ReadStep::SleepThenWait
            } else {
                ReadStep::Wait
            },
        ),
    }
}

impl Reader {
    /// A reader that keeps reading has seen fewer errors in a row than make it
    /// give up.
    pub open spec fn wf(self) -> bool {
        self.consecutive_errors < MAX_CONSECUTIVE_ERRORS
    }

    /// A reader whose node has just been opened.
    pub fn new() -> (r: Self)
        ensures
            r.wf(),
            r == (Reader { consecutive_errors: 0, last_mark: None, drained: false }),
    {
        Reader { consecutive_errors: 0, last_mark: None, drained: false }
    }

    /// Takes in one event at `now` and says what to do next.
    pub fn step(&mut self, event: ReadEvent<'_>, now: i64) -> (next: ReadStep)
        requires
            old(self).wf(),
        ensures
            (*final(self), next) == stepped(*old(self), event, now),
            next !is Stop ==> final(self).wf(),
    {
        match event {
            ReadEvent::Ready => {
                self.drained = false;
                ReadStep::Read
            },
            ReadEvent::WaitFailed(error) => ReadStep::Stop(End::ReadFailed(error)),
            ReadEvent::Read(bytes) => {
                if bytes.len() == 0 {
                    return ReadStep::Stop(End::DeviceGone);
                }
                self.drained = true;
                self.consecutive_errors = 0;
                match classify(bytes) {
                    Some(Report::Battery(status)) => ReadStep::Battery(status),
                    Some(Report::Liveness) => {
                        let due: bool = match self.last_mark {
                            Some(marked) => longer_than(marked, now, MARK_INTERVAL - 1),
                            None => true,
                        };
                        if due {
                            self.last_mark = Some(now);
                            ReadStep::Mark
                        } else {
                            ReadStep::Read
                        }
                    },
                    _ => ReadStep::Read,
                }
            },
            ReadEvent::Failed { os_code, interrupted, error } => {
                if os_code == Some(enodev()) {
                    return ReadStep::Stop(End::DeviceGone);
                }
                if interrupted {
                    return ReadStep::Read;
                }
                self.consecutive_errors = self.consecutive_errors + 1;
                if self.consecutive_errors >= MAX_CONSECUTIVE_ERRORS {
                    return ReadStep::Stop(End::ReadFailed(error));
                }
                // An error does not clear readiness, so sleeping limits the
                // rate of retries.
                self.drained = true;
                ReadStep::SleepThenWait
            },
            ReadEvent::WouldBlock => {
                if self.drained {
                    ReadStep::SleepThenWait
                } else {
                    ReadStep::Wait
                }
            },
        }
    }
}

/// A read that failed for good reason to try again: the device is still there
/// and the read was not merely interrupted.
pub open spec fn is_transient_error(event: ReadEvent<'_>) -> bool {
    event matches ReadEvent::Failed { os_code, interrupted, error } && os_code != Some(
        NO_SUCH_DEVICE,
    ) && !interrupted
}

/// A reader after a run of events, as long as it goes on.
pub open spec fn after_events(r: Reader, events: Seq<(ReadEvent<'_>, i64)>) -> Reader
    decreases events.len(),
{
    if events.len() == 0 {
        r
    } else {
        let before = after_events(r, events.drop_last());
        stepped(before, events.last().0, events.last().1).0
    }
}

/// Transient errors in a row are counted one by one.
pub proof fn errors_are_counted(r: Reader, events: Seq<(ReadEvent<'_>, i64)>)
    requires
        forall|i: int| 0 <= i < events.len() ==> is_transient_error((#[trigger] events[i]).0),
        r.consecutive_errors + events.len() <= MAX_CONSECUTIVE_ERRORS,
    ensures
        after_events(r, events).consecutive_errors == r.consecutive_errors + events.len(),
    decreases events.len(),
{
    if events.len() > 0 {
        errors_are_counted(r, events.drop_last());
        assert(is_transient_error(events[events.len() - 1].0));
    }
}

/// After a read that succeeded, `MAX_CONSECUTIVE_ERRORS - 1` transient errors
/// in a row are survived, and one more ends the reader with its error.
pub proof fn fifth_error_in_a_row_is_fatal(
    r: Reader,
    events: Seq<(ReadEvent<'_>, i64)>,
    next: ReadEvent<'_>,
    now: i64,
)
    requires
        r.consecutive_errors == 0,
        forall|i: int| 0 <= i < events.len() ==> is_transient_error((#[trigger] events[i]).0),
        events.len() < MAX_CONSECUTIVE_ERRORS,
        is_transient_error(next),
    ensures
        ({
            let step = stepped(after_events(r, events), next, now).1;
            if events.len() + 1 == MAX_CONSECUTIVE_ERRORS {
                step == ReadStep::Stop(End::ReadFailed(next->error))
            } else {
                step == ReadStep::SleepThenWait
            }
        }),
{
    errors_are_counted(r, events);
}

/// A read that succeeded forgets the errors before it.
pub proof fn success_resets_errors(r: Reader, bytes: &[u8], now: i64)
    requires
        bytes@.len() > 0,
    ensures
        stepped(r, ReadEvent::Read(bytes), now).0.consecutive_errors == 0,
        !(stepped(r, ReadEvent::Read(bytes), now).1 is Stop),
{
}

/// Two marks of one reader are at least `MARK_INTERVAL` apart: whatever comes
/// between them on a clock that does not run backwards, a mark at `later`
/// follows one at `earlier` by that much.
pub proof fn marks_are_throttled(
    r: Reader,
    events: Seq<(ReadEvent<'_>, i64)>,
    event: ReadEvent<'_>,
    later: i64,
)
    requires
        clock_forward(events),
        stepped(after_events(r, events), event, later).1 is Mark,
    ensures
        forall|i: int|
            0 <= i < events.len() && stepped(
                after_events(r, events.take(i)),
                (#[trigger] events[i]).0,
                events[i].1,
            ).1 is Mark ==> later - events[i].1 >= MARK_INTERVAL,
{
    assert forall|i: int|
        0 <= i < events.len() && stepped(
            after_events(r, events.take(i)),
            (#[trigger] events[i]).0,
            events[i].1,
        ).1 is Mark implies later - events[i].1 >= MARK_INTERVAL by {
        last_mark_grows(r, events, i);
    }
}

/// The clock of a run of events does not run backwards.
pub open spec fn clock_forward(events: Seq<(ReadEvent<'_>, i64)>) -> bool {
    forall|i: int, j: int|
        0 <= i <= j < events.len() ==> (#[trigger] events[i]).1 <= (#[trigger] events[j]).1
}

/// From a mark on, the last mark is never earlier than that one.
proof fn last_mark_grows(r: Reader, events: Seq<(ReadEvent<'_>, i64)>, i: int)
    requires
        0 <= i < events.len(),
        stepped(after_events(r, events.take(i)), events[i].0, events[i].1).1 is Mark,
        clock_forward(events),
    ensures
        after_events(r, events).last_mark is Some,
        after_events(r, events).last_mark->0 >= events[i].1,
    decreases events.len(),
{
    let shorter = events.drop_last();
    if i == events.len() - 1 {
        assert(events.take(i) =~= shorter);
    } else {
        assert(shorter.take(i) =~= events.take(i));
        assert(clock_forward(shorter)) by {
            assert forall|a: int, b: int| 0 <= a <= b < shorter.len() implies (
            #[trigger] shorter[a]).1 <= (#[trigger] shorter[b]).1 by {
                assert(events[a].1 <= events[b].1);
            }
        }
        last_mark_grows(r, shorter, i);
        assert(events[i].1 <= events[events.len() - 1].1);
    }
}

/// A node with nothing to read is waited for without sleeping, so that an idle
/// node causes no wakeups.
pub proof fn idle_node_is_waited_for(r: Reader, ready_at: i64, now: i64)
    ensures
        ({
            let ready = stepped(r, ReadEvent::Ready, ready_at).0;
            stepped(ready, ReadEvent::WouldBlock, now).1 is Wait
        }),
{
}

/// Where a reader is in its life.
#[derive(Debug, Clone, Copy, PartialEq, Eq, Structural)]
pub enum Phase {
    /// Its node is about to be opened.
    Opening,
    /// Its node could not be opened.
    Failed,
    /// Its node is open, and it is registered for its device.
    Reading,
    /// It stopped reading, and is still registered.
    Stopped,
    /// It is gone.
    Gone,
}

/// What a reader does once its node has been opened, or has not.
#[derive(Debug)]
pub enum OpenStep {
    /// Register for the device, then wait for the node.
    Acquire,
    /// Stop.
    Stop(End),
}

/// A reader from the moment at which its node is opened until it is gone.
#[derive(Debug, Clone, Copy, PartialEq, Eq, Structural)]
pub struct Life {
    pub phase: Phase,
    pub reader: Reader,
}

/// A reader once its node has been opened, and what it does next. Only a node
/// that can be read is registered: registering first would publish, and then
/// retract, a device on every retry of a node that cannot be opened.
pub open spec fn opened(l: Life, error: Option<std::io::Error>) -> (Life, OpenStep) {
    match error {
        None => (Life { phase: Phase::Reading, ..l }, OpenStep::Acquire),
        Some(e) => (Life { phase: Phase::Failed, ..l }, OpenStep::Stop(End::OpenFailed(e))),
    }
}

/// A reader of an open node after one event, and what it does next.
pub open spec fn lived(l: Life, event: ReadEvent<'_>, now: i64) -> (Life, ReadStep) {
    let (reader, next) = stepped(l.reader, event, now);
    let phase = if next is Stop {
        Phase::Stopped
    } else {
        Phase::Reading
    };
    (Life { phase, reader }, next)
}

impl Life {
    /// The reader is registered for its device.
    pub open spec fn registered(self) -> bool {
        self.phase == Phase::Reading || self.phase == Phase::Stopped
    }

    /// A reader that reads has not given up.
    pub open spec fn wf(self) -> bool {
        self.phase == Phase::Opening || self.phase == Phase::Reading ==> self.reader.wf()
    }

    /// A reader whose node is about to be opened.
    pub fn new() -> (r: Self)
        ensures
            r.wf(),
            r == (Life {
                phase: Phase::Opening,
                reader: Reader { consecutive_errors: 0, last_mark: None, drained: false },
            }),
    {
        Life { phase: Phase::Opening, reader: Reader::new() }
    }

    /// The node was opened, or could not be because of `error`.
    pub fn on_open(&mut self, error: Option<std::io::Error>) -> (next: OpenStep)
        requires
            old(self).wf(),
            old(self).phase == Phase::Opening,
        ensures
            (*final(self), next) == opened(*old(self), error),
            final(self).wf(),
    {
        match error {
            None => {
                self.phase = Phase::Reading;
                OpenStep::Acquire
            },
            Some(e) => {
                self.phase = Phase::Failed;
                OpenStep::Stop(End::OpenFailed(e))
            },
        }
    }

    /// Takes in one event of the open node at `now` and says what to do next.
    pub fn step(&mut self, event: ReadEvent<'_>, now: i64) -> (next: ReadStep)
        requires
            old(self).wf(),
            old(self).phase == Phase::Reading,
        ensures
            (*final(self), next) == lived(*old(self), event, now),
            final(self).wf(),
    {
        let next = self.reader.step(event, now);
        if let ReadStep::Stop(_) = &next {
            self.phase = Phase::Stopped;
        }
        next
    }

    /// The reader is gone, on its own or because it was aborted, in whatever
    /// phase it was. Says whether it has to be released for its device.
    pub fn on_drop(&mut self) -> (release: bool)
        ensures
            *final(self) == (Life { phase: Phase::Gone, ..*old(self) }),
            release == old(self).registered(),
    {
        let release: bool = self.phase == Phase::Reading || self.phase == Phase::Stopped;
        self.phase = Phase::Gone;
        release
    }
}

/// What happens to a reader in its life.
pub enum LifeEvent<'a> {
    /// Its node was opened, or could not be.
    Open(Option<std::io::Error>),
    /// Something happened to its open node.
    Node { event: ReadEvent<'a>, now: i64 },
    /// It is gone.
    Drop,
}

/// What a reader has done to the registry.
pub enum Effect {
    Acquired,
    Released,
    /// Handed on a battery report, or told of traffic.
    Fed,
    Nothing,
}

/// An event that can happen in this phase.
pub open spec fn can_happen(l: Life, event: LifeEvent<'_>) -> bool {
    match event {
        LifeEvent::Open(_) => l.phase == Phase::Opening,
        LifeEvent::Node { .. } => l.phase == Phase::Reading,
        LifeEvent::Drop => true,
    }
}

/// A reader after an event of its life, and what that did to the registry.
pub open spec fn after_event(l: Life, event: LifeEvent<'_>) -> (Life, Effect) {
    match event {
        LifeEvent::Open(error) => {
            let (after, next) = opened(l, error);
            (
                after,
                if next is Acquire {
                    Effect::Acquired
                } else {
                    Effect::Nothing
                },
            )
        },
        LifeEvent::Node { event, now } => {
            let (after, next) = lived(l, event, now);
            (
                after,
                if next is Battery || next is Mark {
                    Effect::Fed
                } else {
                    Effect::Nothing
                },
            )
        },
        LifeEvent::Drop => (
            Life { phase: Phase::Gone, ..l },
            if l.registered() {
                Effect::Released
            } else {
                Effect::Nothing
            },
        ),
    }
}

/// A reader after a run of events of its life.
pub open spec fn after_life(l: Life, events: Seq<LifeEvent<'_>>) -> Life
    decreases events.len(),
{
    if events.len() == 0 {
        l
    } else {
        after_event(after_life(l, events.drop_last()), events.last()).0
    }
}

/// What the `i`th event of a life did to the registry.
pub open spec fn effect_at(l: Life, events: Seq<LifeEvent<'_>>, i: int) -> Effect {
    after_event(after_life(l, events.take(i)), events[i]).1
}

/// Every event of a run could happen when it did.
pub open spec fn is_life(l: Life, events: Seq<LifeEvent<'_>>) -> bool
    decreases events.len(),
{
    events.len() == 0 || (is_life(l, events.drop_last()) && can_happen(
        after_life(l, events.drop_last()),
        events.last(),
    ))
}

/// How often a life acquires its device.
pub open spec fn acquires_in(l: Life, events: Seq<LifeEvent<'_>>) -> nat
    decreases events.len(),
{
    if events.len() == 0 {
        0
    } else {
        let more: nat = if after_event(after_life(l, events.drop_last()), events.last()).1
            is Acquired {
            1
        } else {
            0
        };
        acquires_in(l, events.drop_last()) + more
    }
}

/// How often a life releases its device.
pub open spec fn releases_in(l: Life, events: Seq<LifeEvent<'_>>) -> nat
    decreases events.len(),
{
    if events.len() == 0 {
        0
    } else {
        let more: nat = if after_event(after_life(l, events.drop_last()), events.last()).1
            is Released {
            1
        } else {
            0
        };
        releases_in(l, events.drop_last()) + more
    }
}

/// The node could not be opened.
pub open spec fn open_failed(events: Seq<LifeEvent<'_>>) -> bool {
    exists|i: int|
        0 <= i < events.len() && (#[trigger] events[i] matches LifeEvent::Open(error) && error
            is Some)
}

/// At every moment of its life a reader has acquired its device at most once,
/// has released it as often as it acquired it or once less, and the latter
/// exactly while it is registered. So once it is gone, however it went, it has
/// released as often as it acquired. A reader whose node could not be opened
/// acquires nothing.
pub proof fn releases_match_acquires(l: Life, events: Seq<LifeEvent<'_>>)
    requires
        l.phase == Phase::Opening,
        is_life(l, events),
    ensures
        ({
            let now = after_life(l, events);
            let held: int = if now.registered() {
                1
            } else {
                0
            };
            &&& acquires_in(l, events) <= 1
            &&& acquires_in(l, events) == releases_in(l, events) + held
            &&& now.phase == Phase::Gone ==> acquires_in(l, events) == releases_in(l, events)
            &&& now.phase == Phase::Opening ==> acquires_in(l, events) == 0 && !open_failed(events)
            &&& open_failed(events) ==> acquires_in(l, events) == 0 && releases_in(l, events) == 0
            &&& now.phase == Phase::Failed ==> open_failed(events)
            &&& now.registered() ==> !open_failed(events)
        }),
    decreases events.len(),
{
    if events.len() > 0 {
        let shorter = events.drop_last();
        releases_match_acquires(l, shorter);
        if open_failed(events) {
            let i = choose|i: int|
                0 <= i < events.len() && (#[trigger] events[i] matches LifeEvent::Open(error)
                    && error is Some);
            if i < shorter.len() {
                assert(shorter[i] == events[i]);
                assert(open_failed(shorter));
            }
        }
        if open_failed(shorter) {
            let i = choose|i: int|
                0 <= i < shorter.len() && (#[trigger] shorter[i] matches LifeEvent::Open(error)
                    && error is Some);
            assert(events[i] == shorter[i]);
        }
        assert(events[events.len() - 1] == events.last());
    }
}

proof fn prefix_is_life(l: Life, events: Seq<LifeEvent<'_>>, n: int)
    requires
        is_life(l, events),
        0 <= n <= events.len(),
    ensures
        is_life(l, events.take(n)),
        n < events.len() ==> can_happen(after_life(l, events.take(n)), events[n]),
    decreases events.len(),
{
    if n == events.len() {
        assert(events.take(n) =~= events);
    } else {
        let shorter = events.drop_last();
        assert(shorter.take(n) =~= events.take(n));
        if n < shorter.len() {
            prefix_is_life(l, shorter, n);
            assert(shorter[n] == events[n]);
        } else {
            assert(events.take(n) =~= shorter);
        }
    }
}

/// A reader feeds the registry only between the acquire and the release of its
/// device.
pub proof fn only_the_registered_feed(l: Life, events: Seq<LifeEvent<'_>>, i: int)
    requires
        l.phase == Phase::Opening,
        is_life(l, events),
        0 <= i < events.len(),
        effect_at(l, events, i) is Fed,
    ensures
        acquires_in(l, events.take(i)) == 1,
        releases_in(l, events.take(i)) == 0,
{
    prefix_is_life(l, events, i);
    releases_match_acquires(l, events.take(i));
}

/// In every state of a reader a battery report that is read is handed on, with
/// exactly the status that its bytes spell out; nothing else of a read is
/// handed on as one.
pub proof fn battery_reports_are_handed_on(r: Reader, bytes: &[u8], now: i64)
    ensures
        stepped(r, ReadEvent::Read(bytes), now).1 is Battery <==> bytes@.len() >= 15 && bytes@[0]
            == 0x43,
        stepped(r, ReadEvent::Read(bytes), now).1 matches ReadStep::Battery(status) ==> {
            &&& status.charge_state == crate::interface::ChargeState::Discharging <==> bytes@[1] == 1
            &&& status.charge_state == crate::interface::ChargeState::Charging <==> bytes@[1] == 2
            &&& status.charge_state == crate::interface::ChargeState::SrcValidate <==> bytes@[1] == 3
            &&& status.charge_state == crate::interface::ChargeState::ChargingDone <==> bytes@[1]
                == 4
            &&& status.level == bytes@[2]
            &&& status.battery_voltage == bytes@[3] + 256 * bytes@[4]
            &&& status.system_voltage == bytes@[5] + 256 * bytes@[6]
            &&& status.input_voltage == bytes@[7] + 256 * bytes@[8]
            &&& status.current == bytes@[9] + 256 * bytes@[10]
            &&& status.input_current == bytes@[11] + 256 * bytes@[12]
            &&& status.temperature == bytes@[13] + 256 * bytes@[14]
            &&& Some(crate::protocol::Report::Battery(status)) == crate::protocol::meaning(bytes@)
        },
        forall|event: ReadEvent<'_>| #[trigger]
            stepped(r, event, now).1 is Battery ==> event is Read,
{
    crate::protocol::battery_reports_are_spelled_out(bytes@);
}

/// In every state of a reader a state report that is read tells the registry of
/// traffic if and only if it has not been told before or not within the last
/// second; the moment is kept where it is told and stays where it is not.
pub proof fn state_reports_mark_traffic(r: Reader, bytes: &[u8], now: i64)
    ensures
        ({
            let (after, next) = stepped(r, ReadEvent::Read(bytes), now);
            let traffic = bytes@.len() > 0 && (bytes@[0] == 0x42 || bytes@[0] == 0x45);
            let due = match r.last_mark {
                None => true,
                Some(marked) => now - marked >= 1_000_000_000,
            };
            &&& next is Mark <==> traffic && due
            &&& next is Mark ==> after.last_mark == Some(now)
            &&& !(next is Mark) ==> after.last_mark == r.last_mark
            &&& traffic && !due ==> next is Read
        }),
        forall|event: ReadEvent<'_>| #[trigger]
            stepped(r, event, now).1 is Mark ==> event is Read,
        forall|event: ReadEvent<'_>|
            !(event is Read) ==> (#[trigger] stepped(r, event, now)).0.last_mark == r.last_mark,
{
    crate::protocol::other_reports_are_known_by_their_id(bytes@, bytes@[0]);
}

/// A read that delivered something is followed by another one, forgets the
/// errors before it, and is remembered until the node is waited for; one that
/// delivered nothing means that the device is gone.
pub proof fn reads_go_on_until_the_end(r: Reader, bytes: &[u8], now: i64)
    ensures
        ({
            let (after, next) = stepped(r, ReadEvent::Read(bytes), now);
            &&& bytes@.len() == 0 ==> next == ReadStep::Stop(End::DeviceGone)
            &&& bytes@.len() > 0 ==> {
                &&& next is Read || next is Battery || next is Mark
                &&& after.consecutive_errors == 0
                &&& after.drained
            }
        }),
{
}

/// A read that failed ends the reader as a clean unplug if the device is gone,
/// is tried again at once if it was merely interrupted, and counts otherwise:
/// the fifth in a row ends the reader with its error, one before that lets it
/// sleep first.
pub proof fn failed_reads_are_told_apart(
    r: Reader,
    os_code: Option<i32>,
    interrupted: bool,
    error: std::io::Error,
    now: i64,
)
    requires
        r.wf(),
    ensures
        r.consecutive_errors <= 4,
        ({
            let (after, next) = stepped(r, ReadEvent::Failed { os_code, interrupted, error }, now);
            &&& os_code == Some(19i32) ==> next == ReadStep::Stop(End::DeviceGone)
            &&& os_code != Some(19i32) && interrupted ==> next is Read && after == r
            &&& os_code != Some(19i32) && !interrupted ==> {
                &&& after.consecutive_errors == r.consecutive_errors + 1
                &&& r.consecutive_errors == 4 ==> next == ReadStep::Stop(End::ReadFailed(error))
                &&& r.consecutive_errors < 4 ==> next is SleepThenWait && after.drained
            }
        }),
{
}

/// A node that became ready is read; one with nothing left to read is waited
/// for, after a sleep if anything was read or failed to be since it became
/// ready; a failure to wait ends the reader with its error.
pub proof fn waiting_and_sleeping(r: Reader, error: std::io::Error, now: i64)
    ensures
        stepped(r, ReadEvent::Ready, now).1 is Read,
        stepped(r, ReadEvent::Ready, now).0 == (Reader { drained: false, ..r }),
        stepped(r, ReadEvent::WouldBlock, now).1 is SleepThenWait <==> r.drained,
        stepped(r, ReadEvent::WouldBlock, now).1 is Wait <==> !r.drained,
        stepped(r, ReadEvent::WouldBlock, now).0 == r,
        stepped(r, ReadEvent::WaitFailed(error), now).1 == ReadStep::Stop(End::ReadFailed(error)),
{
}

/// A reader stops exactly when the node can no longer be waited for or read:
/// at the end of the file, when the device is gone, and when reads keep
/// failing.
pub proof fn readers_stop_only_for_good(r: Reader, event: ReadEvent<'_>, now: i64)
    requires
        r.wf(),
    ensures
        stepped(r, event, now).1 is Stop <==> match event {
            ReadEvent::Ready => false,
            ReadEvent::WaitFailed(_) => true,
            ReadEvent::Read(bytes) => bytes@.len() == 0,
            ReadEvent::Failed { os_code, interrupted, error } => os_code == Some(19i32) || (
            !interrupted && r.consecutive_errors == 4),
            ReadEvent::WouldBlock => false,
        },
{
}

/// A reader registers for its device if its node could be opened, and else
/// stops with the error; while the node is open it does what its reads ask for,
/// until it stops.
pub proof fn life_follows_the_node(l: Life, error: std::io::Error, event: ReadEvent<'_>, now: i64)
    ensures
        opened(l, None).1 is Acquire,
        opened(l, None).0 == (Life { phase: Phase::Reading, ..l }),
        opened(l, Some(error)).1 == OpenStep::Stop(End::OpenFailed(error)),
        opened(l, Some(error)).0 == (Life { phase: Phase::Failed, ..l }),
        lived(l, event, now).1 == stepped(l.reader, event, now).1,
        lived(l, event, now).0.reader == stepped(l.reader, event, now).0,
        lived(l, event, now).0.phase == Phase::Stopped <==> lived(l, event, now).1 is Stop,
        lived(l, event, now).0.phase == Phase::Reading <==> !(lived(l, event, now).1 is Stop),
        l.registered() <==> l.phase == Phase::Reading || l.phase == Phase::Stopped,
{
}

/// At 266 reports a second those that arrive within one sleep fit the 63 places
/// of the kernel's queue, so none is lost; and a report of 54 bytes fits the
/// buffer.
pub proof fn sleeping_loses_no_report()
    ensures
        266 * DRAIN_SLEEP <= 63 * SECOND,
        DRAIN_SLEEP == 200_000_000,
        BUF_LEN >= 54,
{
}

} // verus!
