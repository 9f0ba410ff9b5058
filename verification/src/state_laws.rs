//! What holds of the registry as a whole, over the models that the contracts
//! of its operations speak of.
use crate::clock::UnixTime;
use crate::protocol::BatteryStatus;
use crate::state::{Devices, EntryView, Registry, SnapshotView};
use crate::{key_map, reader, state, text};
use vstd::prelude::*;

verus! {

/// `list` holds one snapshot of every device, as it is, in key order, and
/// nothing else.
pub open spec fn lists_every_device(list: Seq<SnapshotView>, m: Devices) -> bool {
    &&& forall|i: int, j: int|
        0 <= i < j < list.len() ==> text::key_before(
            (#[trigger] list[i]).key,
            (#[trigger] list[j]).key,
        )
    &&& forall|i: int|
        0 <= i < list.len() ==> m.contains_key((#[trigger] list[i]).key) && list[i]
            == m[list[i].key].snapshot
    &&& forall|k: Seq<char>| #[trigger]
        m.contains_key(k) ==> exists|i: int| 0 <= i < list.len() && (#[trigger] list[i]).key == k
}

/// An operation that publishes, as every one of the registry does, leaves a
/// list of every device as it is, and notifies receivers if and only if that
/// list is another than the one before.
pub proof fn publishing_is_exact(before: Registry, after: Registry)
    requires
        before.wf(),
        after.wf(),
        after.history() == state::offered(before.history(), state::listing(after@)),
    ensures
        lists_every_device(after.history().last(), after@),
        after.history().last() != before.history().last() <==> after.history()
            == before.history().push(state::listing(after@)),
        after.history().last() == before.history().last() <==> after.history() == before.history(),
{
    published_is_complete(after);
    assert(before.history().push(state::listing(after@)).len() != before.history().len());
}

/// What is published last lists every device once, in key order, and nothing
/// else.
pub proof fn published_is_complete(r: Registry)
    requires
        r.wf(),
    ensures
        lists_every_device(r.history().last(), r@),
{
    let published = r.history().last();
    let snapshots = r@.map_values(|e: EntryView| e.snapshot);
    r.lemma_has_listing();
    let items = key_map::items_of(snapshots);
    assert forall|i: int| 0 <= i < items.len() implies {
        let k = (#[trigger] items[i]).0;
        r@.contains_key(k) && items[i].1 == r@[k].snapshot && published[i] == items[i].1
            && published[i].key == k
    } by {
        key_map::lemma_place(items, i);
        assert(snapshots.contains_key(items[i].0));
    }
    assert forall|i: int, j: int| 0 <= i < j < published.len() implies text::key_before(
        (#[trigger] published[i]).key,
        (#[trigger] published[j]).key,
    ) by {
        assert(text::key_before(items[i].0, items[j].0));
    }
    assert forall|i: int| 0 <= i < published.len() implies r@.contains_key(
        (#[trigger] published[i]).key,
    ) && published[i] == r@[published[i].key].snapshot by {
        assert(items[i].1 == published[i]);
    }
    assert forall|k: Seq<char>| #[trigger] r@.contains_key(k) implies exists|i: int|
        0 <= i < published.len() && (#[trigger] published[i]).key == k by {
        assert(snapshots.contains_key(k));
        assert(key_map::has_key(items, k));
        let p = key_map::place_of(items, k);
        assert(0 <= p < items.len() && items[p].0 == k);
        assert(published[p].key == k);
    }
}

/// What is done to one device leaves every other one alone.
pub proof fn other_devices_untouched(
    m: Devices,
    key: Seq<char>,
    name: Seq<char>,
    battery: BatteryStatus,
    now: i64,
    wall: UnixTime,
    other: Seq<char>,
)
    requires
        other != key,
    ensures
        ({
            let after = seq![
                state::acquired(m, key, name),
                state::released(m, key),
                state::marked(m, key, now),
                state::reported(m, key, battery, now, wall),
            ];
            forall|i: int|
                0 <= i < after.len() ==> {
                    &&& (#[trigger] after[i]).contains_key(other) == m.contains_key(other)
                    &&& m.contains_key(other) ==> after[i][other] == m[other]
                }
        }),
{
}

/// Releases, traffic and reports of a device that nobody registered do nothing.
pub proof fn unknown_device_ignored(
    m: Devices,
    key: Seq<char>,
    battery: BatteryStatus,
    now: i64,
    wall: UnixTime,
)
    requires
        !m.contains_key(key),
    ensures
        state::released(m, key) == m,
        state::marked(m, key, now) == m,
        state::reported(m, key, battery, now, wall) == m,
{
}

/// `n` more readers for `key`.
pub open spec fn acquired_times(
    m: Devices,
    key: Seq<char>,
    name: Seq<char>,
    n: nat,
) -> Devices
    decreases n,
{
    if n == 0 {
        m
    } else {
        state::acquired(acquired_times(m, key, name, (n - 1) as nat), key, name)
    }
}

/// `n` readers less for `key`.
pub open spec fn released_times(m: Devices, key: Seq<char>, n: nat) -> Devices
    decreases n,
{
    if n == 0 {
        m
    } else {
        released_times(state::released(m, key), key, (n - 1) as nat)
    }
}

/// The readers that `key` has.
pub open spec fn readers_of(m: Devices, key: Seq<char>) -> int {
    if m.contains_key(key) {
        m[key].refs as int
    } else {
        0
    }
}

proof fn acquired_times_counts(m: Devices, key: Seq<char>, name: Seq<char>, n: nat)
    requires
        m.contains_key(key) ==> m[key].refs >= 1,
        readers_of(m, key) + n <= usize::MAX,
    ensures
        readers_of(acquired_times(m, key, name, n), key) == readers_of(m, key) + n,
        n > 0 ==> acquired_times(m, key, name, n).contains_key(key),
    decreases n,
{
    if n > 0 {
        acquired_times_counts(m, key, name, (n - 1) as nat);
    }
}

/// As many readers released as were acquired leave the devices as they were;
/// a device that was not there before is gone again.
pub proof fn releases_undo_acquires(
    m: Devices,
    key: Seq<char>,
    name: Seq<char>,
    n: nat,
)
    requires
        m.contains_key(key) ==> m[key].refs >= 1,
        readers_of(m, key) + n <= usize::MAX,
    ensures
        released_times(acquired_times(m, key, name, n), key, n) == m,
    decreases n,
{
    if n > 0 {
        let before = acquired_times(m, key, name, (n - 1) as nat);
        acquired_times_counts(m, key, name, (n - 1) as nat);
        let after = state::acquired(before, key, name);
        assert(state::released(after, key) =~= before);
        releases_undo_acquires(m, key, name, (n - 1) as nat);
    }
}

/// After `n` releases a device is there if and only if it had more readers
/// than that.
pub proof fn last_release_removes(m: Devices, key: Seq<char>, n: nat)
    requires
        m.contains_key(key) ==> m[key].refs >= 1,
    ensures
        released_times(m, key, n).contains_key(key) <==> n < readers_of(m, key),
    decreases n,
{
    if n > 0 {
        last_release_removes(state::released(m, key), key, (n - 1) as nat);
    }
}

/// One more reader of a device that is there changes nothing that is
/// published, under whatever name it comes, and it takes exactly one more
/// release to remove the device.
pub proof fn another_reader_is_not_published(
    r: Registry,
    key: Seq<char>,
    name: Seq<char>,
    n: nat,
)
    requires
        r.wf(),
        r@.contains_key(key),
        r@[key].refs < usize::MAX,
    ensures
        ({
            let after = state::acquired(r@, key, name);
            &&& after[key].snapshot == r@[key].snapshot
            &&& state::listing(after) == state::listing(r@)
            &&& state::offered(r.history(), state::listing(after)) == r.history()
            &&& state::released(after, key) == r@
            &&& released_times(after, key, n + 1).contains_key(key) <==> released_times(
                r@,
                key,
                n,
            ).contains_key(key)
        }),
{
    let after = state::acquired(r@, key, name);
    assert(after.dom() =~= r@.dom());
    same_snapshots_same_listing(after, r@);
    assert(state::entry_ok(key, r@[key]));
    assert(state::released(after, key) =~= r@);
}

/// What is done to the registry.
pub enum Operation {
    Acquire { key: Seq<char>, name: Seq<char> },
    Release { key: Seq<char> },
    Mark { key: Seq<char>, now: i64 },
    Report { key: Seq<char>, battery: BatteryStatus, now: i64, wall: UnixTime },
    Sweep { now: i64, wall: UnixTime },
    Resume { now: i64 },
}

/// The devices after an operation.
pub open spec fn applied(m: Devices, op: Operation) -> Devices {
    match op {
        Operation::Acquire { key, name } => state::acquired(m, key, name),
        Operation::Release { key } => state::released(m, key),
        Operation::Mark { key, now } => state::marked(m, key, now),
        Operation::Report { key, battery, now, wall } => state::reported(
            m,
            key,
            battery,
            now,
            wall,
        ),
        Operation::Sweep { now, wall } => state::swept(m, now, wall),
        Operation::Resume { now } => state::resumed(m, now),
    }
}

/// The devices after a run of operations.
pub open spec fn after_operations(m: Devices, ops: Seq<Operation>) -> Devices
    decreases ops.len(),
{
    if ops.len() == 0 {
        m
    } else {
        applied(after_operations(m, ops.drop_last()), ops.last())
    }
}

/// How often a run acquires `key`.
pub open spec fn acquires(ops: Seq<Operation>, key: Seq<char>) -> nat
    decreases ops.len(),
{
    if ops.len() == 0 {
        0
    } else {
        let more: nat = match ops.last() {
            Operation::Acquire { key: acquired, name } => if acquired == key {
                1
            } else {
                0
            },
            _ => 0,
        };
        acquires(ops.drop_last(), key) + more
    }
}

/// How often a run releases `key`.
pub open spec fn releases(ops: Seq<Operation>, key: Seq<char>) -> nat
    decreases ops.len(),
{
    if ops.len() == 0 {
        0
    } else {
        let more: nat = match ops.last() {
            Operation::Release { key: released } => if released == key {
                1
            } else {
                0
            },
            _ => 0,
        };
        releases(ops.drop_last(), key) + more
    }
}

/// Only an acquire or a release of `key` changes its readers.
proof fn readers_stay(m: Devices, op: Operation, key: Seq<char>)
    requires
        !(op matches Operation::Acquire { key: acquired, name } && acquired == key),
        !(op matches Operation::Release { key: released } && released == key),
    ensures
        readers_of(applied(m, op), key) == readers_of(m, key),
        applied(m, op).contains_key(key) == m.contains_key(key),
{
}

proof fn acquiring_counts(m: Devices, ops: Seq<Operation>, key: Seq<char>)
    requires
        !m.contains_key(key),
        releases(ops, key) == 0,
        acquires(ops, key) <= usize::MAX,
    ensures
        ({
            let after = after_operations(m, ops);
            &&& after.contains_key(key) <==> acquires(ops, key) > 0
            &&& readers_of(after, key) == acquires(ops, key)
        }),
    decreases ops.len(),
{
    if ops.len() > 0 {
        acquiring_counts(m, ops.drop_last(), key);
        if acquires(ops, key) == acquires(ops.drop_last(), key) {
            readers_stay(after_operations(m, ops.drop_last()), ops.last(), key);
        }
    }
}

proof fn releasing_counts(m: Devices, ops: Seq<Operation>, key: Seq<char>)
    requires
        m.contains_key(key) ==> m[key].refs >= 1,
        acquires(ops, key) == 0,
    ensures
        ({
            let after = after_operations(m, ops);
            let left = readers_of(m, key) - releases(ops, key);
            &&& after.contains_key(key) <==> left > 0
            &&& left > 0 ==> readers_of(after, key) == left
        }),
    decreases ops.len(),
{
    if ops.len() > 0 {
        releasing_counts(m, ops.drop_last(), key);
        if releases(ops, key) == releases(ops.drop_last(), key) {
            readers_stay(after_operations(m, ops.drop_last()), ops.last(), key);
        }
    }
}

/// A device that was not there and is acquired some number of times is there
/// for as long as it has been released fewer times than that, whatever traffic,
/// reports, sweeps, resumes and operations on other devices come in between.
/// Once it is gone, another reader makes it start afresh.
pub proof fn device_is_there_while_it_is_read(
    m: Devices,
    acquiring: Seq<Operation>,
    releasing: Seq<Operation>,
    key: Seq<char>,
    name: Seq<char>,
)
    requires
        !m.contains_key(key),
        releases(acquiring, key) == 0,
        acquires(releasing, key) == 0,
        acquires(acquiring, key) <= usize::MAX,
    ensures
        ({
            let n = acquires(acquiring, key);
            let after = after_operations(after_operations(m, acquiring), releasing);
            &&& after.contains_key(key) <==> releases(releasing, key) < n
            &&& releases(releasing, key) < n ==> after[key].refs == n - releases(releasing, key)
            &&& releases(releasing, key) >= n ==> state::acquired(after, key, name)
                == after.insert(key, state::fresh(key, name))
        }),
{
    acquiring_counts(m, acquiring, key);
    releasing_counts(after_operations(m, acquiring), releasing, key);
}

/// What has been published after a run of operations.
pub open spec fn after_publishing(
    history: Seq<Seq<SnapshotView>>,
    m: Devices,
    ops: Seq<Operation>,
) -> Seq<Seq<SnapshotView>>
    decreases ops.len(),
{
    if ops.len() == 0 {
        history
    } else {
        state::offered(
            after_publishing(history, m, ops.drop_last()),
            state::listing(after_operations(m, ops)),
        )
    }
}

/// Whatever is done to the registry, what was published stays published, the
/// last list is that of the devices as they are, and every list differs from
/// the one before it: receivers are notified if and only if the list changed.
pub proof fn every_publication_is_news(r: Registry, ops: Seq<Operation>, next: Operation)
    requires
        r.wf(),
    ensures
        ({
            let before = after_publishing(r.history(), r@, ops);
            let after = after_publishing(r.history(), r@, ops.push(next));
            let was = state::listing(after_operations(r@, ops));
            let is = state::listing(after_operations(r@, ops.push(next)));
            &&& before.last() == was
            &&& after.last() == is
            &&& is != was ==> after == before.push(is)
            &&& is == was ==> after == before
        }),
    decreases ops.len(),
{
    assert(ops.push(next).drop_last() =~= ops);
    if ops.len() > 0 {
        every_publication_is_news(r, ops.drop_last(), ops.last());
        assert(ops.drop_last().push(ops.last()) =~= ops);
    }
}

/// A resume is not published.
pub proof fn resume_is_not_published(r: Registry, now: i64)
    requires
        r.wf(),
    ensures
        state::listing(state::resumed(r@, now)) == state::listing(r@),
        state::offered(r.history(), state::listing(state::resumed(r@, now))) == r.history(),
{
    let after = state::resumed(r@, now);
    assert(after.dom() =~= r@.dom());
    assert forall|k: Seq<char>| #[trigger] after.contains_key(k) implies after[k].snapshot
        == r@[k].snapshot by {
        assert(r@.contains_key(k));
    }
    same_snapshots_same_listing(after, r@);
}

/// As long as readers remain the device stays, with all that is known of it.
pub proof fn device_stays_while_read(m: Devices, key: Seq<char>)
    requires
        m.contains_key(key),
        m[key].refs > 1,
    ensures
        state::released(m, key).contains_key(key),
        state::released(m, key)[key].snapshot == m[key].snapshot,
        state::released(m, key)[key].last_seen == m[key].last_seen,
{
}

/// Snapshots that stay the same are listed the same.
pub proof fn same_snapshots_same_listing(a: Devices, b: Devices)
    requires
        a.dom() == b.dom(),
        forall|k: Seq<char>| #[trigger] a.contains_key(k) ==> a[k].snapshot == b[k].snapshot,
    ensures
        state::listing(a) == state::listing(b),
{
    assert(a.map_values(|e: EntryView| e.snapshot) =~= b.map_values(
        |e: EntryView| e.snapshot,
    ));
}

/// A report that differs from the published one by jitter alone refreshes
/// liveness and publishes nothing.
pub proof fn jitter_is_not_published(
    m: Devices,
    key: Seq<char>,
    battery: BatteryStatus,
    now: i64,
    wall: UnixTime,
)
    requires
        m.contains_key(key),
        m[key].snapshot.connected,
        m[key].snapshot.battery is Some,
        !state::is_significant(m[key].snapshot.battery->0, battery),
    ensures
        ({
            let after = state::reported(m, key, battery, now, wall);
            &&& after[key].snapshot == m[key].snapshot
            &&& after[key].last_seen == Some(now)
            &&& state::listing(after) == state::listing(m)
        }),
{
    let after = state::reported(m, key, battery, now, wall);
    assert(after.dom() =~= m.dom());
    same_snapshots_same_listing(after, m);
}

/// A report and the moment of its arrival.
pub type Arrival = (BatteryStatus, i64, UnixTime);

/// The devices after a run of reports of `key`.
pub open spec fn after_reports(
    m: Devices,
    key: Seq<char>,
    reports: Seq<Arrival>,
) -> Devices
    decreases reports.len(),
{
    if reports.len() == 0 {
        m
    } else {
        let (battery, now, wall) = reports.last();
        state::reported(
            after_reports(m, key, reports.drop_last()),
            key,
            battery,
            now,
            wall,
        )
    }
}

/// The deadband is measured from the last *published* report: however many
/// reports stay within it the published one stays, and the first that leaves
/// it is published, though it be a small step from the one before.
pub proof fn drift_adds_up_to_a_publication(
    m: Devices,
    key: Seq<char>,
    reports: Seq<Arrival>,
    next: Arrival,
)
    requires
        m.contains_key(key),
        m[key].snapshot.connected,
        m[key].snapshot.battery is Some,
        forall|i: int|
            0 <= i < reports.len() ==> !state::is_significant(
                m[key].snapshot.battery->0,
                (#[trigger] reports[i]).0,
            ),
    ensures
        after_reports(m, key, reports).contains_key(key),
        after_reports(m, key, reports)[key].snapshot == m[key].snapshot,
        state::is_significant(m[key].snapshot.battery->0, next.0) ==> {
            let after = after_reports(m, key, reports.push(next))[key].snapshot;
            after.battery == Some(next.0) && after.last_updated == Some(next.2)
        },
    decreases reports.len(),
{
    if reports.len() > 0 {
        let shorter = reports.drop_last();
        assert forall|i: int| 0 <= i < shorter.len() implies !state::is_significant(
            m[key].snapshot.battery->0,
            (#[trigger] shorter[i]).0,
        ) by {
            assert(shorter[i] == reports[i]);
        }
        drift_adds_up_to_a_publication(m, key, shorter, next);
        assert(!state::is_significant(
            m[key].snapshot.battery->0,
            reports[reports.len() - 1].0,
        ));
    }
    assert(reports.push(next).drop_last() =~= reports);
}

/// A new level or charge state is always published.
pub proof fn level_and_charge_state_are_exact(
    m: Devices,
    key: Seq<char>,
    battery: BatteryStatus,
    now: i64,
    wall: UnixTime,
)
    requires
        m.contains_key(key),
    ensures
        ({
            let shown = state::reported(m, key, battery, now, wall)[key].snapshot;
            &&& shown.battery is Some
            &&& shown.battery->0.level == battery.level
            &&& shown.battery->0.charge_state == battery.charge_state
            &&& shown.connected
        }),
{
}

/// What is shown of the analog readings is off by less than the deadbands.
pub proof fn shown_readings_are_close(
    m: Devices,
    key: Seq<char>,
    battery: BatteryStatus,
    now: i64,
    wall: UnixTime,
)
    requires
        m.contains_key(key),
    ensures
        ({
            let shown = state::reported(m, key, battery, now, wall)[key].snapshot.battery->0;
            &&& state::distance(shown.battery_voltage, battery.battery_voltage)
                < state::DEADBAND_MV
            &&& state::distance(shown.system_voltage, battery.system_voltage)
                < state::DEADBAND_MV
            &&& state::distance(shown.input_voltage, battery.input_voltage)
                < state::DEADBAND_MV
            &&& state::distance(shown.current, battery.current) < state::DEADBAND_MA
            &&& state::distance(shown.input_current, battery.input_current)
                < state::DEADBAND_MA
            &&& state::distance(shown.temperature, battery.temperature)
                < state::DEADBAND_MC
        }),
{
}

/// A sweep disconnects the stale devices and no others, keeps every device
/// with its readers, name and battery values, and stamps the values that a
/// disconnected device keeps.
pub proof fn sweep_disconnects_the_stale(
    m: Devices,
    now: i64,
    wall: UnixTime,
    key: Seq<char>,
)
    requires
        m.contains_key(key),
    ensures
        ({
            let before = m[key];
            let after = state::swept(m, now, wall)[key];
            let stale = state::is_stale(before, now);
            &&& state::swept(m, now, wall).dom() == m.dom()
            &&& after.snapshot.connected == (before.snapshot.connected && !stale)
            &&& after.snapshot.battery == before.snapshot.battery
            &&& after.snapshot.name == before.snapshot.name
            &&& after.refs == before.refs
            &&& after.last_seen == before.last_seen
            &&& stale && before.snapshot.battery is Some ==> after.snapshot.last_updated == Some(
                wall,
            )
            &&& !stale ==> after == before
        }),
{
    assert(state::swept(m, now, wall).dom() =~= m.dom());
}

/// A second sweep at the same moment finds nothing more to do, whatever the
/// wall clock says by then.
pub proof fn sweep_is_idempotent(
    m: Devices,
    now: i64,
    wall: UnixTime,
    later_wall: UnixTime,
)
    ensures
        state::swept(state::swept(m, now, wall), now, later_wall)
            == state::swept(m, now, wall),
{
    assert(state::swept(state::swept(m, now, wall), now, later_wall)
        =~= state::swept(m, now, wall));
}

/// A device with traffic no longer than `STALE_AFTER` ago survives a sweep.
pub proof fn fresh_traffic_survives_a_sweep(
    m: Devices,
    key: Seq<char>,
    seen: i64,
    now: i64,
    wall: UnixTime,
)
    requires
        m.contains_key(key),
        now - seen <= state::STALE_AFTER,
    ensures
        state::swept(state::marked(m, key, seen), now, wall)[key].snapshot.connected,
{
}

/// A device that stays silent is disconnected by any sweep after that.
pub proof fn silence_is_swept(
    m: Devices,
    key: Seq<char>,
    seen: i64,
    now: i64,
    wall: UnixTime,
)
    requires
        m.contains_key(key),
        now - seen > state::STALE_AFTER,
    ensures
        !state::swept(state::marked(m, key, seen), now, wall)[key].snapshot.connected,
{
}

/// Every operation keeps it that every connected device has been seen.
pub proof fn connected_devices_stay_seen(m: Devices, op: Operation)
    requires
        state::connected_seen(m),
    ensures
        state::connected_seen(applied(m, op)),
{
    let after = applied(m, op);
    assert forall|k: Seq<char>| #[trigger]
        after.contains_key(k) && after[k].snapshot.connected implies after[k].last_seen is Some by {
        if m.contains_key(k) {
            assert(m[k].snapshot.connected ==> m[k].last_seen is Some);
        }
    }
}

/// Whatever has been done to a registry that was empty at first, every
/// connected device has been seen.
pub proof fn connected_devices_are_seen(ops: Seq<Operation>)
    ensures
        state::connected_seen(after_operations(Map::empty(), ops)),
    decreases ops.len(),
{
    if ops.len() > 0 {
        connected_devices_are_seen(ops.drop_last());
        connected_devices_stay_seen(
            after_operations(Map::empty(), ops.drop_last()),
            ops.last(),
        );
    }
}

/// In whatever state a registry is that was empty at first: the next deadline
/// is `STALE_AFTER` after the last traffic of some connected device and no
/// later than that of any, whenever it is asked for, and a sweep up to then
/// changes nothing.
pub proof fn next_deadline_is_exact(
    ops: Seq<Operation>,
    asked: i64,
    deadline: int,
    now: i64,
    wall: UnixTime,
)
    requires
        state::is_next_deadline(after_operations(Map::empty(), ops), asked, deadline),
    ensures
        ({
            let m = after_operations(Map::empty(), ops);
            &&& forall|k: Seq<char>| #[trigger]
                m.contains_key(k) && m[k].snapshot.connected ==> m[k].last_seen is Some && deadline
                    <= m[k].last_seen->0 + state::STALE_AFTER
            &&& exists|k: Seq<char>| #[trigger]
                m.contains_key(k) && m[k].snapshot.connected && deadline == m[k].last_seen->0
                    + state::STALE_AFTER
            &&& now <= deadline ==> state::swept(m, now, wall) == m
        }),
{
    connected_devices_are_seen(ops);
    let m = after_operations(Map::empty(), ops);
    if now <= deadline {
        no_sweep_before_the_deadline(m, asked, deadline, now, wall);
    }
    let k = choose|k: Seq<char>| #[trigger]
        m.contains_key(k) && m[k].snapshot.connected && deadline == state::deadline_of(
            m[k],
            asked,
        );
    assert(m.contains_key(k) && m[k].snapshot.connected && deadline == m[k].last_seen->0
        + state::STALE_AFTER);
    assert forall|k: Seq<char>| #[trigger]
        m.contains_key(k) && m[k].snapshot.connected implies m[k].last_seen is Some && deadline
        <= m[k].last_seen->0 + state::STALE_AFTER by {
        assert(deadline <= state::deadline_of(m[k], asked));
    }
}

/// Up to the next deadline a sweep changes nothing.
pub proof fn no_sweep_before_the_deadline(
    m: Devices,
    asked: i64,
    deadline: int,
    now: i64,
    wall: UnixTime,
)
    requires
        state::connected_seen(m),
        state::none_stale_before(m, asked, deadline),
        now <= deadline,
    ensures
        state::swept(m, now, wall) == m,
{
    assert forall|k: Seq<char>| #[trigger] m.contains_key(k) implies state::swept(
        m,
        now,
        wall,
    )[k] == m[k] by {
        if m[k].snapshot.connected {
            assert(deadline <= state::deadline_of(m[k], asked));
        }
    }
    assert(state::swept(m, now, wall) =~= m);
}

/// After the next deadline a sweep disconnects some device.
pub proof fn sweep_after_the_deadline(
    m: Devices,
    asked: i64,
    deadline: int,
    now: i64,
    wall: UnixTime,
)
    requires
        state::connected_seen(m),
        state::some_stale_at(m, asked, deadline),
        now > deadline,
    ensures
        exists|k: Seq<char>| #[trigger]
            m.contains_key(k) && m[k].snapshot.connected && !state::swept(
                m,
                now,
                wall,
            )[k].snapshot.connected,
{
    let k = choose|k: Seq<char>| #[trigger]
        m.contains_key(k) && m[k].snapshot.connected && deadline == state::deadline_of(
            m[k],
            asked,
        );
    assert(m.contains_key(k) && m[k].snapshot.connected);
    assert(!state::swept(m, now, wall)[k].snapshot.connected);
}

/// Once nothing is connected there is nothing to sweep.
pub proof fn nothing_to_sweep(m: Devices, now: i64, wall: UnixTime)
    requires
        state::none_connected(m),
    ensures
        state::swept(m, now, wall) == m,
{
    assert forall|k: Seq<char>| #[trigger] m.contains_key(k) implies state::swept(
        m,
        now,
        wall,
    )[k] == m[k] by {}
    assert(state::swept(m, now, wall) =~= m);
}

/// All traffic was seen by `now`.
pub open spec fn seen_by(m: Devices, now: i64) -> bool {
    forall|k: Seq<char>| #[trigger]
        m.contains_key(k) && m[k].last_seen is Some ==> m[k].last_seen->0 <= now
}

/// A deadline moves earlier only where the operation asks for the sweeper to
/// be woken: on a clock that does not run backwards, a sweeper that nobody
/// wakes sleeps no longer than it may.
pub proof fn unwoken_sweeper_is_in_time(
    m: Devices,
    key: Seq<char>,
    name: Seq<char>,
    battery: BatteryStatus,
    now: i64,
    wall: UnixTime,
    deadline: int,
)
    requires
        state::connected_seen(m),
        seen_by(m, now),
        state::none_stale_before(m, now, deadline),
    ensures
        state::none_stale_before(state::acquired(m, key, name), now, deadline),
        state::none_stale_before(state::released(m, key), now, deadline),
        state::none_stale_before(state::swept(m, now, wall), now, deadline),
        // The two below ask for it when they connect the device.
        !(m.contains_key(key) && !m[key].snapshot.connected)
            ==> state::none_stale_before(state::marked(m, key, now), now, deadline)
            && state::none_stale_before(
            state::reported(m, key, battery, now, wall),
            now,
            deadline,
        ),
{
    let acquired = state::acquired(m, key, name);
    assert forall|k: Seq<char>| #[trigger]
        acquired.contains_key(k) && acquired[k].snapshot.connected implies deadline
        <= state::deadline_of(acquired[k], now) by {
        assert(m.contains_key(k));
    }
    let released = state::released(m, key);
    assert forall|k: Seq<char>| #[trigger]
        released.contains_key(k) && released[k].snapshot.connected implies deadline
        <= state::deadline_of(released[k], now) by {
        assert(m.contains_key(k));
    }
    let swept = state::swept(m, now, wall);
    assert forall|k: Seq<char>| #[trigger]
        swept.contains_key(k) && swept[k].snapshot.connected implies deadline
        <= state::deadline_of(swept[k], now) by {
        assert(m.contains_key(k));
    }
    if !(m.contains_key(key) && !m[key].snapshot.connected) {
        let marked = state::marked(m, key, now);
        assert forall|k: Seq<char>| #[trigger]
            marked.contains_key(k) && marked[k].snapshot.connected implies deadline
            <= state::deadline_of(marked[k], now) by {
            assert(m.contains_key(k));
        }
        let reported = state::reported(m, key, battery, now, wall);
        assert forall|k: Seq<char>| #[trigger]
            reported.contains_key(k) && reported[k].snapshot.connected implies deadline
            <= state::deadline_of(reported[k], now) by {
            assert(m.contains_key(k));
        }
    }
}

/// Resuming publishes nothing, and no deadline moves later.
pub proof fn resume_only_rewinds(m: Devices, now: i64, key: Seq<char>)
    requires
        m.contains_key(key),
        state::connected_seen(m),
    ensures
        ({
            let after = state::resumed(m, now);
            &&& after.dom() == m.dom()
            &&& after[key].snapshot == m[key].snapshot
            &&& after[key].refs == m[key].refs
            &&& m[key].snapshot.connected ==> state::deadline_of(after[key], now)
                <= state::deadline_of(m[key], now)
        }),
{
    assert(state::resumed(m, now).dom() =~= m.dom());
}

/// A device that died in its sleep is reported disconnected by the first sweep
/// more than `RESUME_GRACE` after the resume.
pub proof fn dead_device_is_swept_after_resume(
    m: Devices,
    key: Seq<char>,
    resume: i64,
    now: i64,
    wall: UnixTime,
)
    requires
        m.contains_key(key),
        resume - (state::STALE_AFTER - state::RESUME_GRACE) >= i64::MIN,
        now - resume > state::RESUME_GRACE,
    ensures
        !state::swept(state::resumed(m, resume), now, wall)[key].snapshot.connected,
{
    assert(state::resumed(m, resume).contains_key(key));
}

/// After a resume the next deadline is no further away than `RESUME_GRACE`.
pub proof fn resume_shortens_the_deadline(
    m: Devices,
    resume: i64,
    deadline: int,
)
    requires
        !state::none_connected(m),
        resume - (state::STALE_AFTER - state::RESUME_GRACE) >= i64::MIN,
        state::none_stale_before(state::resumed(m, resume), resume, deadline),
    ensures
        deadline <= resume + state::RESUME_GRACE,
{
    let k = choose|k: Seq<char>| #[trigger] m.contains_key(k) && m[k].snapshot.connected;
    let after = state::resumed(m, resume);
    assert(after.contains_key(k) && after[k].snapshot.connected);
}

/// A resume brings the next deadline to `RESUME_GRACE` after it, unless it was
/// earlier already; a second one at the same moment changes nothing.
pub proof fn resume_moves_the_deadline(
    m: Devices,
    asked: i64,
    deadline: int,
    resume: i64,
    later: i64,
)
    requires
        state::connected_seen(m),
        state::is_next_deadline(m, asked, deadline),
        resume - (state::STALE_AFTER - state::RESUME_GRACE) >= i64::MIN,
    ensures
        state::is_next_deadline(
            state::resumed(m, resume),
            later,
            if deadline < resume + state::RESUME_GRACE {
                deadline
            } else {
                resume + state::RESUME_GRACE
            },
        ),
        state::resumed(state::resumed(m, resume), resume) == state::resumed(m, resume),
{
    let after = state::resumed(m, resume);
    let moved = if deadline < resume + state::RESUME_GRACE {
        deadline
    } else {
        resume + state::RESUME_GRACE
    };
    assert forall|k: Seq<char>| #[trigger]
        after.contains_key(k) && after[k].snapshot.connected implies moved <= state::deadline_of(
        after[k],
        later,
    ) by {
        assert(m.contains_key(k));
        assert(deadline <= state::deadline_of(m[k], asked));
    }
    let k = choose|k: Seq<char>| #[trigger]
        m.contains_key(k) && m[k].snapshot.connected && deadline == state::deadline_of(
            m[k],
            asked,
        );
    assert(m.contains_key(k));
    assert(after.contains_key(k) && after[k].snapshot.connected && moved == state::deadline_of(
        after[k],
        later,
    ));
    assert(state::resumed(after, resume) =~= after);
}

/// Traffic gives a device the full `STALE_AFTER`, after a resume too.
pub proof fn traffic_gives_the_full_window(
    m: Devices,
    key: Seq<char>,
    resume: i64,
    seen: i64,
    asked: i64,
)
    requires
        m.contains_key(key),
    ensures
        ({
            let after = state::marked(state::resumed(m, resume), key, seen)[key];
            after.snapshot.connected && state::deadline_of(after, asked) == seen
                + state::STALE_AFTER
        }),
{
    assert(state::resumed(m, resume).contains_key(key));
}

/// The grace after a resume covers the time that a reader may take to mark
/// traffic again.
pub proof fn grace_covers_the_reader()
    ensures
        state::RESUME_GRACE >= reader::MARK_INTERVAL + reader::DRAIN_SLEEP,
{
}

/// A controller that survived the suspend does not flap: it is still connected
/// in every sweep before its reader marks traffic again, and after that mark
/// it has the full `STALE_AFTER` again.
pub proof fn survivor_does_not_flap(
    m: Devices,
    key: Seq<char>,
    resume: i64,
    sweep: i64,
    mark: i64,
    later: i64,
    wall: UnixTime,
)
    requires
        m.contains_key(key),
        m[key].snapshot.connected,
        m[key].last_seen is Some,
        // It would not have gone stale by then without the suspend.
        sweep - m[key].last_seen->0 <= state::STALE_AFTER,
        sweep <= mark,
        mark <= resume + reader::MARK_INTERVAL + reader::DRAIN_SLEEP,
        later <= mark + state::STALE_AFTER,
    ensures
        ({
            let resumed = state::resumed(m, resume);
            let swept = state::swept(resumed, sweep, wall);
            let marked = state::marked(swept, key, mark);
            &&& swept[key].snapshot.connected
            &&& state::swept(marked, later, wall)[key].snapshot.connected
        }),
{
    assert(state::resumed(m, resume).contains_key(key));
}

/// As long as the clock is `STALE_AFTER` away from its last reading, every
/// operation keeps the deadlines within what it can read.
pub proof fn deadlines_stay_in_range(
    m: Devices,
    key: Seq<char>,
    name: Seq<char>,
    battery: BatteryStatus,
    now: i64,
    wall: UnixTime,
)
    requires
        state::deadlines_fit(m),
        now + state::STALE_AFTER <= i64::MAX,
    ensures
        state::deadlines_fit(Map::empty()),
        state::deadlines_fit(state::acquired(m, key, name)),
        state::deadlines_fit(state::released(m, key)),
        state::deadlines_fit(state::marked(m, key, now)),
        state::deadlines_fit(state::reported(m, key, battery, now, wall)),
        state::deadlines_fit(state::swept(m, now, wall)),
        state::deadlines_fit(state::resumed(m, now)),
{
    let swept = state::swept(m, now, wall);
    assert forall|k: Seq<char>| #[trigger]
        swept.contains_key(k) && swept[k].snapshot.connected && swept[k].last_seen
            is Some implies swept[k].last_seen->0 + state::STALE_AFTER <= i64::MAX by {
        assert(m.contains_key(k));
    }
    let resumed = state::resumed(m, now);
    assert forall|k: Seq<char>| #[trigger]
        resumed.contains_key(k) && resumed[k].snapshot.connected && resumed[k].last_seen
            is Some implies resumed[k].last_seen->0 + state::STALE_AFTER <= i64::MAX by {
        assert(m.contains_key(k));
    }
}

/// Traffic of a device changes nothing of it but the connected flag and the
/// moment of its last traffic, whether or not it was connected: what was known
/// of its battery stays. No other device is changed.
pub proof fn traffic_changes_only_liveness(m: Devices, key: Seq<char>, now: i64)
    ensures
        ({
            let after = state::marked(m, key, now);
            &&& after.dom() == m.dom()
            &&& m.contains_key(key) ==> {
                &&& after[key].snapshot.connected
                &&& after[key].last_seen == Some(now)
                &&& after[key].snapshot.battery == m[key].snapshot.battery
                &&& after[key].snapshot.last_updated == m[key].snapshot.last_updated
                &&& after[key].snapshot.name == m[key].snapshot.name
                &&& after[key].snapshot.key == m[key].snapshot.key
                &&& after[key].refs == m[key].refs
            }
            &&& forall|k: Seq<char>|
                k != key && m.contains_key(k) ==> #[trigger] after[k] == m[k]
        }),
{
    assert(state::marked(m, key, now).dom() =~= m.dom());
}

/// A battery report connects its device and refreshes its liveness. What is
/// shown of the battery stays, with its time stamp, if the device was connected
/// and the report has the level and the charge state shown and is off by less
/// than 15 mV, 10 mA and 0.3 degrees; otherwise the whole report is shown, with
/// a new time stamp. Nothing else changes.
pub proof fn report_is_shown_or_is_jitter(
    m: Devices,
    key: Seq<char>,
    battery: BatteryStatus,
    now: i64,
    wall: UnixTime,
)
    ensures
        ({
            let after = state::reported(m, key, battery, now, wall);
            &&& after.dom() == m.dom()
            &&& forall|k: Seq<char>|
                k != key && m.contains_key(k) ==> #[trigger] after[k] == m[k]
            &&& m.contains_key(key) ==> {
                let was = m[key].snapshot;
                let is = after[key].snapshot;
                let jitter = was.connected && (was.battery matches Some(b) && {
                    &&& b.charge_state == battery.charge_state
                    &&& b.level == battery.level
                    &&& -15 < b.battery_voltage - battery.battery_voltage < 15
                    &&& -15 < b.system_voltage - battery.system_voltage < 15
                    &&& -15 < b.input_voltage - battery.input_voltage < 15
                    &&& -10 < b.current - battery.current < 10
                    &&& -10 < b.input_current - battery.input_current < 10
                    &&& -300 < b.temperature - battery.temperature < 300
                });
                &&& after[key].last_seen == Some(now)
                &&& after[key].refs == m[key].refs
                &&& is.connected
                &&& is.name == was.name
                &&& is.key == was.key
                &&& jitter ==> is.battery == was.battery && is.last_updated == was.last_updated
                &&& !jitter ==> is.battery == Some(battery) && is.last_updated == Some(wall)
            }
        }),
{
    assert(state::reported(m, key, battery, now, wall).dom() =~= m.dom());
}

/// Two reports differ by more than jitter if and only if the level or the
/// charge state differs, or a voltage by at least 15 mV, a current by at least
/// 10 mA or the temperature by at least 0.3 degrees; in whichever direction.
pub proof fn deadbands_are_exact(a: BatteryStatus, b: BatteryStatus)
    ensures
        state::is_significant(a, b) <==> {
            ||| a.charge_state != b.charge_state
            ||| a.level != b.level
            ||| !(-15 < a.battery_voltage - b.battery_voltage < 15)
            ||| !(-15 < a.system_voltage - b.system_voltage < 15)
            ||| !(-15 < a.input_voltage - b.input_voltage < 15)
            ||| !(-10 < a.current - b.current < 10)
            ||| !(-10 < a.input_current - b.input_current < 10)
            ||| !(-300 < a.temperature - b.temperature < 300)
        },
        state::is_significant(a, b) == state::is_significant(b, a),
        !state::is_significant(a, a),
{
}

/// A first reader makes a device that has not been seen and has no battery
/// values; a further one is only counted. No other device is changed.
pub proof fn acquire_only_counts(m: Devices, key: Seq<char>, name: Seq<char>)
    requires
        m.contains_key(key) ==> m[key].refs < usize::MAX,
    ensures
        ({
            let after = state::acquired(m, key, name);
            &&& after.dom() == m.dom().insert(key)
            &&& forall|k: Seq<char>|
                k != key && m.contains_key(k) ==> #[trigger] after[k] == m[k]
            &&& m.contains_key(key) ==> {
                &&& after[key].refs == m[key].refs + 1
                &&& after[key].snapshot == m[key].snapshot
                &&& after[key].last_seen == m[key].last_seen
            }
            &&& !m.contains_key(key) ==> {
                &&& after[key].refs == 1
                &&& after[key].last_seen is None
                &&& after[key].snapshot.key == key
                &&& after[key].snapshot.name == name
                &&& !after[key].snapshot.connected
                &&& after[key].snapshot.battery is None
                &&& after[key].snapshot.last_updated is None
            }
        }),
{
    assert(state::acquired(m, key, name).dom() =~= m.dom().insert(key));
}

/// A release of the last reader removes the device; any other one is only
/// counted. No other device is changed.
pub proof fn release_only_counts(m: Devices, key: Seq<char>)
    requires
        m.contains_key(key) ==> m[key].refs >= 1,
    ensures
        ({
            let after = state::released(m, key);
            &&& forall|k: Seq<char>|
                k != key ==> #[trigger] after.contains_key(k) == m.contains_key(k)
            &&& forall|k: Seq<char>|
                k != key && m.contains_key(k) ==> #[trigger] after[k] == m[k]
            &&& after.contains_key(key) <==> m.contains_key(key) && m[key].refs > 1
            &&& after.contains_key(key) ==> {
                &&& after[key].refs == m[key].refs - 1
                &&& after[key].snapshot == m[key].snapshot
                &&& after[key].last_seen == m[key].last_seen
            }
        }),
{
}

/// A sweep disconnects every connected device whose last traffic is more than
/// 10 seconds ago or was never seen, and no other. Such a device keeps
/// everything else, but for the time stamp of the battery values, where it has
/// any; every other device keeps everything.
pub proof fn sweep_disconnects_after_ten_seconds(
    m: Devices,
    now: i64,
    wall: UnixTime,
    key: Seq<char>,
)
    ensures
        state::swept(m, now, wall).dom() == m.dom(),
        m.contains_key(key) ==> {
            let was = m[key];
            let is = state::swept(m, now, wall)[key];
            let silent = match was.last_seen {
                Some(seen) => now - seen > 10_000_000_000,
                None => true,
            };
            &&& is.last_seen == was.last_seen
            &&& is.refs == was.refs
            &&& is.snapshot.key == was.snapshot.key
            &&& is.snapshot.name == was.snapshot.name
            &&& is.snapshot.battery == was.snapshot.battery
            &&& is.snapshot.connected <==> was.snapshot.connected && !silent
            &&& was.snapshot.connected && silent && was.snapshot.battery is Some
                ==> is.snapshot.last_updated == Some(wall)
            &&& !(was.snapshot.connected && silent && was.snapshot.battery is Some)
                ==> is.snapshot.last_updated == was.snapshot.last_updated
        },
{
    assert(state::swept(m, now, wall).dom() =~= m.dom());
}

/// A resume lets the last traffic of every connected device count as no later
/// than 8 seconds before it, and changes nothing else of any device.
pub proof fn resume_rewinds_by_eight_seconds(m: Devices, now: i64, key: Seq<char>)
    requires
        now - 8_000_000_000 >= i64::MIN,
    ensures
        state::resumed(m, now).dom() == m.dom(),
        m.contains_key(key) ==> {
            let was = m[key];
            let is = state::resumed(m, now)[key];
            &&& is.snapshot == was.snapshot
            &&& is.refs == was.refs
            &&& !was.snapshot.connected ==> is.last_seen == was.last_seen
            &&& was.snapshot.connected ==> is.last_seen is Some && is.last_seen->0 <= now
                - 8_000_000_000
            &&& was.snapshot.connected ==> is.last_seen == was.last_seen || is.last_seen->0 == now
                - 8_000_000_000
            &&& was.snapshot.connected && was.last_seen is Some && was.last_seen->0 <= now
                - 8_000_000_000 ==> is.last_seen == was.last_seen
        },
{
    assert(state::resumed(m, now).dom() =~= m.dom());
}

/// The next deadline is 10 seconds after the last traffic of some connected
/// device and of no connected one later than that; one whose traffic was never
/// seen counts as due when the deadline is asked for. There is none exactly
/// while no device is connected.
pub proof fn deadline_is_ten_seconds_after_traffic(m: Devices, asked: i64, d: int)
    ensures
        state::is_next_deadline(m, asked, d) <==> {
            &&& forall|k: Seq<char>| #[trigger]
                m.contains_key(k) && m[k].snapshot.connected ==> d <= match m[k].last_seen {
                    Some(seen) => seen + 10_000_000_000,
                    None => asked as int,
                }
            &&& exists|k: Seq<char>| #[trigger]
                m.contains_key(k) && m[k].snapshot.connected && d == match m[k].last_seen {
                    Some(seen) => seen + 10_000_000_000,
                    None => asked as int,
                }
        },
        state::none_connected(m) <==> forall|k: Seq<char>| #[trigger]
            m.contains_key(k) ==> !m[k].snapshot.connected,
{
    if state::is_next_deadline(m, asked, d) {
        let k = choose|k: Seq<char>| #[trigger]
            m.contains_key(k) && m[k].snapshot.connected && d == state::deadline_of(m[k], asked);
        assert(m.contains_key(k) && m[k].snapshot.connected);
        assert forall|k: Seq<char>| #[trigger]
            m.contains_key(k) && m[k].snapshot.connected implies d <= match m[k].last_seen {
            Some(seen) => seen + 10_000_000_000,
            None => asked as int,
        } by {
            assert(d <= state::deadline_of(m[k], asked));
        }
    }
    if (forall|k: Seq<char>| #[trigger]
        m.contains_key(k) && m[k].snapshot.connected ==> d <= match m[k].last_seen {
            Some(seen) => seen + 10_000_000_000,
            None => asked as int,
        }) && (exists|k: Seq<char>| #[trigger]
        m.contains_key(k) && m[k].snapshot.connected && d == match m[k].last_seen {
            Some(seen) => seen + 10_000_000_000,
            None => asked as int,
        }) {
        let k = choose|k: Seq<char>| #[trigger]
            m.contains_key(k) && m[k].snapshot.connected && d == match m[k].last_seen {
                Some(seen) => seen + 10_000_000_000,
                None => asked as int,
            };
        assert(m.contains_key(k) && m[k].snapshot.connected && d == state::deadline_of(
            m[k],
            asked,
        ));
        assert(state::some_stale_at(m, asked, d));
        assert(state::none_stale_before(m, asked, d));
    }
}

/// The models of a snapshot and of an entry show all that these hold.
pub proof fn snapshot_model_is_faithful(snap: state::DeviceSnapshot, entry: state::Entry)
    ensures
        snap@.key == snap.key@,
        snap@.name == snap.name@,
        snap@.connected == snap.connected,
        snap@.battery == snap.battery,
        snap@.last_updated == snap.last_updated,
        entry@.snapshot == entry.snapshot@,
        entry@.last_seen == entry.last_seen,
        entry@.refs == entry.refs,
{
}

/// The model of a list of snapshots holds the model of each, in their order.
pub proof fn snapshot_lists_are_faithful(snapshots: Seq<state::DeviceSnapshot>)
    ensures
        state::snapshot_views(snapshots).len() == snapshots.len(),
        forall|i: int|
            0 <= i < snapshots.len() ==> #[trigger] state::snapshot_views(snapshots)[i]
                == snapshots[i]@,
{
}

} // verus!
