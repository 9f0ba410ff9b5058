//! Central registry of controller state. It is fed by the hidraw readers and
//! publishes full snapshots over a `watch` channel, so that consumers can
//! compare at their own pace.
use crate::clock::{longer_than, UnixTime, SECOND};
use crate::key_map;
use crate::key_map::KeyMap;
use crate::protocol::BatteryStatus;
use tokio::sync::watch;
use vstd::prelude::*;

verus! {

/// How long without controller traffic before the controller counts as asleep
/// or off. Battery reports arrive about every 2.5 s and state reports at about
/// 266 Hz, so 10 s of silence means that the controller is gone (the puck
/// emits no explicit disconnect event).
pub const STALE_AFTER: i64 = 10 * SECOND;

/// How long after resume a device may stay silent before being swept. It
/// covers the latency with which a reader marks traffic again, so a controller
/// that survived suspend never flaps; one that died during sleep is reported
/// disconnected this soon after resume instead of `STALE_AFTER` later.
pub const RESUME_GRACE: i64 = 2 * SECOND;

/// Publish deadbands for the analog telemetry fields, applied against the last
/// *published* value. Publishing moves the reference, so nothing flaps at a
/// threshold while slow drift still adds up to a publication.
pub const DEADBAND_MV: u16 = 15;

pub const DEADBAND_MA: u16 = 10;

pub const DEADBAND_MC: u16 = 300;

/// The distance between two readings.
pub open spec fn distance(a: u16, b: u16) -> int {
    if a < b {
        b - a
    } else {
        a - b
    }
}

fn abs_diff(a: u16, b: u16) -> (r: u16)
    ensures
        r == distance(a, b),
{
    if a < b {
        b - a
    } else {
        a - b
    }
}

/// `new` differs from the last published `old` by more than jitter.
pub open spec fn is_significant(old: BatteryStatus, new: BatteryStatus) -> bool {
    ||| old.charge_state != new.charge_state
    ||| old.level != new.level
    ||| distance(old.battery_voltage, new.battery_voltage) >= DEADBAND_MV
    ||| distance(old.system_voltage, new.system_voltage) >= DEADBAND_MV
    ||| distance(old.input_voltage, new.input_voltage) >= DEADBAND_MV
    ||| distance(old.current, new.current) >= DEADBAND_MA
    ||| distance(old.input_current, new.input_current) >= DEADBAND_MA
    ||| distance(old.temperature, new.temperature) >= DEADBAND_MC
}

/// Whether `new` differs enough from the last published `old` to be worth
/// waking every D-Bus client on the machine.
pub fn significant(old: &BatteryStatus, new: &BatteryStatus) -> (r: bool)
    ensures
        r == is_significant(*old, *new),
{
    old.charge_state != new.charge_state || old.level != new.level || abs_diff(
        old.battery_voltage,
        new.battery_voltage,
    ) >= DEADBAND_MV || abs_diff(old.system_voltage, new.system_voltage) >= DEADBAND_MV || abs_diff(
        old.input_voltage,
        new.input_voltage,
    ) >= DEADBAND_MV || abs_diff(old.current, new.current) >= DEADBAND_MA || abs_diff(
        old.input_current,
        new.input_current,
    ) >= DEADBAND_MA || abs_diff(old.temperature, new.temperature) >= DEADBAND_MC
}

/// What the rest of the program gets to see of a device.
#[derive(Debug, PartialEq, Eq)]
pub struct DeviceSnapshot {
    /// Stable identity, e.g. `<usb syspath>/slot0`.
    pub key: String,
    /// Human label, e.g. "Steam Controller (puck slot 0)".
    pub name: String,
    /// Controller traffic seen within `STALE_AFTER`.
    pub connected: bool,
    /// Last *published* battery report (see [`significant`]); retained while
    /// disconnected.
    pub battery: Option<BatteryStatus>,
    /// Wall-clock time of the last published battery change; for a
    /// disconnected device, of the moment at which it was found silent.
    pub last_updated: Option<UnixTime>,
}

/// The model of a snapshot.
#[verifier::ext_equal]
pub struct SnapshotView {
    pub key: Seq<char>,
    pub name: Seq<char>,
    pub connected: bool,
    pub battery: Option<BatteryStatus>,
    pub last_updated: Option<UnixTime>,
}

impl View for DeviceSnapshot {
    type V = SnapshotView;

    open spec fn view(&self) -> SnapshotView {
        SnapshotView {
            key: self.key@,
            name: self.name@,
            connected: self.connected,
            battery: self.battery,
            last_updated: self.last_updated,
        }
    }
}

impl Clone for DeviceSnapshot {
    fn clone(&self) -> (r: Self)
        ensures
            r == *self,
    {
        DeviceSnapshot {
            key: self.key.clone(),
            name: self.name.clone(),
            connected: self.connected,
            battery: self.battery,
            last_updated: self.last_updated,
        }
    }
}

fn same_battery(a: &Option<BatteryStatus>, b: &Option<BatteryStatus>) -> (r: bool)
    ensures
        r == (*a == *b),
{
    match (a, b) {
        (Some(x), Some(y)) => *x == *y,
        (None, None) => true,
        _ => false,
    }
}

fn same_time(a: &Option<UnixTime>, b: &Option<UnixTime>) -> (r: bool)
    ensures
        r == (*a == *b),
{
    match (a, b) {
        (Some(x), Some(y)) => *x == *y,
        (None, None) => true,
        _ => false,
    }
}

impl DeviceSnapshot {
    /// Whether two snapshots say the same.
    pub fn same_as(&self, other: &DeviceSnapshot) -> (r: bool)
        ensures
            r == (self@ == other@),
    {
        self.key == other.key && self.name == other.name && self.connected == other.connected
            && same_battery(&self.battery, &other.battery) && same_time(
            &self.last_updated,
            &other.last_updated,
        )
    }
}

/// The models of a list of snapshots.
pub open spec fn snapshot_views(snapshots: Seq<DeviceSnapshot>) -> Seq<SnapshotView> {
    Seq::new(snapshots.len(), |i: int| snapshots[i]@)
}

fn same_snapshots(a: &Vec<DeviceSnapshot>, b: &Vec<DeviceSnapshot>) -> (r: bool)
    ensures
        r == (snapshot_views(a@) == snapshot_views(b@)),
{
    if a.len() != b.len() {
        assert(snapshot_views(a@).len() != snapshot_views(b@).len());
        return false;
    }
    let mut i: usize = 0;
    while i < a.len()
        invariant
            a@.len() == b@.len(),
            i <= a@.len(),
            forall|j: int| 0 <= j < i ==> a@[j]@ == b@[j]@,
        decreases a@.len() - i,
    {
        if !a[i].same_as(&b[i]) {
            assert(snapshot_views(a@)[i as int] != snapshot_views(b@)[i as int]);
            return false;
        }
        i = i + 1;
    }
    assert(snapshot_views(a@) =~= snapshot_views(b@));
    true
}

/// Puts `snapshots` in the place of `current` unless they say the same, and
/// says whether it did.
fn replace_if_changed(current: &mut Vec<DeviceSnapshot>, snapshots: Vec<DeviceSnapshot>) -> (r:
    bool)
    ensures
        snapshot_views(final(current)@) == snapshot_views(snapshots@),
        r == (snapshot_views(old(current)@) != snapshot_views(snapshots@)),
        !r ==> *final(current) == *old(current),
{
    if same_snapshots(current, &snapshots) {
        false
    } else {
        *current = snapshots;
        true
    }
}

#[verifier::external_type_specification]
#[verifier::external_body]
#[verifier::reject_recursive_types(T)]
pub struct ExSender<T>(watch::Sender<T>);

#[verifier::external_type_specification]
#[verifier::external_body]
#[verifier::reject_recursive_types(T)]
pub struct ExReceiver<T>(watch::Receiver<T>);

/// The values that the channel of a sender has held, in the order in which
/// they were put there; the last one is what receivers read now.
pub uninterp spec fn values_held(tx: watch::Sender<Vec<DeviceSnapshot>>) -> Seq<Seq<SnapshotView>>;

/// Which channel a sender belongs to.
pub uninterp spec fn sender_channel(tx: watch::Sender<Vec<DeviceSnapshot>>) -> int;

/// Which channel a receiver belongs to.
pub uninterp spec fn receiver_channel(rx: watch::Receiver<Vec<DeviceSnapshot>>) -> int;

/// How many of the values that its channel has held count as seen by a
/// receiver.
pub uninterp spec fn values_seen(rx: watch::Receiver<Vec<DeviceSnapshot>>) -> nat;

/// What a channel has held once `value` has been offered to it: a value that
/// says the same as the current one is not put there.
pub open spec fn offered(held: Seq<Seq<SnapshotView>>, value: Seq<SnapshotView>) -> Seq<
    Seq<SnapshotView>,
> {
    if held.last() == value {
        held
    } else {
        held.push(value)
    }
}

/// Calls `tokio::sync::watch::channel`: a new channel that holds `init`, with
/// its sender and a first receiver, which counts `init` as seen.
#[verifier::external_body]
fn new_channel(init: Vec<DeviceSnapshot>) -> (r: (
    watch::Sender<Vec<DeviceSnapshot>>,
    watch::Receiver<Vec<DeviceSnapshot>>,
))
    ensures
        values_held(r.0) == seq![snapshot_views(init@)],
        receiver_channel(r.1) == sender_channel(r.0),
        values_seen(r.1) == 1,
{
    watch::channel(init)
}

/// Calls `tokio::sync::watch::Sender::subscribe`: a receiver of the sender's
/// channel, which counts all that was put there before as seen.
#[verifier::external_body]
fn receiver_of(tx: &watch::Sender<Vec<DeviceSnapshot>>) -> (rx: watch::Receiver<
    Vec<DeviceSnapshot>,
>)
    ensures
        receiver_channel(rx) == sender_channel(*tx),
        values_seen(rx) == values_held(*tx).len(),
{
    tx.subscribe()
}

/// Calls `tokio::sync::watch::Sender::send_if_modified`, which lets
/// [`replace_if_changed`] loose on the channel's value: a value that says
/// something else is put in its place and receivers are notified, one that
/// says the same leaves the channel as it was. The sender is the only one of
/// its channel and is borrowed mutably, so nothing else changes the value.
#[verifier::external_body]
fn send_if_changed(tx: &mut watch::Sender<Vec<DeviceSnapshot>>, snapshots: Vec<DeviceSnapshot>) -> (
r: bool)
    requires
        values_held(*old(tx)).len() > 0,
    ensures
        values_held(*final(tx)) == offered(values_held(*old(tx)), snapshot_views(snapshots@)),
        sender_channel(*final(tx)) == sender_channel(*old(tx)),
        r == (values_held(*old(tx)).last() != snapshot_views(snapshots@)),
{
    tx.send_if_modified(|current| replace_if_changed(current, snapshots))
}

/// A device, with what the registry alone knows of it.
#[derive(Debug, PartialEq, Eq)]
pub struct Entry {
    pub snapshot: DeviceSnapshot,
    /// When traffic was last seen, on the monotonic clock.
    pub last_seen: Option<i64>,
    /// Number of hidraw readers feeding this entry (a wired controller may
    /// expose several HID interfaces that share one logical device).
    pub refs: usize,
}

/// The model of an entry.
#[verifier::ext_equal]
pub struct EntryView {
    pub snapshot: SnapshotView,
    pub last_seen: Option<i64>,
    pub refs: usize,
}

impl View for Entry {
    type V = EntryView;

    open spec fn view(&self) -> EntryView {
        EntryView { snapshot: self.snapshot@, last_seen: self.last_seen, refs: self.refs }
    }
}

/// The state of the registry: its devices, by key.
pub type Devices = Map<Seq<char>, EntryView>;

/// The snapshots of all devices, in key order.
pub open spec fn listing(m: Devices) -> Seq<SnapshotView> {
    let items = key_map::items_of(m.map_values(|e: EntryView| e.snapshot));
    Seq::new(items.len(), |i: int| items[i].1)
}

/// A device that has just been registered: one reader, nothing seen yet.
pub open spec fn fresh(key: Seq<char>, name: Seq<char>) -> EntryView {
    EntryView {
        snapshot: SnapshotView { key, name, connected: false, battery: None, last_updated: None },
        last_seen: None,
        refs: 1,
    }
}

/// One more reader for `key`.
pub open spec fn acquired(m: Devices, key: Seq<char>, name: Seq<char>) -> Devices {
    if m.contains_key(key) {
        m.insert(key, EntryView { refs: (m[key].refs + 1) as usize, ..m[key] })
    } else {
        m.insert(key, fresh(key, name))
    }
}

/// One reader less for `key`; the last one takes the device along.
pub open spec fn released(m: Devices, key: Seq<char>) -> Devices {
    if !m.contains_key(key) {
        m
    } else if m[key].refs <= 1 {
        m.remove(key)
    } else {
        m.insert(key, EntryView { refs: (m[key].refs - 1) as usize, ..m[key] })
    }
}

/// Traffic of `key` at `now`.
pub open spec fn marked(m: Devices, key: Seq<char>, now: i64) -> Devices {
    if m.contains_key(key) {
        m.insert(
            key,
            EntryView {
                snapshot: SnapshotView { connected: true, ..m[key].snapshot },
                last_seen: Some(now),
                ..m[key]
            },
        )
    } else {
        m
    }
}

/// A battery report is worth publishing: the device was not connected, has had
/// no report yet, or the report differs from the published one by more than
/// jitter.
pub open spec fn worth_publishing(e: EntryView, battery: BatteryStatus) -> bool {
    ||| !e.snapshot.connected
    ||| e.snapshot.battery is None
    ||| is_significant(e.snapshot.battery->0, battery)
}

/// A device after a battery report.
pub open spec fn reported_entry(
    e: EntryView,
    battery: BatteryStatus,
    now: i64,
    wall: UnixTime,
) -> EntryView {
    if worth_publishing(e, battery) {
        EntryView {
            snapshot: SnapshotView {
                connected: true,
                battery: Some(battery),
                last_updated: Some(wall),
                ..e.snapshot
            },
            last_seen: Some(now),
            ..e
        }
    } else {
        EntryView { last_seen: Some(now), ..e }
    }
}

/// A battery report of `key` at `now`, which the wall clock calls `wall`.
pub open spec fn reported(
    m: Devices,
    key: Seq<char>,
    battery: BatteryStatus,
    now: i64,
    wall: UnixTime,
) -> Devices {
    if m.contains_key(key) {
        m.insert(key, reported_entry(m[key], battery, now, wall))
    } else {
        m
    }
}

/// A connected device that has been silent for longer than `STALE_AFTER`.
pub open spec fn is_stale(e: EntryView, now: i64) -> bool {
    e.snapshot.connected && (e.last_seen is Some ==> now - e.last_seen->0 > STALE_AFTER)
}

/// A device after a sweep: a stale one is disconnected; it keeps its battery
/// values, and they are stamped with the moment up to which they held.
pub open spec fn swept_entry(e: EntryView, now: i64, wall: UnixTime) -> EntryView {
    if is_stale(e, now) {
        EntryView {
            snapshot: SnapshotView {
                connected: false,
                last_updated: if e.snapshot.battery is Some {
                    Some(wall)
                } else {
                    e.snapshot.last_updated
                },
                ..e.snapshot
            },
            ..e
        }
    } else {
        e
    }
}

/// A sweep at `now`, which the wall clock calls `wall`.
pub open spec fn swept(m: Devices, now: i64, wall: UnixTime) -> Devices {
    m.map_values(|e: EntryView| swept_entry(e, now, wall))
}

/// A device after a resume: traffic of a connected one counts as no later than
/// `RESUME_GRACE` before it would go stale.
pub open spec fn resumed_entry(e: EntryView, now: i64) -> EntryView {
    let cutoff = now - (STALE_AFTER - RESUME_GRACE);
    if e.snapshot.connected && cutoff >= i64::MIN {
        EntryView {
            last_seen: if e.last_seen is Some && e.last_seen->0 <= cutoff {
                e.last_seen
            } else {
                Some(cutoff as i64)
            },
            ..e
        }
    } else {
        e
    }
}

/// A resume at `now`.
pub open spec fn resumed(m: Devices, now: i64) -> Devices {
    m.map_values(|e: EntryView| resumed_entry(e, now))
}

/// When a device goes stale; one whose traffic was never seen is stale now.
pub open spec fn deadline_of(e: EntryView, now: i64) -> int {
    if e.last_seen is Some {
        e.last_seen->0 + STALE_AFTER
    } else {
        now as int
    }
}

/// No connected device goes stale before `d`.
pub open spec fn none_stale_before(m: Devices, now: i64, d: int) -> bool {
    forall|k: Seq<char>| #[trigger]
        m.contains_key(k) && m[k].snapshot.connected ==> d <= deadline_of(m[k], now)
}

/// Some connected device goes stale at `d`.
pub open spec fn some_stale_at(m: Devices, now: i64, d: int) -> bool {
    exists|k: Seq<char>| #[trigger]
        m.contains_key(k) && m[k].snapshot.connected && d == deadline_of(m[k], now)
}

/// `d` is when the next device goes stale.
pub open spec fn is_next_deadline(m: Devices, now: i64, d: int) -> bool {
    none_stale_before(m, now, d) && some_stale_at(m, now, d)
}

/// Every connected device has been seen.
pub open spec fn connected_seen(m: Devices) -> bool {
    forall|k: Seq<char>| #[trigger]
        m.contains_key(k) && m[k].snapshot.connected ==> m[k].last_seen is Some
}

/// No device is connected.
pub open spec fn none_connected(m: Devices) -> bool {
    forall|k: Seq<char>| #[trigger] m.contains_key(k) ==> !m[k].snapshot.connected
}

/// Every deadline is a reading that the monotonic clock can have.
pub open spec fn deadlines_fit(m: Devices) -> bool {
    forall|k: Seq<char>| #[trigger]
        m.contains_key(k) && m[k].snapshot.connected && m[k].last_seen is Some ==> m[k].last_seen->0
            + STALE_AFTER <= i64::MAX
}

/// What holds of every device: it is filed under its own key, has a reader,
/// and has a time stamp if and only if it has battery values.
pub open spec fn entry_ok(key: Seq<char>, e: EntryView) -> bool {
    &&& e.snapshot.key == key
    &&& e.refs >= 1
    &&& e.snapshot.battery is Some <==> e.snapshot.last_updated is Some
}

/// The devices, and the channel on which their snapshots are published.
pub struct Registry {
    pub inner: KeyMap<Entry>,
    tx: watch::Sender<Vec<DeviceSnapshot>>,
}

impl View for Registry {
    type V = Devices;

    closed spec fn view(&self) -> Devices {
        self.inner@.map_values(|e: Entry| e@)
    }
}

impl Registry {
    /// Every list of snapshots that has been published, in order.
    pub closed spec fn history(&self) -> Seq<Seq<SnapshotView>> {
        values_held(self.tx)
    }

    /// The channel on which snapshots are published.
    pub closed spec fn channel(&self) -> int {
        sender_channel(self.tx)
    }

    /// The devices are kept in key order, each key once.
    pub closed spec fn in_order(&self) -> bool {
        self.inner.wf()
    }

    /// The devices are sound, and what was published last is what they are.
    pub open spec fn wf(&self) -> bool {
        &&& self.in_order()
        &&& forall|k: Seq<char>| #[trigger] self@.contains_key(k) ==> entry_ok(k, self@[k])
        &&& self.history().len() > 0
        &&& self.history().last() == listing(self@)
    }

    /// A registry without devices; the empty list is published.
    pub fn new() -> (r: Self)
        ensures
            r.wf(),
            r@ == Map::<Seq<char>, EntryView>::empty(),
            r.history() == seq![Seq::<SnapshotView>::empty()],
            connected_seen(r@),
    {
        let (tx, _) = new_channel(Vec::new());
        let r = Registry { inner: KeyMap::new(), tx };
        proof {
            r.lemma_listing();
            assert(r@ =~= Map::<Seq<char>, EntryView>::empty());
            assert(snapshot_views(Seq::<DeviceSnapshot>::empty()) =~= Seq::<SnapshotView>::empty());
            assert(listing(r@) =~= Seq::<SnapshotView>::empty());
        }
        r
    }

    /// A receiver of the published snapshots. All that was published before
    /// counts as seen by it.
    pub fn subscribe(&self) -> (rx: watch::Receiver<Vec<DeviceSnapshot>>)
        ensures
            receiver_channel(rx) == self.channel(),
            values_seen(rx) == self.history().len(),
    {
        receiver_of(&self.tx)
    }

    proof fn lemma_listing(&self)
        requires
            self.inner.wf(),
        ensures
            listing(self@) == Seq::new(
                self.inner.items().len(),
                |i: int| self.inner.items()[i].1.snapshot@,
            ),
    {
        let items = self.inner.items();
        key_map::lemma_over_values(items, |e: Entry| e.snapshot@);
        assert(self@.map_values(|e: EntryView| e.snapshot) =~= self.inner@.map_values(
            |e: Entry| e.snapshot@,
        ));
        assert(listing(self@) =~= Seq::new(items.len(), |i: int| items[i].1.snapshot@));
    }

    /// The snapshots of the devices have a listing in key order.
    pub proof fn lemma_has_listing(&self)
        requires
            self.wf(),
        ensures
            ({
                let snapshots = self@.map_values(|e: EntryView| e.snapshot);
                let items = key_map::items_of(snapshots);
                key_map::in_key_order(items) && key_map::map_of(items) == snapshots
            }),
    {
        let items = self.inner.items();
        key_map::lemma_over_values(items, |e: Entry| e.snapshot@);
        assert(self@.map_values(|e: EntryView| e.snapshot) =~= self.inner@.map_values(
            |e: Entry| e.snapshot@,
        ));
    }

    /// Publishes the snapshots as they are now, unless they say what was
    /// published last.
    fn publish(&mut self)
        requires
            old(self).inner.wf(),
            old(self).history().len() > 0,
        ensures
            final(self).inner == old(self).inner,
            final(self).channel() == old(self).channel(),
            final(self).history() == offered(old(self).history(), listing(old(self)@)),
    {
        let mut snapshots: Vec<DeviceSnapshot> = Vec::new();
        let mut i: usize = 0;
        while i < self.inner.len()
            invariant
                i <= self.inner.items().len(),
                snapshots@.len() == i,
                forall|j: int|
                    0 <= j < i ==> snapshots@[j]@ == (
                    #[trigger] self.inner.items()[j]).1.snapshot@,
                *self == *old(self),
            decreases self.inner.items().len() - i,
        {
            snapshots.push(self.inner.value_at(i).snapshot.clone());
            i = i + 1;
        }
        proof {
            self.lemma_listing();
            assert(snapshot_views(snapshots@) =~= listing(self@));
        }
        send_if_changed(&mut self.tx, snapshots);
    }

    /// Register a reader for `key`, creating the device entry if new.
    pub fn acquire(&mut self, key: &str, name: &str)
        requires
            old(self).wf(),
            old(self)@.contains_key(key@) ==> old(self)@[key@].refs < usize::MAX,
        ensures
            final(self).wf(),
            final(self)@ == acquired(old(self)@, key@, name@),
            final(self).history() == offered(old(self).history(), listing(final(self)@)),
            final(self).channel() == old(self).channel(),
            connected_seen(old(self)@) ==> connected_seen(final(self)@),
    {
        if let Some(entry) = self.inner.get_mut(key) {
            // Nothing visible changes on a ref bump.
            entry.refs = entry.refs + 1;
            proof {
                self.lemma_same_snapshots(old(self)@);
            }
            assert(self@ =~= acquired(old(self)@, key@, name@));
            return;
        }
        self.inner.insert(
            key.to_owned(),
            Entry {
                snapshot: DeviceSnapshot {
                    key: key.to_owned(),
                    name: name.to_owned(),
                    connected: false,
                    battery: None,
                    last_updated: None,
                },
                last_seen: None,
                refs: 1,
            },
        );
        assert(self@ =~= acquired(old(self)@, key@, name@));
        self.publish();
    }

    /// Drop a reader for `key`; removes the device once no readers remain.
    pub fn release(&mut self, key: &str)
        requires
            old(self).wf(),
        ensures
            final(self).wf(),
            final(self)@ == released(old(self)@, key@),
            final(self).history() == offered(old(self).history(), listing(final(self)@)),
            final(self).channel() == old(self).channel(),
            connected_seen(old(self)@) ==> connected_seen(final(self)@),
    {
        let mut unused: bool = false;
        if let Some(entry) = self.inner.get_mut(key) {
            entry.refs = entry.refs.saturating_sub(1);
            unused = entry.refs == 0;
        }
        if unused {
            self.inner.remove(key);
            assert(self@ =~= released(old(self)@, key@));
            self.publish();
        } else {
            assert(self@ =~= released(old(self)@, key@));
            proof {
                self.lemma_same_snapshots(old(self)@);
            }
        }
    }

    /// Called on controller traffic (throttled by the reader). Only publishes
    /// when the connected flag flips. Says whether the sweeper has to look at
    /// its deadline again.
    pub fn mark_traffic(&mut self, key: &str, now: i64) -> (wake: bool)
        requires
            old(self).wf(),
        ensures
            final(self).wf(),
            final(self)@ == marked(old(self)@, key@, now),
            final(self).history() == offered(old(self).history(), listing(final(self)@)),
            final(self).channel() == old(self).channel(),
            connected_seen(old(self)@) ==> connected_seen(final(self)@),
            wake == (old(self)@.contains_key(key@) && !old(self)@[key@].snapshot.connected),
    {
        let mut newly_connected: bool = false;
        if let Some(entry) = self.inner.get_mut(key) {
            entry.last_seen = Some(now);
            if !entry.snapshot.connected {
                entry.snapshot.connected = true;
                newly_connected = true;
            }
        }
        assert(self@ =~= marked(old(self)@, key@, now));
        if newly_connected {
            self.publish();
        } else {
            proof {
                self.lemma_same_snapshots(old(self)@);
            }
        }
        newly_connected
    }

    /// Record a battery report. Always refreshes liveness, but the snapshot
    /// only sees it when something [`significant`] changed: jitter leaves the
    /// published state untouched. Says whether the sweeper has to look at its
    /// deadline again.
    pub fn update_battery(
        &mut self,
        key: &str,
        battery: BatteryStatus,
        now: i64,
        wall: UnixTime,
    ) -> (wake: bool)
        requires
            old(self).wf(),
        ensures
            final(self).wf(),
            final(self)@ == reported(old(self)@, key@, battery, now, wall),
            final(self).history() == offered(old(self).history(), listing(final(self)@)),
            final(self).channel() == old(self).channel(),
            connected_seen(old(self)@) ==> connected_seen(final(self)@),
            wake == (old(self)@.contains_key(key@) && !old(self)@[key@].snapshot.connected),
    {
        let mut newly_connected: bool = false;
        let mut publish: bool = false;
        if let Some(entry) = self.inner.get_mut(key) {
            entry.last_seen = Some(now);
            newly_connected = !entry.snapshot.connected;
            publish = newly_connected || match &entry.snapshot.battery {
                Some(published) => significant(published, &battery),
                None => true,
            };
            if publish {
                entry.snapshot.connected = true;
                entry.snapshot.battery = Some(battery);
                entry.snapshot.last_updated = Some(wall);
            }
        }
        assert(self@ =~= reported(old(self)@, key@, battery, now, wall));
        if publish {
            self.publish();
        } else {
            proof {
                self.lemma_same_snapshots(old(self)@);
            }
        }
        newly_connected
    }

    /// Flip `connected` off for entries silent longer than `STALE_AFTER`, and
    /// stamp the battery values that they keep.
    pub fn sweep(&mut self, now: i64, wall: UnixTime)
        requires
            old(self).wf(),
        ensures
            final(self).wf(),
            final(self)@ == swept(old(self)@, now, wall),
            final(self).history() == offered(old(self).history(), listing(final(self)@)),
            final(self).channel() == old(self).channel(),
            connected_seen(old(self)@) ==> connected_seen(final(self)@),
    {
        let ghost before = self.inner.items();
        let ghost after = |e: Entry| swept_entry(e@, now, wall);
        let mut changed: bool = false;
        let mut i: usize = 0;
        while i < self.inner.len()
            invariant
                before == old(self).inner.items(),
                after == (|e: Entry| swept_entry(e@, now, wall)),
                self.inner.wf(),
                self.tx == old(self).tx,
                self.inner.items().len() == before.len(),
                i <= before.len(),
                forall|j: int|
                    0 <= j < before.len() ==> (#[trigger] self.inner.items()[j]).0 == before[j].0,
                forall|j: int|
                    0 <= j < i ==> (#[trigger] self.inner.items()[j]).1@ == after(before[j].1),
                forall|j: int|
                    i <= j < before.len() ==> #[trigger] self.inner.items()[j] == before[j],
                !changed ==> forall|j: int|
                    0 <= j < i ==> !is_stale((#[trigger] before[j]).1@, now),
            decreases before.len() - i,
        {
            let ghost items = self.inner.items();
            let entry = self.inner.value_at_mut(i);
            let silent: bool = match entry.last_seen {
                Some(seen) => longer_than(seen, now, STALE_AFTER),
                None => true,
            };
            if entry.snapshot.connected && silent {
                entry.snapshot.connected = false;
                if entry.snapshot.battery.is_some() {
                    entry.snapshot.last_updated = Some(wall);
                }
                changed = true;
            }
            proof {
                key_map::lemma_update(items, i as int, self.inner.items()[i as int].1);
            }
            i = i + 1;
        }
        proof {
            self.lemma_each(before, after);
            assert(swept(old(self)@, now, wall) =~= old(self).inner@.map_values(after));
        }
        if changed {
            self.publish();
        } else {
            proof {
                assert forall|k: Seq<char>| #[trigger] self@.contains_key(k) implies self@[k]
                    == old(self)@[k] by {
                    let p = key_map::place_of(before, k);
                    assert(key_map::has_key(before, k));
                    assert(before[p].0 == k);
                }
                self.lemma_same_snapshots(old(self)@);
            }
        }
    }

    /// The monotonic clock does not advance during suspend, so on resume every
    /// connected device still looks fresh even if it died hours ago. Rewind
    /// `last_seen` so that silence is noticed `RESUME_GRACE` from now. Says
    /// whether the sweeper has to look at its deadline again, which it does.
    pub fn note_resume(&mut self, now: i64) -> (wake: bool)
        requires
            old(self).wf(),
        ensures
            final(self).wf(),
            final(self)@ == resumed(old(self)@, now),
            final(self).history() == old(self).history(),
            final(self).channel() == old(self).channel(),
            connected_seen(old(self)@) ==> connected_seen(final(self)@),
            wake,
    {
        let ghost before = self.inner.items();
        let ghost after = |e: Entry| resumed_entry(e@, now);
        if let Some(cutoff) = now.checked_sub(STALE_AFTER - RESUME_GRACE) {
            let mut i: usize = 0;
            while i < self.inner.len()
                invariant
                    before == old(self).inner.items(),
                    after == (|e: Entry| resumed_entry(e@, now)),
                    cutoff == now - (STALE_AFTER - RESUME_GRACE),
                    self.inner.wf(),
                    self.tx == old(self).tx,
                    self.inner.items().len() == before.len(),
                    i <= before.len(),
                    forall|j: int|
                        0 <= j < before.len() ==> (#[trigger] self.inner.items()[j]).0
                            == before[j].0,
                    forall|j: int|
                        0 <= j < i ==> (#[trigger] self.inner.items()[j]).1@ == after(before[j].1),
                    forall|j: int|
                        i <= j < before.len() ==> #[trigger] self.inner.items()[j] == before[j],
                decreases before.len() - i,
            {
                let ghost items = self.inner.items();
                let entry = self.inner.value_at_mut(i);
                if entry.snapshot.connected {
                    entry.last_seen = match entry.last_seen {
                        Some(seen) if seen < cutoff => Some(seen),
                        _ => Some(cutoff),
                    };
                }
                proof {
                    key_map::lemma_update(items, i as int, self.inner.items()[i as int].1);
                }
                i = i + 1;
            }
        }
        proof {
            self.lemma_each(before, after);
            assert(resumed(old(self)@, now) =~= old(self).inner@.map_values(after));
            self.lemma_same_snapshots(old(self)@);
        }
        true
    }

    /// Earliest `last_seen + STALE_AFTER` over connected devices; `None` when
    /// nothing is connected (the sweeper can park without any timer).
    pub fn next_deadline(&self, now: i64) -> (r: Option<i64>)
        requires
            self.wf(),
            deadlines_fit(self@),
        ensures
            match r {
                Some(d) => is_next_deadline(self@, now, d as int),
                None => none_connected(self@),
            },
    {
        let ghost items = self.inner.items();
        let mut next: Option<i64> = None;
        let mut i: usize = 0;
        while i < self.inner.len()
            invariant
                self.wf(),
                deadlines_fit(self@),
                items == self.inner.items(),
                i <= items.len(),
                match next {
                    Some(d) => some_stale_at(self@, now, d as int) && forall|j: int|
                        0 <= j < i && (#[trigger] items[j]).1.snapshot.connected ==> d
                            <= deadline_of(items[j].1@, now),
                    None => forall|j: int|
                        0 <= j < i ==> !(#[trigger] items[j]).1.snapshot.connected,
                },
            decreases items.len() - i,
        {
            let entry = self.inner.value_at(i);
            proof {
                key_map::lemma_place(items, i as int);
                assert(self@.contains_key(items[i as int].0));
                assert(self@[items[i as int].0] == entry@);
            }
            if entry.snapshot.connected {
                let deadline: i64 = match entry.last_seen {
                    Some(seen) => seen + STALE_AFTER,
                    None => now,
                };
                next = match next {
                    Some(d) if d <= deadline => Some(d),
                    _ => Some(deadline),
                };
            }
            i = i + 1;
        }
        proof {
            assert forall|k: Seq<char>| #[trigger] self@.contains_key(k) implies exists|j: int|
                0 <= j < items.len() && (#[trigger] items[j]).0 == k && items[j].1@ == self@[k] by {
                assert(key_map::has_key(items, k));
                let j = key_map::place_of(items, k);
                assert(0 <= j < items.len() && items[j].0 == k);
            }
        }
        next
    }

    /// Devices that were changed one by one are changed as a whole.
    proof fn lemma_each(&self, before: Seq<(Seq<char>, Entry)>, after: spec_fn(Entry) -> EntryView)
        requires
            self.inner.wf(),
            key_map::in_key_order(before),
            self.inner.items().len() == before.len(),
            forall|j: int|
                0 <= j < before.len() ==> (#[trigger] self.inner.items()[j]).0 == before[j].0,
            forall|j: int|
                0 <= j < before.len() ==> (#[trigger] self.inner.items()[j]).1@ == after(
                    before[j].1,
                ),
        ensures
            self@ == key_map::map_of(before).map_values(after),
    {
        let items = self.inner.items();
        key_map::lemma_over_values(items, |e: Entry| e@);
        key_map::lemma_over_values(before, after);
        assert(key_map::over_values(items, |e: Entry| e@) =~= key_map::over_values(
            before,
            after,
        ));
    }

    /// Devices whose snapshots are as before are listed as before.
    proof fn lemma_same_snapshots(&self, before: Devices)
        requires
            self@.dom() =~= before.dom(),
            forall|k: Seq<char>| #[trigger]
                self@.contains_key(k) ==> self@[k].snapshot == before[k].snapshot,
        ensures
            listing(self@) == listing(before),
    {
        assert(self@.map_values(|e: EntryView| e.snapshot) =~= before.map_values(
            |e: EntryView| e.snapshot,
        ));
    }
}

} // verus!
