//! The device objects on the bus as a mirror of the registry: which object
//! each device has, and what a new list of snapshots changes.
use crate::dbus;
use crate::dbus::{changed_props, Property};
use crate::interface::PropertyValue;
use crate::key_map;
use crate::key_map::KeyMap;
use crate::state;
use crate::state::{DeviceSnapshot, SnapshotView};
use vstd::prelude::*;

verus! {

/// A device object: the number in its path, and the snapshot that it shows.
#[derive(Debug, PartialEq, Eq)]
pub struct Served {
    pub index: usize,
    pub snapshot: DeviceSnapshot,
}

/// The model of a device object.
#[verifier::ext_equal]
pub struct ServedView {
    pub index: usize,
    pub snapshot: SnapshotView,
}

impl View for Served {
    type V = ServedView;

    open spec fn view(&self) -> ServedView {
        ServedView { index: self.index, snapshot: self.snapshot@ }
    }
}

/// What to do to the objects on the bus.
#[derive(Debug, PartialEq, Eq)]
pub enum Change {
    /// Take the object away.
    Remove(usize),
    /// Let the object show another snapshot, and signal these properties if
    /// there are any.
    Update { index: usize, snapshot: DeviceSnapshot, changed: Vec<(&'static str, PropertyValue)> },
    /// Put up an object that shows this snapshot.
    Add { index: usize, snapshot: DeviceSnapshot },
    /// List these objects on the root object, and signal that.
    List(Vec<usize>),
}

/// The model of a change.
pub enum ChangeView {
    Remove(usize),
    Update { index: usize, snapshot: SnapshotView, changed: Seq<Property> },
    Add { index: usize, snapshot: SnapshotView },
    List(Seq<usize>),
}

impl View for Change {
    type V = ChangeView;

    open spec fn view(&self) -> ChangeView {
        match self {
            Change::Remove(index) => ChangeView::Remove(*index),
            Change::Update { index, snapshot, changed } => ChangeView::Update {
                index: *index,
                snapshot: snapshot@,
                changed: dbus::property_views(changed@),
            },
            Change::Add { index, snapshot } => ChangeView::Add {
                index: *index,
                snapshot: snapshot@,
            },
            Change::List(indices) => ChangeView::List(indices@),
        }
    }
}

/// The models of a list of changes.
pub open spec fn change_views(changes: Seq<Change>) -> Seq<ChangeView> {
    Seq::new(changes.len(), |i: int| changes[i]@)
}

/// The objects, by the key of the device that each belongs to.
pub type Objects = Map<Seq<char>, ServedView>;

/// The state of the mirror.
#[verifier::ext_equal]
pub struct MirrorView {
    pub present: Objects,
    /// The number of the next object. It only grows, so that no path is ever
    /// used for another controller: clients cache what they know of a path.
    pub next_index: int,
    /// The objects listed on the root object.
    pub listed: Seq<usize>,
}

/// Some snapshot is of the device `key`.
pub open spec fn has_snapshot(snapshots: Seq<SnapshotView>, key: Seq<char>) -> bool {
    exists|i: int| 0 <= i < snapshots.len() && (#[trigger] snapshots[i]).key == key
}

/// The objects of `items` whose devices are gone, in key order.
pub open spec fn gone(
    items: Seq<(Seq<char>, ServedView)>,
    snapshots: Seq<SnapshotView>,
) -> Seq<ChangeView>
    decreases items.len(),
{
    if items.len() == 0 {
        seq![]
    } else {
        let before = gone(items.drop_last(), snapshots);
        if has_snapshot(snapshots, items.last().0) {
            before
        } else {
            before.push(ChangeView::Remove(items.last().1.index))
        }
    }
}

/// The objects whose devices are still there.
pub open spec fn kept(present: Objects, snapshots: Seq<SnapshotView>) -> Objects {
    Map::new(
        |key: Seq<char>| present.contains_key(key) && has_snapshot(snapshots, key),
        |key: Seq<char>| present[key],
    )
}

/// One snapshot taken in: a new device gets an object, a known one an update
/// if anything changed.
pub open spec fn shown(m: MirrorView, snap: SnapshotView) -> (MirrorView, Seq<ChangeView>) {
    if m.present.contains_key(snap.key) {
        let served = m.present[snap.key];
        if served.snapshot == snap {
            (m, seq![])
        } else {
            (
                MirrorView {
                    present: m.present.insert(
                        snap.key,
                        ServedView { snapshot: snap, ..served },
                    ),
                    ..m
                },
                seq![
                    ChangeView::Update {
                        index: served.index,
                        snapshot: snap,
                        changed: dbus::changes_between(served.snapshot, snap),
                    },
                ],
            )
        }
    } else {
        (
            MirrorView {
                present: m.present.insert(
                    snap.key,
                    ServedView { index: m.next_index as usize, snapshot: snap },
                ),
                next_index: m.next_index + 1,
                ..m
            },
            seq![ChangeView::Add { index: m.next_index as usize, snapshot: snap }],
        )
    }
}

/// Snapshots taken in one after the other.
pub open spec fn all_shown(m: MirrorView, snapshots: Seq<SnapshotView>) -> (
    MirrorView,
    Seq<ChangeView>,
)
    decreases snapshots.len(),
{
    if snapshots.len() == 0 {
        (m, seq![])
    } else {
        let (before, changes) = all_shown(m, snapshots.drop_last());
        let (after, more) = shown(before, snapshots.last());
        (after, changes + more)
    }
}

/// Some object has this number.
pub open spec fn has_index(present: Objects, index: usize) -> bool {
    exists|key: Seq<char>| #[trigger] present.contains_key(key) && present[key].index == index
}

/// `list` holds the numbers of all objects, in increasing order.
pub open spec fn lists(list: Seq<usize>, present: Objects) -> bool {
    &&& forall|i: int, j: int| 0 <= i < j < list.len() ==> #[trigger] list[i] < #[trigger] list[j]
    &&& forall|i: int| 0 <= i < list.len() ==> has_index(present, #[trigger] list[i])
    &&& forall|key: Seq<char>| #[trigger]
        present.contains_key(key) ==> list.contains(present[key].index)
}

/// The numbers of all objects, in increasing order.
pub open spec fn listing_of(present: Objects) -> Seq<usize> {
    choose|list: Seq<usize>| lists(list, present)
}

/// The mirror after a new list of snapshots, and what that changes on the bus:
/// removals first, then each snapshot in its turn, then the list of objects.
pub open spec fn synced(m: MirrorView, snapshots: Seq<SnapshotView>) -> (
    MirrorView,
    Seq<ChangeView>,
) {
    let removals = gone(key_map::items_of(m.present), snapshots);
    let (after, changes) = all_shown(
        MirrorView { present: kept(m.present, snapshots), ..m },
        snapshots,
    );
    let list = listing_of(after.present);
    (
        MirrorView { listed: list, ..after },
        removals + changes + if list == m.listed {
            seq![]
        } else {
            seq![ChangeView::List(list)]
        },
    )
}

/// What holds of every mirror: each object shows its own device, has a number
/// that was given out, and has it alone.
pub open spec fn objects_ok(m: MirrorView) -> bool {
    &&& forall|key: Seq<char>| #[trigger]
        m.present.contains_key(key) ==> m.present[key].snapshot.key == key && m.present[key].index
            < m.next_index
    &&& forall|a: Seq<char>, b: Seq<char>|
        #![trigger m.present.contains_key(a), m.present.contains_key(b)]
        m.present.contains_key(a) && m.present.contains_key(b) && m.present[a].index
            == m.present[b].index ==> a == b
}

/// Two lists of the same objects are the same.
proof fn lemma_lists_unique(a: Seq<usize>, b: Seq<usize>, present: Objects)
    requires
        lists(a, present),
        lists(b, present),
    ensures
        a == b,
{
    lemma_lists_prefix(a, b, present, a.len());
    lemma_lists_prefix(b, a, present, b.len());
    assert(a =~= b);
}

/// The first `n` numbers of one list are those of the other.
proof fn lemma_lists_prefix(a: Seq<usize>, b: Seq<usize>, present: Objects, n: nat)
    requires
        lists(a, present),
        lists(b, present),
        n <= a.len(),
    ensures
        n <= b.len(),
        forall|i: int| 0 <= i < n ==> a[i] == b[i],
    decreases n,
{
    if n > 0 {
        let k = n - 1;
        lemma_lists_prefix(a, b, present, k as nat);
        assert(has_index(present, a[k]));
        assert(b.contains(a[k]));
        let p = choose|p: int| 0 <= p < b.len() && b[p] == a[k];
        if p < k {
            assert(a[p] < a[k]);
        }
        assert(has_index(present, b[k]));
        assert(a.contains(b[k]));
        let q = choose|q: int| 0 <= q < a.len() && a[q] == b[k];
        if q < k {
            assert(b[q] < b[k]);
        }
        if k < p {
            assert(b[k] < b[p]);
            if k < q {
                assert(a[k] < a[q]);
            }
        }
    }
}

/// The device objects that the bus serves.
pub struct Mirror {
    pub present: KeyMap<Served>,
    pub next_index: usize,
    pub listed: Vec<usize>,
}

impl View for Mirror {
    type V = MirrorView;

    open spec fn view(&self) -> MirrorView {
        MirrorView {
            present: self.present@.map_values(|s: Served| s@),
            next_index: self.next_index as int,
            listed: self.listed@,
        }
    }
}

impl Mirror {
    /// The objects are sound, and all of them are listed.
    pub open spec fn wf(&self) -> bool {
        &&& self.present.wf()
        &&& objects_ok(self@)
        &&& lists(self@.listed, self@.present)
    }

    /// A mirror without objects.
    pub fn new() -> (r: Self)
        ensures
            r.wf(),
            r@ == (MirrorView { present: Map::empty(), next_index: 0, listed: Seq::empty() }),
    {
        let r = Mirror { present: KeyMap::new(), next_index: 0, listed: Vec::new() };
        assert(r@.present =~= Map::empty());
        r
    }

    /// The objects have a listing in key order.
    pub proof fn lemma_has_items(&self)
        requires
            self.wf(),
        ensures
            key_map::in_key_order(key_map::items_of(self@.present)),
            key_map::map_of(key_map::items_of(self@.present)) == self@.present,
    {
        key_map::lemma_over_values(self.present.items(), |s: Served| s@);
    }

    /// The list of objects is the one there is.
    pub proof fn lemma_listed(&self)
        requires
            self.wf(),
        ensures
            listing_of(self@.present) == self@.listed,
    {
        assert(lists(self@.listed, self@.present));
        lemma_lists_unique(self@.listed, listing_of(self@.present), self@.present);
    }

    /// Takes away the objects whose devices are gone.
    fn remove_gone(&mut self, snapshots: &Vec<DeviceSnapshot>, changes: &mut Vec<Change>)
        requires
            old(self).present.wf(),
            old(changes)@.len() == 0,
        ensures
            final(self).present.wf(),
            final(self)@ == (MirrorView {
                present: kept(old(self)@.present, state::snapshot_views(snapshots@)),
                ..old(self)@
            }),
            change_views(final(changes)@) == gone(
                key_map::items_of(old(self)@.present),
                state::snapshot_views(snapshots@),
            ),
    {
        let ghost snaps = state::snapshot_views(snapshots@);
        let ghost all = self.present.items();
        let ghost views = key_map::over_values(all, |s: Served| s@);
        proof {
            key_map::lemma_over_values(all, |s: Served| s@);
        }
        let mut keys: Vec<String> = Vec::new();
        let mut i: usize = 0;
        assert(views.take(0) =~= Seq::empty());
        assert(change_views(changes@) =~= Seq::empty());
        while i < self.present.len()
            invariant
                *self == *old(self),
                self.present.wf(),
                snaps == state::snapshot_views(snapshots@),
                all == self.present.items(),
                views == key_map::over_values(all, |s: Served| s@),
                i <= all.len(),
                change_views(changes@) == gone(views.take(i as int), snaps),
                forall|key: Seq<char>| #[trigger]
                    names(keys@, key) <==> key_map::has_key(all.take(i as int), key)
                        && !has_snapshot(snaps, key),
            decreases all.len() - i,
        {
            let key = self.present.key_at(i);
            let ghost acted = change_views(changes@);
            let ghost named = keys@;
            proof {
                assert(views.take(i + 1).drop_last() =~= views.take(i as int));
                key_map::lemma_has_key_next(all, i as int);
            }
            if !any_snapshot(snapshots, key) {
                changes.push(Change::Remove(self.present.value_at(i).index));
                keys.push(key.clone());
                assert(change_views(changes@) =~= acted.push(
                    ChangeView::Remove(all[i as int].1.index),
                ));
                proof {
                    lemma_names_push(named, *key);
                }
            }
            i = i + 1;
        }
        assert(views.take(i as int) =~= views);
        assert(all.take(i as int) =~= all);
        let mut k: usize = 0;
        while k < keys.len()
            invariant
                self.present.wf(),
                self.next_index == old(self).next_index,
                self.listed == old(self).listed,
                k <= keys@.len(),
                forall|key: Seq<char>| #[trigger]
                    self.present@.contains_key(key) <==> old(self).present@.contains_key(key)
                        && !names(keys@.take(k as int), key),
                forall|key: Seq<char>| #[trigger]
                    self.present@.contains_key(key) ==> self.present@[key]
                        == old(self).present@[key],
            decreases keys@.len() - k,
        {
            proof {
                assert(keys@.take(k + 1) =~= keys@.take(k as int).push(keys@[k as int]));
                lemma_names_push(keys@.take(k as int), keys@[k as int]);
            }
            self.present.remove(keys[k].as_str());
            k = k + 1;
        }
        assert(keys@.take(k as int) =~= keys@);
        assert(self@.present =~= kept(old(self)@.present, snaps));
    }

    /// Takes in one snapshot.
    fn show(&mut self, snap: &DeviceSnapshot, changes: &mut Vec<Change>)
        requires
            old(self).present.wf(),
            old(self).next_index < usize::MAX,
        ensures
            final(self).present.wf(),
            final(self)@ == shown(old(self)@, snap@).0,
            change_views(final(changes)@) == change_views(old(changes)@) + shown(
                old(self)@,
                snap@,
            ).1,
    {
        let mut known: bool = false;
        if let Some(served) = self.present.get_mut(snap.key.as_str()) {
            known = true;
            if !served.snapshot.same_as(snap) {
                let changed = changed_props(&served.snapshot, snap);
                served.snapshot = snap.clone();
                changes.push(
                    Change::Update { index: served.index, snapshot: snap.clone(), changed },
                );
            }
        }
        if !known {
            let index: usize = self.next_index;
            self.next_index = index + 1;
            changes.push(Change::Add { index, snapshot: snap.clone() });
            self.present.insert(snap.key.clone(), Served { index, snapshot: snap.clone() });
        }
        assert(change_views(changes@) =~= change_views(old(changes)@) + shown(
            old(self)@,
            snap@,
        ).1);
        assert(self@.present =~= shown(old(self)@, snap@).0.present);
        assert(self@ =~= shown(old(self)@, snap@).0);
    }

    /// The numbers of all objects, in increasing order.
    fn indices(&self) -> (r: Vec<usize>)
        requires
            self.present.wf(),
            objects_ok(self@),
        ensures
            r@ == listing_of(self@.present),
            lists(r@, self@.present),
    {
        let ghost items = self.present.items();
        let mut list: Vec<usize> = Vec::new();
        let mut i: usize = 0;
        while i < self.present.len()
            invariant
                self.present.wf(),
                objects_ok(self@),
                items == self.present.items(),
                i <= items.len(),
                forall|a: int, b: int|
                    0 <= a < b < list@.len() ==> #[trigger] list@[a] < #[trigger] list@[b],
                forall|a: int|
                    0 <= a < list@.len() ==> exists|j: int|
                        0 <= j < i && (#[trigger] items[j]).1.index == #[trigger] list@[a],
                forall|j: int| 0 <= j < i ==> list@.contains((#[trigger] items[j]).1.index),
            decreases items.len() - i,
        {
            let index: usize = self.present.value_at(i).index;
            let ghost before = list@;
            let mut p: usize = 0;
            while p < list.len() && list[p] < index
                invariant
                    p <= list@.len(),
                    list@ == before,
                    forall|a: int| 0 <= a < p ==> #[trigger] list@[a] < index,
                decreases list@.len() - p,
            {
                p = p + 1;
            }
            proof {
                if p < before.len() && before[p as int] == index {
                    let j = choose|j: int|
                        0 <= j < i && (#[trigger] items[j]).1.index == before[p as int];
                    key_map::lemma_place(items, j);
                    key_map::lemma_place(items, i as int);
                    assert(self@.present.contains_key(items[j].0));
                    assert(self@.present.contains_key(items[i as int].0));
                    assert(self@.present[items[j].0].index == items[j].1.index);
                    assert(self@.present[items[i as int].0].index == items[i as int].1.index);
                    assert(items[j].0 == items[i as int].0);
                    crate::text::key_before_irreflexive(items[j].0);
                    assert(crate::text::key_before(items[j].0, items[i as int].0));
                }
            }
            list.insert(p, index);
            proof {
                lemma_inserted(before, p as int, index);
                assert forall|a: int| 0 <= a < list@.len() implies exists|j: int|
                    0 <= j < i + 1 && (#[trigger] items[j]).1.index == #[trigger] list@[a] by {
                    if a == p {
                        assert(items[i as int].1.index == list@[a]);
                    } else {
                        let b = if a < p {
                            a
                        } else {
                            a - 1
                        };
                        assert(list@[a] == before[b]);
                        let j = choose|j: int|
                            0 <= j < i && (#[trigger] items[j]).1.index == before[b];
                        assert(items[j].1.index == list@[a]);
                    }
                }
                assert forall|j: int| 0 <= j < i + 1 implies list@.contains(
                    (#[trigger] items[j]).1.index,
                ) by {
                    if j < i {
                        assert(before.contains(items[j].1.index));
                        let b = choose|b: int|
                            0 <= b < before.len() && before[b] == items[j].1.index;
                        let a = if b < p {
                            b
                        } else {
                            b + 1
                        };
                        assert(list@[a] == before[b]);
                    } else {
                        assert(list@[p as int] == index);
                    }
                }
            }
            i = i + 1;
        }
        proof {
            let present = self@.present;
            assert forall|a: int| 0 <= a < list@.len() implies has_index(
                present,
                #[trigger] list@[a],
            ) by {
                let j = choose|j: int|
                    0 <= j < items.len() && (#[trigger] items[j]).1.index == list@[a];
                key_map::lemma_place(items, j);
                assert(present.contains_key(items[j].0));
            }
            assert forall|key: Seq<char>| #[trigger] present.contains_key(key) implies list@.contains(
                present[key].index,
            ) by {
                assert(key_map::has_key(items, key));
                let j = key_map::place_of(items, key);
                key_map::lemma_place(items, j);
                assert(items[j].0 == key);
            }
            assert(lists(list@, present));
            lemma_lists_unique(list@, listing_of(present), present);
        }
        list
    }

    /// Takes in a new list of snapshots and says what that changes on the bus.
    pub fn sync(&mut self, snapshots: &Vec<DeviceSnapshot>) -> (changes: Vec<Change>)
        requires
            old(self).wf(),
            old(self).next_index + snapshots@.len() <= usize::MAX,
        ensures
            final(self).wf(),
            (final(self)@, change_views(changes@)) == synced(
                old(self)@,
                state::snapshot_views(snapshots@),
            ),
    {
        let ghost snaps = state::snapshot_views(snapshots@);
        let mut changes: Vec<Change> = Vec::new();
        self.remove_gone(snapshots, &mut changes);
        let ghost begun = self@;
        let ghost removals = change_views(changes@);
        let mut i: usize = 0;
        assert(snaps.take(0) =~= Seq::empty());
        assert(removals + Seq::empty() =~= removals);
        while i < snapshots.len()
            invariant
                snaps == state::snapshot_views(snapshots@),
                i <= snapshots@.len(),
                self.present.wf(),
                objects_ok(self@),
                self.next_index <= old(self).next_index + i,
                old(self).next_index + snapshots@.len() <= usize::MAX,
                self@ == all_shown(begun, snaps.take(i as int)).0,
                self@.listed == old(self)@.listed,
                change_views(changes@) == removals + all_shown(begun, snaps.take(i as int)).1,
            decreases snapshots@.len() - i,
        {
            let ghost acted = all_shown(begun, snaps.take(i as int)).1;
            proof {
                assert(snaps.take(i + 1).drop_last() =~= snaps.take(i as int));
                assert(snaps.take(i + 1).last() == snapshots@[i as int]@);
                lemma_shown_ok(self@, snapshots@[i as int]@);
            }
            let ghost more = shown(self@, snapshots@[i as int]@).1;
            self.show(&snapshots[i], &mut changes);
            assert((removals + acted) + more =~= removals + (acted + more));
            i = i + 1;
        }
        assert(snaps.take(i as int) =~= snaps);
        let list = self.indices();
        let ghost was = change_views(changes@);
        if !same_list(&list, &self.listed) {
            changes.push(Change::List(list.clone()));
            assert(change_views(changes@) =~= was + seq![ChangeView::List(list@)]);
        } else {
            assert(was + Seq::empty() =~= was);
        }
        self.listed = list;
        changes
    }
}

fn same_list(a: &Vec<usize>, b: &Vec<usize>) -> (r: bool)
    ensures
        r == (a@ == b@),
{
    if a.len() != b.len() {
        return false;
    }
    let mut i: usize = 0;
    while i < a.len()
        invariant
            a@.len() == b@.len(),
            i <= a@.len(),
            forall|j: int| 0 <= j < i ==> a@[j] == b@[j],
        decreases a@.len() - i,
    {
        if a[i] != b[i] {
            return false;
        }
        i = i + 1;
    }
    assert(a@ =~= b@);
    true
}

fn any_snapshot(snapshots: &Vec<DeviceSnapshot>, key: &String) -> (r: bool)
    ensures
        r == has_snapshot(state::snapshot_views(snapshots@), key@),
{
    let mut i: usize = 0;
    while i < snapshots.len()
        invariant
            i <= snapshots@.len(),
            forall|j: int| 0 <= j < i ==> (#[trigger] snapshots@[j]).key@ != key@,
        decreases snapshots@.len() - i,
    {
        if snapshots[i].key == *key {
            assert(state::snapshot_views(snapshots@)[i as int].key == key@);
            return true;
        }
        i = i + 1;
    }
    proof {
        let snaps = state::snapshot_views(snapshots@);
        if has_snapshot(snaps, key@) {
            let j = choose|j: int| 0 <= j < snaps.len() && (#[trigger] snaps[j]).key == key@;
            assert(snapshots@[j].key@ == key@);
        }
    }
    false
}

/// `key` is one of `keys`.
spec fn names(keys: Seq<String>, key: Seq<char>) -> bool {
    exists|i: int| 0 <= i < keys.len() && (#[trigger] keys[i])@ == key
}

proof fn lemma_names_push(keys: Seq<String>, last: String)
    ensures
        forall|key: Seq<char>| #[trigger]
            names(keys.push(last), key) == (names(keys, key) || key == last@),
{
    let after = keys.push(last);
    assert forall|key: Seq<char>| #[trigger]
        names(after, key) == (names(keys, key) || key == last@) by {
        if names(keys, key) {
            let i = choose|i: int| 0 <= i < keys.len() && (#[trigger] keys[i])@ == key;
            assert(after[i]@ == key);
        }
        if key == last@ {
            assert(after[keys.len() as int]@ == key);
        }
        if names(after, key) && key != last@ {
            let i = choose|i: int| 0 <= i < after.len() && (#[trigger] after[i])@ == key;
            assert(keys[i]@ == key);
        }
    }
}

proof fn lemma_inserted(before: Seq<usize>, p: int, index: usize)
    requires
        0 <= p <= before.len(),
        forall|a: int, b: int|
            0 <= a < b < before.len() ==> #[trigger] before[a] < #[trigger] before[b],
        forall|a: int| 0 <= a < p ==> #[trigger] before[a] < index,
        p < before.len() ==> index < before[p],
    ensures
        ({
            let after = before.insert(p, index);
            forall|a: int, b: int|
                0 <= a < b < after.len() ==> #[trigger] after[a] < #[trigger] after[b]
        }),
{
    let after = before.insert(p, index);
    assert forall|a: int, b: int| 0 <= a < b < after.len() implies #[trigger] after[a]
        < #[trigger] after[b] by {
        let x = if a < p {
            a
        } else {
            a - 1
        };
        let y = if b < p {
            b
        } else {
            b - 1
        };
        if a != p {
            assert(after[a] == before[x]);
        }
        if b != p {
            assert(after[b] == before[y]);
        }
        if a == p {
            assert(index < before[p]);
        }
    }
}

/// Taking in a snapshot keeps the objects sound.
proof fn lemma_shown_ok(m: MirrorView, snap: SnapshotView)
    requires
        objects_ok(m),
        0 <= m.next_index < usize::MAX,
    ensures
        objects_ok(shown(m, snap).0),
        m.next_index <= shown(m, snap).0.next_index <= m.next_index + 1,
{
    let after = shown(m, snap).0;
    assert forall|a: Seq<char>, b: Seq<char>|
        #![trigger after.present.contains_key(a), after.present.contains_key(b)]
        after.present.contains_key(a) && after.present.contains_key(b) && after.present[a].index
            == after.present[b].index implies a == b by {
        if a != snap.key {
            assert(m.present.contains_key(a));
        }
        if b != snap.key {
            assert(m.present.contains_key(b));
        }
        if m.present.contains_key(snap.key) {
            assert(m.present.contains_key(a) && m.present.contains_key(b));
        }
    }
}

} // verus!
