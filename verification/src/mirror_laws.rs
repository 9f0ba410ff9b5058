//! What holds of the objects on the bus as a whole, over the models that the
//! contracts of the mirror speak of.
use crate::dbus;
use crate::dbus::Property;
use crate::interface::{ChargeState, PropertyView};
use crate::key_map;
use crate::mirror;
use crate::mirror::{ChangeView, MirrorView, Objects};
use crate::protocol::BatteryStatus;
use crate::state::{Registry, SnapshotView};
use crate::state_laws;
use crate::text;
use vstd::prelude::*;

verus! {

/// No two snapshots are of the same device.
pub open spec fn distinct_keys(snapshots: Seq<SnapshotView>) -> bool {
    forall|i: int, j: int|
        0 <= i < j < snapshots.len() ==> (#[trigger] snapshots[i]).key != (
        #[trigger] snapshots[j]).key
}

/// The objects are those of the snapshots, and each shows its snapshot.
pub open spec fn shows(present: Objects, snapshots: Seq<SnapshotView>) -> bool {
    &&& forall|key: Seq<char>| #[trigger]
        present.contains_key(key) ==> mirror::has_snapshot(snapshots, key)
    &&& forall|i: int|
        0 <= i < snapshots.len() ==> present.contains_key((#[trigger] snapshots[i]).key)
            && present[snapshots[i].key].snapshot == snapshots[i]
}

proof fn all_shown_shows(m: MirrorView, snapshots: Seq<SnapshotView>)
    requires
        distinct_keys(snapshots),
    ensures
        ({
            let after = mirror::all_shown(m, snapshots).0;
            &&& forall|key: Seq<char>| #[trigger]
                after.present.contains_key(key) <==> m.present.contains_key(key)
                    || mirror::has_snapshot(snapshots, key)
            &&& forall|key: Seq<char>|
                m.present.contains_key(key) ==> (#[trigger] after.present[key]).index
                    == m.present[key].index
            &&& forall|i: int|
                0 <= i < snapshots.len() ==> after.present[(
                #[trigger] snapshots[i]).key].snapshot == snapshots[i]
            &&& after.next_index >= m.next_index
            &&& after.listed == m.listed
        }),
    decreases snapshots.len(),
{
    if snapshots.len() > 0 {
        let shorter = snapshots.drop_last();
        let last = snapshots.last();
        assert forall|i: int, j: int| 0 <= i < j < shorter.len() implies (
        #[trigger] shorter[i]).key != (#[trigger] shorter[j]).key by {
            assert(snapshots[i].key != snapshots[j].key);
        }
        all_shown_shows(m, shorter);
        let before = mirror::all_shown(m, shorter).0;
        let after = mirror::all_shown(m, snapshots).0;
        assert forall|key: Seq<char>| #[trigger]
            mirror::has_snapshot(snapshots, key) <==> mirror::has_snapshot(shorter, key) || key
                == last.key by {
            if mirror::has_snapshot(shorter, key) {
                let i = choose|i: int|
                    0 <= i < shorter.len() && (#[trigger] shorter[i]).key == key;
                assert(snapshots[i].key == key);
            }
            if key == last.key {
                assert(snapshots[snapshots.len() - 1].key == key);
            }
            if mirror::has_snapshot(snapshots, key) && key != last.key {
                let i = choose|i: int|
                    0 <= i < snapshots.len() && (#[trigger] snapshots[i]).key == key;
                assert(shorter[i].key == key);
            }
        }
        assert forall|i: int| 0 <= i < snapshots.len() implies after.present[(
        #[trigger] snapshots[i]).key].snapshot == snapshots[i] by {
            if i < shorter.len() {
                assert(shorter[i] == snapshots[i]);
                assert(snapshots[i].key != snapshots[snapshots.len() - 1].key);
            }
        }
        assert forall|key: Seq<char>| m.present.contains_key(key) implies (
        #[trigger] after.present[key]).index == m.present[key].index by {
            assert(before.present[key].index == m.present[key].index);
        }
    }
}

/// What the registry publishes names no device twice.
pub proof fn published_keys_are_distinct(r: Registry)
    requires
        r.wf(),
    ensures
        distinct_keys(r.history().last()),
{
    state_laws::published_is_complete(r);
    let published = r.history().last();
    assert forall|i: int, j: int| 0 <= i < j < published.len() implies (
    #[trigger] published[i]).key != (#[trigger] published[j]).key by {
        assert(text::key_before(published[i].key, published[j].key));
        text::key_before_irreflexive(published[i].key);
    }
}

/// After a sync the objects on the bus are those of the snapshots, each
/// showing its snapshot.
pub proof fn objects_mirror_the_snapshots(m: mirror::Mirror, snapshots: Seq<SnapshotView>)
    requires
        m.wf(),
        distinct_keys(snapshots),
    ensures
        shows(mirror::synced(m@, snapshots).0.present, snapshots),
{
    let begun = MirrorView { present: mirror::kept(m@.present, snapshots), ..m@ };
    all_shown_shows(begun, snapshots);
    let after = mirror::all_shown(begun, snapshots).0;
    assert forall|i: int| 0 <= i < snapshots.len() implies after.present.contains_key(
        (#[trigger] snapshots[i]).key,
    ) by {
        assert(mirror::has_snapshot(snapshots, snapshots[i].key));
    }
}

/// A device keeps its object, and thereby its path, for as long as it is
/// there.
pub proof fn device_keeps_its_path(
    m: MirrorView,
    snapshots: Seq<SnapshotView>,
    key: Seq<char>,
)
    requires
        distinct_keys(snapshots),
        m.present.contains_key(key),
        mirror::has_snapshot(snapshots, key),
    ensures
        mirror::synced(m, snapshots).0.present.contains_key(key),
        mirror::synced(m, snapshots).0.present[key].index == m.present[key].index,
{
    let begun = MirrorView { present: mirror::kept(m.present, snapshots), ..m };
    all_shown_shows(begun, snapshots);
    let after = mirror::all_shown(begun, snapshots).0;
    assert(begun.present.contains_key(key));
    assert(after.present[key].index == begun.present[key].index);
}

/// The number of an object that a change puts up.
pub open spec fn adds(changes: Seq<ChangeView>, index: usize) -> bool {
    exists|i: int|
        0 <= i < changes.len() && (#[trigger] changes[i] matches ChangeView::Add {
            index: added,
            snapshot,
        } && added == index)
}

proof fn all_shown_grows(m: MirrorView, snapshots: Seq<SnapshotView>)
    ensures
        m.next_index <= mirror::all_shown(m, snapshots).0.next_index <= m.next_index
            + snapshots.len(),
    decreases snapshots.len(),
{
    if snapshots.len() > 0 {
        all_shown_grows(m, snapshots.drop_last());
    }
}

proof fn all_shown_adds(m: MirrorView, snapshots: Seq<SnapshotView>, index: usize)
    requires
        0 <= m.next_index,
        mirror::all_shown(m, snapshots).0.next_index <= usize::MAX,
    ensures
        adds(mirror::all_shown(m, snapshots).1, index) ==> m.next_index <= index
            < mirror::all_shown(m, snapshots).0.next_index,
    decreases snapshots.len(),
{
    if snapshots.len() > 0 {
        all_shown_grows(m, snapshots.drop_last());
        all_shown_adds(m, snapshots.drop_last(), index);
        let (before, changes) = mirror::all_shown(m, snapshots.drop_last());
        let (after, more) = mirror::shown(before, snapshots.last());
        if adds(changes + more, index) {
            let i = choose|i: int|
                0 <= i < (changes + more).len() && (#[trigger] (changes + more)[i]
                    matches ChangeView::Add { index: added, snapshot } && added == index);
            if i < changes.len() {
                assert(changes[i] == (changes + more)[i]);
                assert(adds(changes, index));
            } else {
                assert(more[i - changes.len()] == (changes + more)[i]);
            }
        }
    }
}

proof fn gone_adds_nothing(
    items: Seq<(Seq<char>, mirror::ServedView)>,
    snapshots: Seq<SnapshotView>,
)
    ensures
        forall|i: int|
            0 <= i < mirror::gone(items, snapshots).len() ==> (#[trigger] mirror::gone(
                items,
                snapshots,
            )[i]) is Remove,
    decreases items.len(),
{
    if items.len() > 0 {
        gone_adds_nothing(items.drop_last(), snapshots);
    }
}

/// Every new object gets a number that was not given out before.
pub proof fn new_objects_get_new_numbers(
    m: MirrorView,
    snapshots: Seq<SnapshotView>,
    index: usize,
)
    requires
        0 <= m.next_index,
        mirror::synced(m, snapshots).0.next_index <= usize::MAX,
    ensures
        ({
            let (after, changes) = mirror::synced(m, snapshots);
            &&& m.next_index <= after.next_index <= m.next_index + snapshots.len()
            &&& adds(changes, index) ==> m.next_index <= index < after.next_index
        }),
{
    let removals = mirror::gone(key_map::items_of(m.present), snapshots);
    let begun = MirrorView { present: mirror::kept(m.present, snapshots), ..m };
    let (after, shown) = mirror::all_shown(begun, snapshots);
    let changes = mirror::synced(m, snapshots).1;
    all_shown_grows(begun, snapshots);
    all_shown_adds(begun, snapshots, index);
    gone_adds_nothing(key_map::items_of(m.present), snapshots);
    if adds(changes, index) {
        let i = choose|i: int|
            0 <= i < changes.len() && (#[trigger] changes[i] matches ChangeView::Add {
                index: added,
                snapshot,
            } && added == index);
        if i < removals.len() {
            assert(changes[i] == removals[i]);
        } else if i < removals.len() + shown.len() {
            assert(changes[i] == shown[i - removals.len()]);
            assert(adds(shown, index));
        }
    }
}

/// The mirror after a run of lists.
pub open spec fn after_syncs(m: MirrorView, runs: Seq<Seq<SnapshotView>>) -> MirrorView
    decreases runs.len(),
{
    if runs.len() == 0 {
        m
    } else {
        mirror::synced(after_syncs(m, runs.drop_last()), runs.last()).0
    }
}

/// A list makes the next number no smaller, and larger by no more than the
/// list is long.
pub proof fn sync_grows(m: MirrorView, snapshots: Seq<SnapshotView>)
    ensures
        m.next_index <= mirror::synced(m, snapshots).0.next_index <= m.next_index
            + snapshots.len(),
{
    all_shown_grows(
        MirrorView { present: mirror::kept(m.present, snapshots), ..m },
        snapshots,
    );
}

/// However many lists come, the next number never becomes smaller.
pub proof fn numbers_only_grow(m: MirrorView, runs: Seq<Seq<SnapshotView>>)
    ensures
        m.next_index <= after_syncs(m, runs).next_index,
    decreases runs.len(),
{
    if runs.len() > 0 {
        numbers_only_grow(m, runs.drop_last());
        sync_grows(after_syncs(m, runs.drop_last()), runs.last());
    }
}

/// A path is never used again: an object that is put up after any number of
/// further lists has another number than one that was put up before them, as
/// long as the numbers given out fit.
pub proof fn paths_are_never_reused(
    m: MirrorView,
    first: Seq<SnapshotView>,
    between: Seq<Seq<SnapshotView>>,
    last: Seq<SnapshotView>,
    earlier: usize,
    later: usize,
)
    requires
        0 <= m.next_index,
        mirror::synced(after_syncs(mirror::synced(m, first).0, between), last).0.next_index
            <= usize::MAX,
        adds(mirror::synced(m, first).1, earlier),
        adds(
            mirror::synced(after_syncs(mirror::synced(m, first).0, between), last).1,
            later,
        ),
    ensures
        earlier < later,
        dbus::device_path_text(earlier as nat) != dbus::device_path_text(later as nat),
{
    let then = mirror::synced(m, first).0;
    sync_grows(m, first);
    numbers_only_grow(then, between);
    sync_grows(after_syncs(then, between), last);
    new_objects_get_new_numbers(m, first, earlier);
    new_objects_get_new_numbers(after_syncs(then, between), last, later);
    if dbus::device_path_text(earlier as nat) == dbus::device_path_text(later as nat) {
        device_paths_differ(earlier as nat, later as nat);
    }
}

/// The numbers of the objects that changes put up, in their order.
pub open spec fn added(changes: Seq<ChangeView>) -> Seq<usize>
    decreases changes.len(),
{
    if changes.len() == 0 {
        seq![]
    } else {
        let before = added(changes.drop_last());
        match changes.last() {
            ChangeView::Add { index, snapshot } => before.push(index),
            _ => before,
        }
    }
}

/// `numbers` counts up from `first`.
pub open spec fn counts_from(numbers: Seq<usize>, first: int) -> bool {
    forall|i: int| 0 <= i < numbers.len() ==> #[trigger] numbers[i] == first + i
}

proof fn added_concat(a: Seq<ChangeView>, b: Seq<ChangeView>)
    ensures
        added(a + b) == added(a) + added(b),
    decreases b.len(),
{
    if b.len() == 0 {
        assert(a + b =~= a);
        assert(added(a) + added(b) =~= added(a));
    } else {
        added_concat(a, b.drop_last());
        assert((a + b).drop_last() =~= a + b.drop_last());
        assert((a + b).last() == b.last());
        assert(added(a + b) =~= added(a) + added(b));
    }
}

proof fn added_nothing(changes: Seq<ChangeView>)
    requires
        forall|i: int| 0 <= i < changes.len() ==> !((#[trigger] changes[i]) is Add),
    ensures
        added(changes) == Seq::<usize>::empty(),
    decreases changes.len(),
{
    if changes.len() > 0 {
        let shorter = changes.drop_last();
        assert forall|i: int| 0 <= i < shorter.len() implies !((#[trigger] shorter[i]) is Add) by {
            assert(shorter[i] == changes[i]);
        }
        added_nothing(shorter);
        assert(!(changes[changes.len() - 1] is Add));
    }
}

proof fn shown_counts(m: MirrorView, snapshots: Seq<SnapshotView>)
    requires
        0 <= m.next_index,
        mirror::all_shown(m, snapshots).0.next_index <= usize::MAX,
    ensures
        ({
            let (after, changes) = mirror::all_shown(m, snapshots);
            &&& counts_from(added(changes), m.next_index)
            &&& after.next_index == m.next_index + added(changes).len()
        }),
    decreases snapshots.len(),
{
    if snapshots.len() > 0 {
        all_shown_grows(m, snapshots.drop_last());
        shown_counts(m, snapshots.drop_last());
        let (before, changes) = mirror::all_shown(m, snapshots.drop_last());
        let (after, more) = mirror::shown(before, snapshots.last());
        added_concat(changes, more);
        assert(added(Seq::<ChangeView>::empty()) =~= Seq::<usize>::empty());
        if before.present.contains_key(snapshots.last().key) {
            added_nothing(more);
            assert(added(changes + more) =~= added(changes));
        } else {
            assert(more.drop_last() =~= Seq::<ChangeView>::empty());
            assert(added(more) =~= seq![before.next_index as usize]);
        }
    }
}

/// Each new object gets the number that is next, which then grows by one: the
/// objects that a sync puts up are numbered on, without a gap, as long as the
/// numbers fit.
pub proof fn numbers_have_no_gaps(m: MirrorView, snapshots: Seq<SnapshotView>)
    requires
        0 <= m.next_index,
        mirror::synced(m, snapshots).0.next_index <= usize::MAX,
    ensures
        ({
            let (after, changes) = mirror::synced(m, snapshots);
            &&& counts_from(added(changes), m.next_index)
            &&& after.next_index == m.next_index + added(changes).len()
        }),
{
    let removals = mirror::gone(key_map::items_of(m.present), snapshots);
    let begun = MirrorView { present: mirror::kept(m.present, snapshots), ..m };
    let (after, shown) = mirror::all_shown(begun, snapshots);
    let list = mirror::listing_of(after.present);
    let listed = if list == m.listed {
        seq![]
    } else {
        seq![ChangeView::List(list)]
    };
    shown_counts(begun, snapshots);
    gone_adds_nothing(key_map::items_of(m.present), snapshots);
    added_nothing(removals);
    added_nothing(listed);
    added_concat(removals, shown);
    added_concat(removals + shown, listed);
    assert(added(mirror::synced(m, snapshots).1) =~= added(shown));
}

/// The numbers of all objects that a run of lists puts up, in their order.
pub open spec fn ever_added(m: MirrorView, runs: Seq<Seq<SnapshotView>>) -> Seq<usize>
    decreases runs.len(),
{
    if runs.len() == 0 {
        seq![]
    } else {
        ever_added(m, runs.drop_last()) + added(
            mirror::synced(after_syncs(m, runs.drop_last()), runs.last()).1,
        )
    }
}

/// The `n`th object ever put up has the number `n`, counted from 0 and from the
/// mirror without objects, as long as the numbers given out fit.
pub proof fn objects_are_numbered_in_order(m: MirrorView, runs: Seq<Seq<SnapshotView>>)
    requires
        0 <= m.next_index,
        after_syncs(m, runs).next_index <= usize::MAX,
    ensures
        counts_from(ever_added(m, runs), m.next_index),
        after_syncs(m, runs).next_index == m.next_index + ever_added(m, runs).len(),
        m.next_index == 0 ==> forall|n: int|
            0 <= n < ever_added(m, runs).len() ==> #[trigger] ever_added(m, runs)[n] == n,
    decreases runs.len(),
{
    if runs.len() > 0 {
        numbers_only_grow(m, runs.drop_last());
        sync_grows(after_syncs(m, runs.drop_last()), runs.last());
        objects_are_numbered_in_order(m, runs.drop_last());
        numbers_have_no_gaps(after_syncs(m, runs.drop_last()), runs.last());
    }
}

proof fn new_devices_get_new_numbers(m: MirrorView, snapshots: Seq<SnapshotView>, key: Seq<char>)
    requires
        0 <= m.next_index,
        mirror::all_shown(m, snapshots).0.next_index <= usize::MAX,
        !m.present.contains_key(key),
    ensures
        ({
            let after = mirror::all_shown(m, snapshots).0;
            &&& after.present.contains_key(key) ==> after.present[key].index >= m.next_index
            &&& mirror::has_snapshot(snapshots, key) ==> after.present.contains_key(key)
        }),
    decreases snapshots.len(),
{
    if snapshots.len() > 0 {
        let shorter = snapshots.drop_last();
        all_shown_grows(m, shorter);
        new_devices_get_new_numbers(m, shorter, key);
        if mirror::has_snapshot(snapshots, key) && snapshots.last().key != key {
            let i = choose|i: int|
                0 <= i < snapshots.len() && (#[trigger] snapshots[i]).key == key;
            assert(shorter[i].key == key);
        }
    }
}

/// A device that disappears and comes back later gets another object, with a
/// larger number, as long as the numbers given out fit.
pub proof fn returning_device_gets_a_larger_number(
    m: MirrorView,
    between: Seq<Seq<SnapshotView>>,
    back: Seq<SnapshotView>,
    key: Seq<char>,
)
    requires
        0 <= m.next_index,
        mirror::synced(after_syncs(m, between), back).0.next_index <= usize::MAX,
        mirror::objects_ok(m),
        m.present.contains_key(key),
        !after_syncs(m, between).present.contains_key(key),
        mirror::has_snapshot(back, key),
    ensures
        ({
            let after = mirror::synced(after_syncs(m, between), back).0;
            after.present.contains_key(key) && after.present[key].index > m.present[key].index
        }),
{
    let then = after_syncs(m, between);
    numbers_only_grow(m, between);
    let begun = MirrorView { present: mirror::kept(then.present, back), ..then };
    new_devices_get_new_numbers(begun, back, key);
}

proof fn shown_lists_nothing(m: MirrorView, snapshots: Seq<SnapshotView>)
    ensures
        forall|i: int|
            0 <= i < mirror::all_shown(m, snapshots).1.len() ==> !((#[trigger] mirror::all_shown(
                m,
                snapshots,
            ).1[i]) is List),
    decreases snapshots.len(),
{
    if snapshots.len() > 0 {
        shown_lists_nothing(m, snapshots.drop_last());
    }
}

/// The list of objects is signalled if and only if it is another than before,
/// once and last.
pub proof fn list_is_signalled_when_it_changed(m: MirrorView, snapshots: Seq<SnapshotView>)
    ensures
        ({
            let (after, changes) = mirror::synced(m, snapshots);
            &&& after.listed != m.listed <==> changes.len() > 0 && changes.last() is List
            &&& forall|i: int|
                0 <= i < changes.len() && (#[trigger] changes[i]) is List ==> i == changes.len() - 1
                    && changes[i] == ChangeView::List(after.listed)
        }),
{
    let removals = mirror::gone(key_map::items_of(m.present), snapshots);
    let begun = MirrorView { present: mirror::kept(m.present, snapshots), ..m };
    let shown = mirror::all_shown(begun, snapshots).1;
    let (after, changes) = mirror::synced(m, snapshots);
    gone_adds_nothing(key_map::items_of(m.present), snapshots);
    shown_lists_nothing(begun, snapshots);
    assert forall|i: int| 0 <= i < removals.len() + shown.len() implies !((
    #[trigger] changes[i]) is List) by {
        if i < removals.len() {
            assert(changes[i] == removals[i]);
        } else {
            assert(changes[i] == shown[i - removals.len()]);
        }
    }
    if after.listed == m.listed {
        assert(changes.len() == removals.len() + shown.len());
    } else {
        assert(changes.last() == ChangeView::List(after.listed));
    }
}

/// After a sync the root object lists one object for each snapshot and nothing
/// else, in the order of their numbers.
pub proof fn listed_objects_are_those_of_the_snapshots(
    before: mirror::Mirror,
    after: mirror::Mirror,
    snapshots: Seq<SnapshotView>,
)
    requires
        before.wf(),
        after.wf(),
        after@ == mirror::synced(before@, snapshots).0,
        distinct_keys(snapshots),
    ensures
        ({
            let list = after@.listed;
            let present = after@.present;
            &&& forall|i: int, j: int|
                0 <= i < j < list.len() ==> #[trigger] list[i] < #[trigger] list[j]
            &&& forall|i: int|
                0 <= i < snapshots.len() ==> list.contains(
                    present[(#[trigger] snapshots[i]).key].index,
                )
            &&& forall|i: int, j: int|
                0 <= i < j < snapshots.len() ==> present[(#[trigger] snapshots[i]).key].index
                    != present[(#[trigger] snapshots[j]).key].index
            &&& forall|a: int|
                0 <= a < list.len() ==> exists|i: int|
                    0 <= i < snapshots.len() && present[(#[trigger] snapshots[i]).key].index
                        == #[trigger] list[a]
        }),
{
    objects_mirror_the_snapshots(before, snapshots);
    let list = after@.listed;
    let present = after@.present;
    assert forall|i: int, j: int| 0 <= i < j < snapshots.len() implies present[(
    #[trigger] snapshots[i]).key].index != present[(#[trigger] snapshots[j]).key].index by {
        assert(present.contains_key(snapshots[i].key) && present.contains_key(snapshots[j].key));
    }
    assert forall|a: int| 0 <= a < list.len() implies exists|i: int|
        0 <= i < snapshots.len() && present[(#[trigger] snapshots[i]).key].index
            == #[trigger] list[a] by {
        assert(mirror::has_index(present, list[a]));
        let key = choose|key: Seq<char>| #[trigger]
            present.contains_key(key) && present[key].index == list[a];
        assert(mirror::has_snapshot(snapshots, key));
        let i = choose|i: int| 0 <= i < snapshots.len() && (#[trigger] snapshots[i]).key == key;
        assert(present[snapshots[i].key].index == list[a]);
    }
}

/// Different objects have different paths.
pub proof fn device_paths_differ(a: nat, b: nat)
    requires
        dbus::device_path_text(a) == dbus::device_path_text(b),
    ensures
        a == b,
{
    let head = crate::interface::ROOT_PATH@ + "/dev"@;
    assert(dbus::device_path_text(a).skip(head.len() as int) =~= text::decimal(a));
    assert(dbus::device_path_text(b).skip(head.len() as int) =~= text::decimal(b));
    text::decimal_injective(a, b);
}

proof fn shown_again(m: MirrorView, snapshots: Seq<SnapshotView>)
    requires
        forall|i: int|
            0 <= i < snapshots.len() ==> m.present.contains_key((#[trigger] snapshots[i]).key)
                && m.present[snapshots[i].key].snapshot == snapshots[i],
    ensures
        mirror::all_shown(m, snapshots).0 == m,
        mirror::all_shown(m, snapshots).1.len() == 0,
    decreases snapshots.len(),
{
    if snapshots.len() > 0 {
        let shorter = snapshots.drop_last();
        assert forall|i: int| 0 <= i < shorter.len() implies m.present.contains_key(
            (#[trigger] shorter[i]).key,
        ) && m.present[shorter[i].key].snapshot == shorter[i] by {
            assert(shorter[i] == snapshots[i]);
        }
        shown_again(m, shorter);
        assert(snapshots[snapshots.len() - 1] == snapshots.last());
    }
}

proof fn nothing_gone(items: Seq<(Seq<char>, mirror::ServedView)>, snapshots: Seq<SnapshotView>)
    requires
        forall|i: int|
            0 <= i < items.len() ==> mirror::has_snapshot(snapshots, (#[trigger] items[i]).0),
    ensures
        mirror::gone(items, snapshots).len() == 0,
    decreases items.len(),
{
    if items.len() > 0 {
        let shorter = items.drop_last();
        assert forall|i: int| 0 <= i < shorter.len() implies mirror::has_snapshot(
            snapshots,
            (#[trigger] shorter[i]).0,
        ) by {
            assert(shorter[i] == items[i]);
        }
        nothing_gone(shorter, snapshots);
        assert(mirror::has_snapshot(snapshots, items[items.len() - 1].0));
    }
}

/// Snapshots that the objects show already change nothing on the bus.
pub proof fn nothing_new_changes_nothing(m: mirror::Mirror, snapshots: Seq<SnapshotView>)
    requires
        m.wf(),
        shows(m@.present, snapshots),
    ensures
        mirror::synced(m@, snapshots).0 == m@,
        mirror::synced(m@, snapshots).1.len() == 0,
{
    let present = m@.present;
    m.lemma_has_items();
    let items = key_map::items_of(present);
    assert forall|i: int| 0 <= i < items.len() implies mirror::has_snapshot(
        snapshots,
        (#[trigger] items[i]).0,
    ) by {
        key_map::lemma_place(items, i);
        assert(present.contains_key(items[i].0));
    }
    nothing_gone(items, snapshots);
    assert(mirror::kept(present, snapshots) =~= present);
    let begun = MirrorView { present: mirror::kept(present, snapshots), ..m@ };
    assert(begun =~= m@);
    shown_again(m@, snapshots);
    m.lemma_listed();
}

proof fn differing_is_exact(old: Seq<Property>, new: Seq<Property>, n: nat)
    requires
        n <= old.len(),
        n <= new.len(),
    ensures
        forall|i: int|
            0 <= i < n && old[i].1 != new[i].1 ==> dbus::differing(old, new, n).contains(
                #[trigger] new[i],
            ),
        forall|p: Property| #[trigger]
            dbus::differing(old, new, n).contains(p) ==> exists|i: int|
                0 <= i < n && #[trigger] new[i] == p && old[i].1 != new[i].1,
    decreases n,
{
    if n > 0 {
        let k = n - 1;
        differing_is_exact(old, new, k as nat);
        let before = dbus::differing(old, new, k as nat);
        let after = dbus::differing(old, new, n);
        assert forall|i: int| 0 <= i < n && old[i].1 != new[i].1 implies after.contains(
            #[trigger] new[i],
        ) by {
            if i < k {
                assert(before.contains(new[i]));
                let j = choose|j: int| 0 <= j < before.len() && before[j] == new[i];
                assert(after[j] == new[i]);
            } else {
                assert(after[before.len() as int] == new[i]);
            }
        }
        assert forall|p: Property| #[trigger] after.contains(p) implies exists|i: int|
            0 <= i < n && #[trigger] new[i] == p && old[i].1 != new[i].1 by {
            let j = choose|j: int| 0 <= j < after.len() && after[j] == p;
            if j < before.len() {
                assert(before[j] == p);
                assert(before.contains(p));
                let i = choose|i: int| 0 <= i < k && #[trigger] new[i] == p && old[i].1 != new[i].1;
                assert(new[i] == p);
            } else {
                assert(new[k] == p);
            }
        }
    }
}

/// A signal carries every property that moved, with its new value, and no
/// other.
pub proof fn signal_carries_what_moved(old: SnapshotView, new: SnapshotView)
    ensures
        ({
            let was = dbus::props_of(old);
            let is = dbus::props_of(new);
            let signal = dbus::changes_between(old, new);
            &&& was.len() == is.len()
            &&& forall|i: int| 0 <= i < is.len() ==> (#[trigger] is[i]).0 == was[i].0
            &&& forall|i: int|
                0 <= i < is.len() && was[i].1 != is[i].1 ==> signal.contains(#[trigger] is[i])
            &&& forall|p: Property| #[trigger]
                signal.contains(p) ==> exists|i: int|
                    0 <= i < is.len() && #[trigger] is[i] == p && was[i].1 != is[i].1
        }),
{
    differing_is_exact(dbus::props_of(old), dbus::props_of(new), dbus::props_of(new).len());
}

/// The properties of a device object in terms of what it shows: the name and
/// the connected flag as they are; of a battery report its values, the level as
/// at most 100; without one 0, and 255 for the level; and whole seconds since
/// the epoch.
pub proof fn properties_show_the_snapshot(snap: SnapshotView)
    ensures
        ({
            let props = dbus::props_of(snap);
            &&& props.len() == 11
            &&& props[0] == ("Name"@, PropertyView::Text(snap.name))
            &&& props[1] == ("Connected"@, PropertyView::Flag(snap.connected))
            &&& props[2].0 == "ChargeState"@
            &&& props[3].0 == "BatteryLevel"@
            &&& props[4].0 == "BatteryVoltage"@
            &&& props[5].0 == "SystemVoltage"@
            &&& props[6].0 == "InputVoltage"@
            &&& props[7].0 == "Current"@
            &&& props[8].0 == "InputCurrent"@
            &&& props[9].0 == "Temperature"@
            &&& props[10].0 == "LastUpdated"@
            &&& snap.battery matches Some(b) ==> {
                &&& props[2].1 == PropertyView::Byte(
                    match b.charge_state {
                        ChargeState::Reset => 0,
                        ChargeState::Discharging => 1,
                        ChargeState::Charging => 2,
                        ChargeState::SrcValidate => 3,
                        ChargeState::ChargingDone => 4,
                        ChargeState::Unknown(code) => code,
                    },
                )
                &&& b.level <= 100 ==> props[3].1 == PropertyView::Byte(b.level)
                &&& b.level > 100 ==> props[3].1 == PropertyView::Byte(100)
                &&& props[4].1 == PropertyView::Uint16(b.battery_voltage)
                &&& props[5].1 == PropertyView::Uint16(b.system_voltage)
                &&& props[6].1 == PropertyView::Uint16(b.input_voltage)
                &&& props[7].1 == PropertyView::Uint16(b.current)
                &&& props[8].1 == PropertyView::Uint16(b.input_current)
                &&& props[9].1 == PropertyView::Uint16(b.temperature)
            }
            &&& snap.battery is None ==> {
                &&& props[2].1 == PropertyView::Byte(0)
                &&& props[3].1 == PropertyView::Byte(255)
                &&& forall|i: int|
                    4 <= i < 10 ==> (#[trigger] props[i]).1 == PropertyView::Uint16(0)
            }
            &&& snap.last_updated is None ==> props[10].1 == PropertyView::Uint64(0)
            &&& snap.last_updated matches Some(t) ==> (t.secs < 0 ==> props[10].1
                == PropertyView::Uint64(0)) && (t.secs >= 0 ==> props[10].1
                == PropertyView::Uint64(t.secs as u64))
        }),
{
}

/// What a device object shows of a battery report is that report, the level as
/// at most 100; without a report it is 0, and 255 for the level.
pub proof fn readings_are_those_of_the_report(battery: Option<BatteryStatus>)
    ensures
        ({
            let r = dbus::readings_of(battery);
            &&& battery matches Some(b) ==> {
                &&& b.charge_state == ChargeState::Reset ==> r.charge_state == 0
                &&& b.charge_state == ChargeState::Discharging ==> r.charge_state == 1
                &&& b.charge_state == ChargeState::Charging ==> r.charge_state == 2
                &&& b.charge_state == ChargeState::SrcValidate ==> r.charge_state == 3
                &&& b.charge_state == ChargeState::ChargingDone ==> r.charge_state == 4
                &&& b.charge_state matches ChargeState::Unknown(code) ==> r.charge_state == code
                &&& b.level <= 100 ==> r.level == b.level
                &&& b.level > 100 ==> r.level == 100
                &&& r.battery_voltage == b.battery_voltage
                &&& r.system_voltage == b.system_voltage
                &&& r.input_voltage == b.input_voltage
                &&& r.current == b.current
                &&& r.input_current == b.input_current
                &&& r.temperature == b.temperature
            }
            &&& battery is None ==> {
                &&& r.charge_state == 0
                &&& r.level == 255
                &&& r.battery_voltage == 0
                &&& r.system_voltage == 0
                &&& r.input_voltage == 0
                &&& r.current == 0
                &&& r.input_current == 0
                &&& r.temperature == 0
            }
        }),
{
}

/// The time stamp on the bus is in whole seconds since the epoch, and 0 where
/// there is none or it lies before the epoch.
pub proof fn time_stamps_are_whole_seconds(snap: SnapshotView)
    ensures
        snap.last_updated is None ==> dbus::updated_secs(snap) == 0,
        snap.last_updated matches Some(t) ==> (t.secs >= 0 ==> dbus::updated_secs(snap) == t.secs)
            && (t.secs < 0 ==> dbus::updated_secs(snap) == 0),
{
}

/// No two properties have the same name.
pub proof fn property_names_are_distinct(snap: SnapshotView)
    ensures
        forall|i: int, j: int|
            0 <= i < j < dbus::props_of(snap).len() ==> (#[trigger] dbus::props_of(snap)[i]).0 != (
            #[trigger] dbus::props_of(snap)[j]).0,
{
    reveal_strlit("Name");
    reveal_strlit("Connected");
    reveal_strlit("ChargeState");
    reveal_strlit("BatteryLevel");
    reveal_strlit("BatteryVoltage");
    reveal_strlit("SystemVoltage");
    reveal_strlit("InputVoltage");
    reveal_strlit("Current");
    reveal_strlit("InputCurrent");
    reveal_strlit("Temperature");
    reveal_strlit("LastUpdated");
    assert("Name"@.len() == 4);
    assert("Connected"@.len() == 9);
    assert("ChargeState"@.len() == 11 && "ChargeState"@[0] == 'C');
    assert("BatteryLevel"@.len() == 12 && "BatteryLevel"@[0] == 'B');
    assert("BatteryVoltage"@.len() == 14);
    assert("SystemVoltage"@.len() == 13 && "SystemVoltage"@[0] == 'S');
    assert("InputVoltage"@.len() == 12 && "InputVoltage"@[0] == 'I');
    assert("Current"@.len() == 7);
    assert("InputCurrent"@.len() == 12 && "InputCurrent"@[0] == 'I');
    assert("InputVoltage"@[5] == 'V' && "InputCurrent"@[5] == 'C');
    assert("Temperature"@.len() == 11 && "Temperature"@[0] == 'T');
    assert("LastUpdated"@.len() == 11 && "LastUpdated"@[0] == 'L');
}

/// `changed` names every property that has another value in `new` than in
/// `old`, once and with its new value, and no property that has the same.
pub open spec fn tells_what_moved(
    changed: Seq<Property>,
    old: SnapshotView,
    new: SnapshotView,
) -> bool {
    let was = dbus::props_of(old);
    let is = dbus::props_of(new);
    &&& forall|i: int|
        0 <= i < is.len() && was[i].1 != is[i].1 ==> changed.contains(#[trigger] is[i])
    &&& forall|a: int|
        0 <= a < changed.len() ==> exists|i: int|
            0 <= i < is.len() && #[trigger] is[i] == #[trigger] changed[a] && was[i].1 != is[i].1
    &&& forall|a: int, b: int|
        0 <= a < b < changed.len() ==> (#[trigger] changed[a]).0 != (#[trigger] changed[b]).0
}

proof fn differing_names_once(old: SnapshotView, new: SnapshotView, n: nat)
    requires
        n <= dbus::props_of(new).len(),
    ensures
        ({
            let changed = dbus::differing(dbus::props_of(old), dbus::props_of(new), n);
            &&& forall|a: int|
                0 <= a < changed.len() ==> exists|i: int|
                    0 <= i < n && #[trigger] dbus::props_of(new)[i] == #[trigger] changed[a]
            &&& forall|a: int, b: int|
                0 <= a < b < changed.len() ==> (#[trigger] changed[a]).0 != (
                #[trigger] changed[b]).0
        }),
    decreases n,
{
    if n > 0 {
        let k = n - 1;
        let is = dbus::props_of(new);
        differing_names_once(old, new, k as nat);
        property_names_are_distinct(new);
        let before = dbus::differing(dbus::props_of(old), is, k as nat);
        let changed = dbus::differing(dbus::props_of(old), is, n);
        assert forall|a: int| 0 <= a < changed.len() implies exists|i: int|
            0 <= i < n && #[trigger] is[i] == #[trigger] changed[a] by {
            if a < before.len() {
                let i = choose|i: int| 0 <= i < k && #[trigger] is[i] == before[a];
                assert(is[i] == changed[a]);
            } else {
                assert(is[k] == changed[a]);
            }
        }
        assert forall|a: int, b: int| 0 <= a < b < changed.len() implies (
        #[trigger] changed[a]).0 != (#[trigger] changed[b]).0 by {
            assert(changed[a] == before[a]);
            if b < before.len() {
                assert(changed[b] == before[b]);
            } else {
                let i = choose|i: int| 0 <= i < k && #[trigger] is[i] == before[a];
                assert(is[i].0 != is[k].0);
            }
        }
    }
}

/// The properties that two snapshots tell apart are those that moved, each
/// once.
pub proof fn changes_tell_what_moved(old: SnapshotView, new: SnapshotView)
    ensures
        tells_what_moved(dbus::changes_between(old, new), old, new),
{
    let is = dbus::props_of(new);
    let changed = dbus::changes_between(old, new);
    signal_carries_what_moved(old, new);
    differing_names_once(old, new, is.len());
    assert forall|a: int| 0 <= a < changed.len() implies exists|i: int|
        0 <= i < is.len() && #[trigger] is[i] == #[trigger] changed[a] && dbus::props_of(old)[i].1
            != is[i].1 by {
        assert(changed.contains(changed[a]));
    }
}

/// The device that a change is about, where it shows one.
pub open spec fn shown_key(change: ChangeView) -> Option<Seq<char>> {
    match change {
        ChangeView::Update { index, snapshot, changed } => Some(snapshot.key),
        ChangeView::Add { index, snapshot } => Some(snapshot.key),
        _ => None,
    }
}

/// `change` updates the object of `old` so that it shows `new`, and tells what
/// moved.
pub open spec fn updates(change: ChangeView, old: mirror::ServedView, new: SnapshotView) -> bool {
    change matches ChangeView::Update { index, snapshot, changed } && index == old.index
        && snapshot == new && tells_what_moved(changed, old.snapshot, new)
}

/// What taking in a list of snapshots changes, in terms of the objects before.
proof fn all_shown_changes(m: MirrorView, snapshots: Seq<SnapshotView>)
    requires
        distinct_keys(snapshots),
    ensures
        ({
            let (after, changes) = mirror::all_shown(m, snapshots);
            &&& forall|i: int|
                0 <= i < changes.len() ==> (shown_key(#[trigger] changes[i]) matches Some(key)
                    && mirror::has_snapshot(snapshots, key))
            &&& forall|i: int, j: int|
                0 <= i < j < changes.len() ==> shown_key(#[trigger] changes[i]) != shown_key(
                    #[trigger] changes[j],
                )
            &&& forall|i: int|
                #![trigger changes[i]]
                0 <= i < changes.len() ==> match changes[i] {
                    ChangeView::Update { index, snapshot, changed } => {
                        &&& snapshots.contains(snapshot)
                        &&& m.present.contains_key(snapshot.key)
                        &&& m.present[snapshot.key].snapshot != snapshot
                        &&& updates(changes[i], m.present[snapshot.key], snapshot)
                    },
                    ChangeView::Add { index, snapshot } => {
                        &&& snapshots.contains(snapshot)
                        &&& !m.present.contains_key(snapshot.key)
                        &&& after.present.contains_key(snapshot.key)
                        &&& after.present[snapshot.key].index == index
                    },
                    _ => false,
                }
            &&& forall|s: int|
                #![trigger snapshots[s]]
                0 <= s < snapshots.len() && !(m.present.contains_key(snapshots[s].key)
                    && m.present[snapshots[s].key].snapshot == snapshots[s]) ==> exists|i: int|
                    0 <= i < changes.len() && shown_key(#[trigger] changes[i]) == Some(
                        snapshots[s].key,
                    )
        }),
    decreases snapshots.len(),
{
    if snapshots.len() > 0 {
        let shorter = snapshots.drop_last();
        let last = snapshots.last();
        assert forall|i: int, j: int| 0 <= i < j < shorter.len() implies (
        #[trigger] shorter[i]).key != (#[trigger] shorter[j]).key by {
            assert(snapshots[i].key != snapshots[j].key);
        }
        all_shown_changes(m, shorter);
        all_shown_shows(m, shorter);
        let (before, acted) = mirror::all_shown(m, shorter);
        let (after, more) = mirror::shown(before, last);
        let changes = acted + more;
        assert(mirror::all_shown(m, snapshots) == (after, changes));
        assert(snapshots[snapshots.len() - 1] == last);
        assert(!mirror::has_snapshot(shorter, last.key)) by {
            if mirror::has_snapshot(shorter, last.key) {
                let i = choose|i: int|
                    0 <= i < shorter.len() && (#[trigger] shorter[i]).key == last.key;
                assert(snapshots[i].key != snapshots[snapshots.len() - 1].key);
            }
        }
        all_shown_keeps(m, shorter, last.key);
        if m.present.contains_key(last.key) {
            changes_tell_what_moved(m.present[last.key].snapshot, last);
        }
        assert(mirror::has_snapshot(snapshots, last.key));
        assert forall|i: int| 0 <= i < changes.len() implies (shown_key(#[trigger] changes[i])
            matches Some(key) && mirror::has_snapshot(snapshots, key)) by {
            if i < acted.len() {
                assert(changes[i] == acted[i]);
                let key = shown_key(acted[i])->0;
                let s = choose|s: int| 0 <= s < shorter.len() && (#[trigger] shorter[s]).key == key;
                assert(snapshots[s].key == key);
            } else {
                assert(changes[i] == more[i - acted.len()]);
            }
        }
        assert forall|i: int, j: int| 0 <= i < j < changes.len() implies shown_key(
            #[trigger] changes[i],
        ) != shown_key(#[trigger] changes[j]) by {
            assert(changes[i] == acted[i]);
            if j < acted.len() {
                assert(changes[j] == acted[j]);
            } else {
                assert(changes[j] == more[j - acted.len()]);
                assert(shown_key(changes[j]) == Some(last.key));
            }
        }
        assert forall|i: int| #![trigger changes[i]] 0 <= i < changes.len() implies match changes[i] {
            ChangeView::Update { index, snapshot, changed } => {
                &&& snapshots.contains(snapshot)
                &&& m.present.contains_key(snapshot.key)
                &&& m.present[snapshot.key].snapshot != snapshot
                &&& updates(changes[i], m.present[snapshot.key], snapshot)
            },
            ChangeView::Add { index, snapshot } => {
                &&& snapshots.contains(snapshot)
                &&& !m.present.contains_key(snapshot.key)
                &&& after.present.contains_key(snapshot.key)
                &&& after.present[snapshot.key].index == index
            },
            _ => false,
        } by {
            if i < acted.len() {
                assert(changes[i] == acted[i]);
                match acted[i] {
                    ChangeView::Update { index, snapshot, changed } => {
                        let s = choose|s: int| 0 <= s < shorter.len() && shorter[s] == snapshot;
                        assert(snapshots[s] == snapshot);
                    },
                    ChangeView::Add { index, snapshot } => {
                        let s = choose|s: int| 0 <= s < shorter.len() && shorter[s] == snapshot;
                        assert(snapshots[s] == snapshot);
                        assert(snapshots[s].key != snapshots[snapshots.len() - 1].key);
                    },
                    _ => {},
                }
            } else {
                assert(changes[i] == more[i - acted.len()]);
            }
        }
        assert forall|s: int|
            #![trigger snapshots[s]]
            0 <= s < snapshots.len() && !(m.present.contains_key(snapshots[s].key)
                && m.present[snapshots[s].key].snapshot == snapshots[s]) implies exists|i: int|
            0 <= i < changes.len() && shown_key(#[trigger] changes[i]) == Some(snapshots[s].key) by {
            if s < shorter.len() {
                assert(shorter[s] == snapshots[s]);
                let i = choose|i: int|
                    0 <= i < acted.len() && shown_key(#[trigger] acted[i]) == Some(shorter[s].key);
                assert(changes[i] == acted[i]);
            } else {
                assert(changes[acted.len() as int] == more[0]);
            }
        }
    }
}

/// Snapshots of other devices leave an object alone.
proof fn all_shown_keeps(m: MirrorView, snapshots: Seq<SnapshotView>, key: Seq<char>)
    requires
        !mirror::has_snapshot(snapshots, key),
    ensures
        ({
            let after = mirror::all_shown(m, snapshots).0;
            &&& after.present.contains_key(key) == m.present.contains_key(key)
            &&& m.present.contains_key(key) ==> after.present[key] == m.present[key]
        }),
    decreases snapshots.len(),
{
    if snapshots.len() > 0 {
        let shorter = snapshots.drop_last();
        if mirror::has_snapshot(shorter, key) {
            let i = choose|i: int| 0 <= i < shorter.len() && (#[trigger] shorter[i]).key == key;
            assert(snapshots[i].key == key);
        }
        all_shown_keeps(m, shorter, key);
        assert(snapshots[snapshots.len() - 1].key != key);
    }
}

/// A sync changes the objects of exactly the devices that changed. Each device
/// whose snapshot is another than the one that its object shows gets one update
/// of that object, which tells exactly the properties that moved with their new
/// values; each device that is new gets one object, which shows its snapshot;
/// one whose snapshot is the one shown gets nothing.
pub proof fn sync_updates_what_moved(m: mirror::Mirror, snapshots: Seq<SnapshotView>, s: int)
    requires
        m.wf(),
        distinct_keys(snapshots),
        0 <= s < snapshots.len(),
    ensures
        ({
            let (after, changes) = mirror::synced(m@, snapshots);
            let new = snapshots[s];
            let known = m@.present.contains_key(new.key);
            let old = m@.present[new.key];
            &&& forall|i: int, j: int|
                0 <= i < changes.len() && 0 <= j < changes.len() && shown_key(
                    #[trigger] changes[i],
                ) == Some(new.key) && shown_key(#[trigger] changes[j]) == Some(new.key) ==> i == j
            &&& known && old.snapshot != new ==> exists|i: int|
                0 <= i < changes.len() && updates(#[trigger] changes[i], old, new)
            &&& !known ==> exists|i: int|
                0 <= i < changes.len() && #[trigger] changes[i] == (ChangeView::Add {
                    index: after.present[new.key].index,
                    snapshot: new,
                })
            &&& known && old.snapshot == new ==> forall|i: int|
                0 <= i < changes.len() ==> shown_key(#[trigger] changes[i]) != Some(new.key)
        }),
{
    let removals = mirror::gone(key_map::items_of(m@.present), snapshots);
    let begun = MirrorView { present: mirror::kept(m@.present, snapshots), ..m@ };
    let (then, shown) = mirror::all_shown(begun, snapshots);
    let (after, changes) = mirror::synced(m@, snapshots);
    let new = snapshots[s];
    let known = m@.present.contains_key(new.key);
    let old = m@.present[new.key];
    gone_adds_nothing(key_map::items_of(m@.present), snapshots);
    all_shown_changes(begun, snapshots);
    assert(mirror::has_snapshot(snapshots, new.key));
    assert(begun.present.contains_key(new.key) == known);
    assert(known ==> begun.present[new.key] == old);
    let n = removals.len() as int;
    assert forall|i: int| 0 <= i < changes.len() && shown_key(#[trigger] changes[i]) is Some implies n
        <= i < n + shown.len() && changes[i] == shown[i - n] by {
        if i < n {
            assert(changes[i] == removals[i]);
        }
    }
    assert forall|i: int| 0 <= i < shown.len() implies (#[trigger] shown[i]) == changes[i + n] by {}
    assert forall|i: int, j: int|
        0 <= i < changes.len() && 0 <= j < changes.len() && shown_key(#[trigger] changes[i])
            == Some(new.key) && shown_key(#[trigger] changes[j]) == Some(new.key) implies i == j by {
        assert(changes[i] == shown[i - n] && changes[j] == shown[j - n]);
        if i < j {
            assert(shown_key(shown[i - n]) != shown_key(shown[j - n]));
        }
        if j < i {
            assert(shown_key(shown[j - n]) != shown_key(shown[i - n]));
        }
    }
    if !(known && old.snapshot == new) {
        let i = choose|i: int|
            0 <= i < shown.len() && shown_key(#[trigger] shown[i]) == Some(new.key);
        let change = shown[i];
        assert(changes[i + n] == change);
        match change {
            ChangeView::Update { index, snapshot, changed } => {
                one_snapshot_for_a_key(snapshots, s, snapshot);
                assert(updates(changes[i + n], old, new));
            },
            ChangeView::Add { index, snapshot } => {
                one_snapshot_for_a_key(snapshots, s, snapshot);
                assert(changes[i + n] == ChangeView::Add {
                    index: after.present[new.key].index,
                    snapshot: new,
                });
            },
            _ => {},
        }
    } else {
        assert forall|i: int| 0 <= i < changes.len() implies shown_key(#[trigger] changes[i])
            != Some(new.key) by {
            if shown_key(changes[i]) == Some(new.key) {
                let change = shown[i - n];
                match change {
                    ChangeView::Update { index, snapshot, changed } => {
                        one_snapshot_for_a_key(snapshots, s, snapshot);
                    },
                    ChangeView::Add { index, snapshot } => {},
                    _ => {},
                }
            }
        }
    }
}

proof fn one_snapshot_for_a_key(snapshots: Seq<SnapshotView>, s: int, other: SnapshotView)
    requires
        distinct_keys(snapshots),
        0 <= s < snapshots.len(),
        snapshots.contains(other),
        other.key == snapshots[s].key,
    ensures
        other == snapshots[s],
{
    let o = choose|o: int| 0 <= o < snapshots.len() && snapshots[o] == other;
    if o < s {
        assert(snapshots[o].key != snapshots[s].key);
    }
    if s < o {
        assert(snapshots[s].key != snapshots[o].key);
    }
}

proof fn gone_are_removed(
    items: Seq<(Seq<char>, mirror::ServedView)>,
    snapshots: Seq<SnapshotView>,
)
    requires
        forall|a: int, b: int|
            0 <= a < b < items.len() ==> (#[trigger] items[a]).1.index != (
            #[trigger] items[b]).1.index,
    ensures
        ({
            let removals = mirror::gone(items, snapshots);
            &&& forall|i: int|
                0 <= i < removals.len() ==> exists|a: int|
                    0 <= a < items.len() && !mirror::has_snapshot(snapshots, items[a].0)
                        && #[trigger] removals[i] == ChangeView::Remove((#[trigger] items[a]).1.index)
            &&& forall|a: int|
                0 <= a < items.len() && !mirror::has_snapshot(snapshots, (#[trigger] items[a]).0)
                    ==> removals.contains(ChangeView::Remove(items[a].1.index))
            &&& forall|i: int, j: int|
                0 <= i < j < removals.len() ==> #[trigger] removals[i] != #[trigger] removals[j]
        }),
    decreases items.len(),
{
    if items.len() > 0 {
        let shorter = items.drop_last();
        let last = items.last();
        assert forall|a: int, b: int| 0 <= a < b < shorter.len() implies (
        #[trigger] shorter[a]).1.index != (#[trigger] shorter[b]).1.index by {
            assert(items[a].1.index != items[b].1.index);
        }
        gone_are_removed(shorter, snapshots);
        let before = mirror::gone(shorter, snapshots);
        let removals = mirror::gone(items, snapshots);
        assert(items[items.len() - 1] == last);
        assert forall|i: int| 0 <= i < removals.len() implies exists|a: int|
            0 <= a < items.len() && !mirror::has_snapshot(snapshots, items[a].0)
                && #[trigger] removals[i] == ChangeView::Remove((#[trigger] items[a]).1.index) by {
            if i < before.len() {
                let a = choose|a: int|
                    0 <= a < shorter.len() && !mirror::has_snapshot(snapshots, shorter[a].0)
                        && before[i] == ChangeView::Remove((#[trigger] shorter[a]).1.index);
                assert(items[a] == shorter[a]);
                assert(removals[i] == ChangeView::Remove(items[a].1.index));
            } else {
                assert(removals[i] == ChangeView::Remove(items[items.len() - 1].1.index));
            }
        }
        assert forall|a: int|
            0 <= a < items.len() && !mirror::has_snapshot(
                snapshots,
                (#[trigger] items[a]).0,
            ) implies removals.contains(ChangeView::Remove(items[a].1.index)) by {
            if a < shorter.len() {
                assert(shorter[a] == items[a]);
                let i = choose|i: int|
                    0 <= i < before.len() && before[i] == ChangeView::Remove(shorter[a].1.index);
                assert(removals[i] == before[i]);
            } else {
                assert(removals[before.len() as int] == ChangeView::Remove(last.1.index));
            }
        }
        assert forall|i: int, j: int| 0 <= i < j < removals.len() implies #[trigger] removals[i]
            != #[trigger] removals[j] by {
            assert(removals[i] == before[i]);
            if j < before.len() {
                assert(removals[j] == before[j]);
            } else {
                let a = choose|a: int|
                    0 <= a < shorter.len() && !mirror::has_snapshot(snapshots, shorter[a].0)
                        && before[i] == ChangeView::Remove((#[trigger] shorter[a]).1.index);
                assert(items[a].1.index != items[items.len() - 1].1.index);
            }
        }
    }
}

/// A sync takes away the object of every device that is gone, once, and no
/// other; this comes before all else.
pub proof fn sync_removes_what_is_gone(m: mirror::Mirror, snapshots: Seq<SnapshotView>)
    requires
        m.wf(),
    ensures
        ({
            let changes = mirror::synced(m@, snapshots).1;
            let present = m@.present;
            &&& forall|key: Seq<char>| #[trigger]
                present.contains_key(key) && (forall|s: int|
                    0 <= s < snapshots.len() ==> (#[trigger] snapshots[s]).key != key)
                    ==> changes.contains(ChangeView::Remove(present[key].index))
            &&& forall|i: int|
                0 <= i < changes.len() && (#[trigger] changes[i]) is Remove ==> exists|key:
                    Seq<char>| #[trigger]
                    present.contains_key(key) && changes[i] == ChangeView::Remove(
                        present[key].index,
                    ) && forall|s: int|
                        0 <= s < snapshots.len() ==> (#[trigger] snapshots[s]).key != key
            &&& forall|i: int, j: int|
                0 <= i < j < changes.len() && (#[trigger] changes[j]) is Remove ==> (
                #[trigger] changes[i]) is Remove && changes[i] != changes[j]
        }),
{
    let present = m@.present;
    let items = key_map::items_of(present);
    let removals = mirror::gone(items, snapshots);
    let begun = MirrorView { present: mirror::kept(present, snapshots), ..m@ };
    let shown = mirror::all_shown(begun, snapshots).1;
    let changes = mirror::synced(m@, snapshots).1;
    m.lemma_has_items();
    assert forall|a: int, b: int| 0 <= a < b < items.len() implies (#[trigger] items[a]).1.index
        != (#[trigger] items[b]).1.index by {
        key_map::lemma_place(items, a);
        key_map::lemma_place(items, b);
        assert(present.contains_key(items[a].0) && present.contains_key(items[b].0));
        text::key_before_irreflexive(items[a].0);
        assert(text::key_before(items[a].0, items[b].0));
    }
    gone_are_removed(items, snapshots);
    gone_adds_nothing(items, snapshots);
    shown_removes_nothing(begun, snapshots);
    let n = removals.len() as int;
    assert forall|i: int| 0 <= i < changes.len() && (#[trigger] changes[i]) is Remove implies i < n
        && changes[i] == removals[i] by {
        if n <= i < n + shown.len() {
            assert(changes[i] == shown[i - n]);
        }
    }
    assert forall|i: int| 0 <= i < n implies changes[i] == #[trigger] removals[i] by {}
    assert forall|key: Seq<char>| #[trigger]
        present.contains_key(key) && (forall|s: int|
            0 <= s < snapshots.len() ==> (#[trigger] snapshots[s]).key
                != key) implies changes.contains(ChangeView::Remove(present[key].index)) by {
        assert(key_map::has_key(items, key));
        let a = key_map::place_of(items, key);
        key_map::lemma_place(items, a);
        assert(!mirror::has_snapshot(snapshots, items[a].0));
        let i = choose|i: int|
            0 <= i < removals.len() && removals[i] == ChangeView::Remove(items[a].1.index);
        assert(changes[i] == removals[i]);
    }
    assert forall|i: int|
        0 <= i < changes.len() && (#[trigger] changes[i]) is Remove implies exists|key: Seq<char>|
        #[trigger] present.contains_key(key) && changes[i] == ChangeView::Remove(present[key].index)
            && forall|s: int| 0 <= s < snapshots.len() ==> (#[trigger] snapshots[s]).key != key by {
        assert(changes[i] == removals[i]);
        let a = choose|a: int|
            0 <= a < items.len() && !mirror::has_snapshot(snapshots, items[a].0) && removals[i]
                == ChangeView::Remove((#[trigger] items[a]).1.index);
        key_map::lemma_place(items, a);
        let key = items[a].0;
        assert forall|s: int| 0 <= s < snapshots.len() implies (#[trigger] snapshots[s]).key
            != key by {}
        assert(present.contains_key(key));
    }
    assert forall|i: int, j: int|
        0 <= i < j < changes.len() && (#[trigger] changes[j]) is Remove implies (
    #[trigger] changes[i]) is Remove && changes[i] != changes[j] by {
        assert(changes[j] == removals[j]);
        assert(changes[i] == removals[i]);
        assert(removals[i] is Remove);
    }
}

proof fn shown_removes_nothing(m: MirrorView, snapshots: Seq<SnapshotView>)
    ensures
        forall|i: int|
            0 <= i < mirror::all_shown(m, snapshots).1.len() ==> !((#[trigger] mirror::all_shown(
                m,
                snapshots,
            ).1[i]) is Remove),
    decreases snapshots.len(),
{
    if snapshots.len() > 0 {
        shown_removes_nothing(m, snapshots.drop_last());
    }
}

/// The number of an object stands at the end of its path.
pub proof fn paths_end_in_the_number(index: nat)
    ensures
        dbus::device_path_text(index) == "/io/github/steambattery/dev"@ + text::decimal(index),
{
    reveal_strlit("/io/github/steambattery/dev");
    reveal_strlit("/io/github/steambattery");
    reveal_strlit("/dev");
    assert(crate::interface::ROOT_PATH@ + "/dev"@ =~= "/io/github/steambattery/dev"@);
}

/// The models of an object and of a change show all that these hold.
pub proof fn mirror_model_is_faithful(served: mirror::Served, change: mirror::Change)
    ensures
        served@.index == served.index,
        served@.snapshot == served.snapshot@,
        change matches mirror::Change::Remove(index) ==> change@ == ChangeView::Remove(index),
        change matches mirror::Change::Add { index, snapshot } ==> change@ == (ChangeView::Add {
            index,
            snapshot: snapshot@,
        }),
        change matches mirror::Change::List(indices) ==> change@ == ChangeView::List(indices@),
        change matches mirror::Change::Update { index, snapshot, changed } ==> (change@
            matches ChangeView::Update { index: i, snapshot: s, changed: c } && i == index && s
            == snapshot@ && c.len() == changed@.len() && forall|k: int|
            0 <= k < c.len() ==> (#[trigger] c[k]) == (changed@[k].0@, changed@[k].1@)),
{
}

/// The model of a mirror, and of a list of changes or of properties, holds all
/// that these hold, in their order.
pub proof fn mirror_lists_are_faithful(
    m: mirror::Mirror,
    changes: Seq<mirror::Change>,
    props: Seq<(&'static str, crate::interface::PropertyValue)>,
)
    ensures
        m@.next_index == m.next_index,
        m@.listed == m.listed@,
        forall|key: Seq<char>| #[trigger]
            m@.present.contains_key(key) <==> m.present@.contains_key(key),
        forall|key: Seq<char>|
            m.present@.contains_key(key) ==> #[trigger] m@.present[key] == m.present@[key]@,
        mirror::change_views(changes).len() == changes.len(),
        forall|i: int|
            0 <= i < changes.len() ==> #[trigger] mirror::change_views(changes)[i] == changes[i]@,
        dbus::property_views(props).len() == props.len(),
        forall|i: int|
            0 <= i < props.len() ==> #[trigger] dbus::property_views(props)[i] == (
                props[i].0@,
                props[i].1@,
            ),
{
}

proof fn shown_in_order(m: MirrorView, snapshots: Seq<SnapshotView>)
    requires
        distinct_keys(snapshots),
    ensures
        ({
            let changes = mirror::all_shown(m, snapshots).1;
            forall|i: int, j: int, s: int, t: int|
                #![trigger changes[i], changes[j], snapshots[s], snapshots[t]]
                0 <= i < j < changes.len() && 0 <= s < snapshots.len() && 0 <= t < snapshots.len()
                    && shown_key(changes[i]) == Some(snapshots[s].key) && shown_key(changes[j])
                    == Some(snapshots[t].key) ==> s < t
        }),
    decreases snapshots.len(),
{
    if snapshots.len() > 0 {
        let shorter = snapshots.drop_last();
        let k = snapshots.len() - 1;
        assert forall|i: int, j: int| 0 <= i < j < shorter.len() implies (
        #[trigger] shorter[i]).key != (#[trigger] shorter[j]).key by {
            assert(snapshots[i].key != snapshots[j].key);
        }
        shown_in_order(m, shorter);
        all_shown_changes(m, shorter);
        let (before, acted) = mirror::all_shown(m, shorter);
        let more = mirror::shown(before, snapshots.last()).1;
        let changes = mirror::all_shown(m, snapshots).1;
        assert(changes == acted + more);
        assert forall|i: int, j: int, s: int, t: int|
            #![trigger changes[i], changes[j], snapshots[s], snapshots[t]]
            0 <= i < j < changes.len() && 0 <= s < snapshots.len() && 0 <= t < snapshots.len()
                && shown_key(changes[i]) == Some(snapshots[s].key) && shown_key(changes[j]) == Some(
                snapshots[t].key,
            ) implies s < t by {
            assert(changes[i] == acted[i]);
            let key = shown_key(acted[i])->0;
            assert(mirror::has_snapshot(shorter, key));
            let p = choose|p: int| 0 <= p < shorter.len() && (#[trigger] shorter[p]).key == key;
            assert(snapshots[p].key == snapshots[s].key);
            assert(p == s) by {
                if p < s {
                    assert(snapshots[p].key != snapshots[s].key);
                }
                if s < p {
                    assert(snapshots[s].key != snapshots[p].key);
                }
            }
            if j < acted.len() {
                assert(changes[j] == acted[j]);
                let other = shown_key(acted[j])->0;
                let q = choose|q: int|
                    0 <= q < shorter.len() && (#[trigger] shorter[q]).key == other;
                assert(snapshots[q].key == snapshots[t].key);
                assert(q == t) by {
                    if q < t {
                        assert(snapshots[q].key != snapshots[t].key);
                    }
                    if t < q {
                        assert(snapshots[t].key != snapshots[q].key);
                    }
                }
                assert(shorter[s].key == key && shorter[t].key == other);
            } else {
                assert(changes[j] == more[j - acted.len()]);
                assert(snapshots[k].key == snapshots[t].key);
                if t < k {
                    assert(snapshots[t].key != snapshots[k].key);
                }
            }
        }
    }
}

/// Updates and new objects come in the order of the snapshots.
pub proof fn changes_follow_the_snapshots(
    m: mirror::Mirror,
    snapshots: Seq<SnapshotView>,
    i: int,
    j: int,
    s: int,
    t: int,
)
    requires
        m.wf(),
        distinct_keys(snapshots),
        0 <= i < j < mirror::synced(m@, snapshots).1.len(),
        0 <= s < snapshots.len(),
        0 <= t < snapshots.len(),
        shown_key(mirror::synced(m@, snapshots).1[i]) == Some(snapshots[s].key),
        shown_key(mirror::synced(m@, snapshots).1[j]) == Some(snapshots[t].key),
    ensures
        s < t,
{
    let removals = mirror::gone(key_map::items_of(m@.present), snapshots);
    let begun = MirrorView { present: mirror::kept(m@.present, snapshots), ..m@ };
    let shown = mirror::all_shown(begun, snapshots).1;
    let changes = mirror::synced(m@, snapshots).1;
    let n = removals.len() as int;
    gone_adds_nothing(key_map::items_of(m@.present), snapshots);
    shown_in_order(begun, snapshots);
    if i < n {
        assert(changes[i] == removals[i]);
    }
    assert(changes[i] == shown[i - n]);
    if j < n + shown.len() {
        assert(changes[j] == shown[j - n]);
    }
    assert(snapshots[s].key == snapshots[s].key && snapshots[t].key == snapshots[t].key);
}

} // verus!
