//! What holds of the supervision as a whole, over the models that the
//! contracts of its operations speak of.
use crate::discovery::{EventView, NodeView};
use crate::reader::End;
use crate::supervisor;
use crate::supervisor::{ActionView, RetryView, SupervisorView};
use vstd::prelude::*;

verus! {

/// The delay before an attempt starts at `RETRY_BASE` and doubles from one
/// attempt to the next, up to `RETRY_CAP`.
pub proof fn delay_doubles_up_to_the_cap(attempt: nat)
    ensures
        supervisor::retry_delay_of(0) == supervisor::RETRY_BASE,
        supervisor::retry_delay_of(attempt + 1) == if 2 * supervisor::retry_delay_of(attempt)
            < supervisor::RETRY_CAP {
            2 * supervisor::retry_delay_of(attempt)
        } else {
            supervisor::RETRY_CAP as int
        },
        supervisor::RETRY_BASE <= supervisor::retry_delay_of(attempt) <= supervisor::RETRY_CAP,
{
    reveal_with_fuel(supervisor::power_of_two, 2);
    power_of_two_positive(attempt);
}

proof fn power_of_two_positive(n: nat)
    ensures
        supervisor::power_of_two(n) >= 1,
    decreases n,
{
    if n > 0 {
        power_of_two_positive((n - 1) as nat);
    }
}

/// The reader of a node failed again and again.
pub open spec fn after_failures(
    s: SupervisorView,
    node: NodeView,
    failures: Seq<(End, i64)>,
) -> SupervisorView
    decreases failures.len(),
{
    if failures.len() == 0 {
        s
    } else {
        supervisor::ended(
            after_failures(s, node, failures.drop_last()),
            node,
            failures.last().0,
            failures.last().1,
        )
    }
}

/// How often a node has been tried again.
pub open spec fn attempts_of(s: SupervisorView, devnode: Seq<char>) -> int {
    if s.attempts.contains_key(devnode) {
        s.attempts[devnode] as int
    } else {
        0
    }
}

/// A node that keeps failing is tried again `RETRY_MAX_ATTEMPTS` times, each
/// failure but those beyond scheduling one more attempt; then it is given up.
pub proof fn gives_up_after_max_attempts(
    s: SupervisorView,
    node: NodeView,
    failures: Seq<(End, i64)>,
)
    requires
        attempts_of(s, node.devnode) == 0,
        forall|i: int| 0 <= i < failures.len() ==> !((#[trigger] failures[i]).0 is DeviceGone),
    ensures
        ({
            let after = after_failures(s, node, failures);
            let tried: int = if failures.len() < supervisor::RETRY_MAX_ATTEMPTS {
                failures.len() as int
            } else {
                supervisor::RETRY_MAX_ATTEMPTS as int
            };
            &&& attempts_of(after, node.devnode) == tried
            &&& after.retries.len() == s.retries.len() + tried
        }),
    decreases failures.len(),
{
    if failures.len() > 0 {
        let shorter = failures.drop_last();
        assert forall|i: int| 0 <= i < shorter.len() implies !((#[trigger] shorter[i]).0
            is DeviceGone) by {
            assert(shorter[i] == failures[i]);
        }
        gives_up_after_max_attempts(s, node, shorter);
        assert(!(failures[failures.len() - 1].0 is DeviceGone));
    }
}

/// A failure schedules the next attempt as far off as the attempts before it
/// say.
pub proof fn failure_backs_off(s: SupervisorView, node: NodeView, end: End, now: i64)
    requires
        !(end is DeviceGone),
        attempts_of(s, node.devnode) < supervisor::RETRY_MAX_ATTEMPTS,
        now + supervisor::RETRY_CAP <= i64::MAX,
    ensures
        ({
            let after = supervisor::ended(s, node, end, now);
            &&& after.retries.len() == s.retries.len() + 1
            &&& after.retries.last().node == node
            &&& after.retries.last().at == now + supervisor::retry_delay_of(
                attempts_of(s, node.devnode) as nat,
            )
        }),
{
    delay_doubles_up_to_the_cap(attempts_of(s, node.devnode) as nat);
}

/// A clean unplug is not tried again.
pub proof fn unplug_is_not_retried(s: SupervisorView, node: NodeView, now: i64)
    ensures
        ({
            let after = supervisor::ended(s, node, End::DeviceGone, now);
            &&& after.retries == s.retries
            &&& attempts_of(after, node.devnode) == 0
            &&& !after.readers.contains_key(node.devnode)
        }),
{
}

/// No retry of `devnode` is scheduled.
pub open spec fn nothing_scheduled(s: SupervisorView, devnode: Seq<char>) -> bool {
    forall|i: int| 0 <= i < s.retries.len() ==> (#[trigger] s.retries[i]).node.devnode != devnode
}

proof fn filtered_out<A>(s: Seq<A>, p: spec_fn(A) -> bool)
    ensures
        forall|i: int| 0 <= i < s.filter(p).len() ==> p(#[trigger] s.filter(p)[i]),
{
    assert forall|i: int| 0 <= i < s.filter(p).len() implies p(#[trigger] s.filter(p)[i]) by {
        s.lemma_filter_pred(p, i);
    }
}

/// A udev event for a node starts it over, whatever became of it before: its
/// failures are forgotten, nothing is scheduled, and it is being read.
pub proof fn udev_event_starts_over(
    s: SupervisorView,
    node: NodeView,
    finished: Map<Seq<char>, ()>,
)
    ensures
        ({
            let (after, actions) = supervisor::changed(s, EventView::Added(node), finished);
            &&& attempts_of(after, node.devnode) == 0
            &&& nothing_scheduled(after, node.devnode)
            &&& after.readers.contains_key(node.devnode)
            &&& supervisor::is_live(s.readers, finished, node.devnode) <==> actions.len() == 0
            &&& actions.len() > 0 ==> actions == seq![ActionView::Start(node)]
        }),
{
    filtered_out(s.retries, |r: RetryView| r.node.devnode != node.devnode);
}

/// Nothing is left of a node that was removed, and its reader is aborted.
pub proof fn removal_leaves_nothing(
    s: SupervisorView,
    devnode: Seq<char>,
    finished: Map<Seq<char>, ()>,
)
    ensures
        ({
            let (after, actions) = supervisor::changed(s, EventView::Removed(devnode), finished);
            &&& attempts_of(after, devnode) == 0
            &&& nothing_scheduled(after, devnode)
            &&& !after.readers.contains_key(devnode)
            &&& s.readers.contains_key(devnode) <==> actions == seq![ActionView::Abort(devnode)]
        }),
{
    filtered_out(s.retries, |r: RetryView| r.node.devnode != devnode);
    assert(Seq::<ActionView>::empty().len() != seq![ActionView::Abort(devnode)].len());
}

/// The retries of a node, in their order.
pub open spec fn retries_of(s: SupervisorView, devnode: Seq<char>) -> Seq<RetryView> {
    s.retries.filter(|r: RetryView| r.node.devnode == devnode)
}

/// The node of a change.
pub open spec fn node_path(event: EventView) -> Seq<char> {
    match event {
        EventView::Added(node) => node.devnode,
        EventView::Removed(devnode) => devnode,
    }
}

/// All that is known of a node is the same.
pub open spec fn same_for(a: SupervisorView, b: SupervisorView, devnode: Seq<char>) -> bool {
    &&& a.readers.contains_key(devnode) == b.readers.contains_key(devnode)
    &&& attempts_of(a, devnode) == attempts_of(b, devnode)
    &&& retries_of(a, devnode) == retries_of(b, devnode)
}

proof fn filter_after_filter(s: Seq<RetryView>, gone: Seq<char>, devnode: Seq<char>)
    requires
        gone != devnode,
    ensures
        supervisor::without_retries(s, gone).filter(|r: RetryView| r.node.devnode == devnode)
            == s.filter(|r: RetryView| r.node.devnode == devnode),
    decreases s.len(),
{
    reveal(Seq::filter);
    if s.len() > 0 {
        filter_after_filter(s.drop_last(), gone, devnode);
        let rest = supervisor::without_retries(s.drop_last(), gone);
        assert(rest.push(s.last()).drop_last() =~= rest);
    }
}

/// What becomes of one node leaves every other one alone.
pub proof fn other_nodes_untouched(
    s: SupervisorView,
    node: NodeView,
    end: End,
    now: i64,
    event: EventView,
    finished: Map<Seq<char>, ()>,
    other: Seq<char>,
)
    ensures
        other != node.devnode ==> same_for(supervisor::ended(s, node, end, now), s, other),
        other != node_path(event) ==> same_for(
            supervisor::changed(s, event, finished).0,
            s,
            other,
        ),
{
    if other != node.devnode {
        let after = supervisor::ended(s, node, end, now);
        reveal(Seq::filter);
        if after.retries.len() > s.retries.len() {
            assert(after.retries.drop_last() =~= s.retries);
        }
    }
    if other != node_path(event) {
        filter_after_filter(s.retries, node_path(event), other);
    }
}

/// Of nodes to be started each is one whose reader is not live, none comes
/// twice, and none that should be is missing.
pub proof fn starts_are_exact(
    readers: Map<Seq<char>, ()>,
    finished: Map<Seq<char>, ()>,
    nodes: Seq<NodeView>,
)
    ensures
        ({
            let starting = supervisor::to_start(readers, finished, nodes);
            &&& forall|i: int|
                0 <= i < starting.len() ==> !supervisor::is_live(
                    readers,
                    finished,
                    (#[trigger] starting[i]).devnode,
                ) && nodes.contains(starting[i])
            &&& forall|i: int, j: int|
                0 <= i < j < starting.len() ==> (#[trigger] starting[i]).devnode != (
                #[trigger] starting[j]).devnode
            &&& forall|i: int|
                0 <= i < nodes.len() ==> supervisor::is_live(
                    readers,
                    finished,
                    (#[trigger] nodes[i]).devnode,
                ) || supervisor::names_node(starting, nodes[i].devnode)
        }),
    decreases nodes.len(),
{
    if nodes.len() > 0 {
        let shorter = nodes.drop_last();
        let node = nodes.last();
        starts_are_exact(readers, finished, shorter);
        let before = supervisor::to_start(readers, finished, shorter);
        let starting = supervisor::to_start(readers, finished, nodes);
        assert(nodes[nodes.len() - 1] == node);
        assert forall|i: int| 0 <= i < starting.len() implies !supervisor::is_live(
            readers,
            finished,
            (#[trigger] starting[i]).devnode,
        ) && nodes.contains(starting[i]) by {
            if i < before.len() {
                assert(starting[i] == before[i]);
                let k = choose|k: int| 0 <= k < shorter.len() && shorter[k] == before[i];
                assert(nodes[k] == before[i]);
            }
        }
        assert forall|i: int, j: int| 0 <= i < j < starting.len() implies (
        #[trigger] starting[i]).devnode != (#[trigger] starting[j]).devnode by {
            assert(starting[i] == before[i]);
            if j < before.len() {
                assert(starting[j] == before[j]);
            }
        }
        assert forall|i: int| 0 <= i < nodes.len() implies supervisor::is_live(
            readers,
            finished,
            (#[trigger] nodes[i]).devnode,
        ) || supervisor::names_node(starting, nodes[i].devnode) by {
            let path = nodes[i].devnode;
            if i < shorter.len() {
                assert(shorter[i] == nodes[i]);
            }
            if supervisor::names_node(before, path) {
                let k = choose|k: int|
                    0 <= k < before.len() && (#[trigger] before[k]).devnode == path;
                assert(starting[k].devnode == path);
            } else if !supervisor::is_live(readers, finished, path) {
                assert(i == nodes.len() - 1);
                assert(starting[before.len() as int].devnode == path);
            }
        }
    }
}

/// Once the retry timer has gone off nothing that was due is left, all else
/// is, and every node that was due is being read.
pub proof fn retry_clears_what_is_due(
    s: SupervisorView,
    finished: Map<Seq<char>, ()>,
    now: i64,
)
    ensures
        ({
            let after = supervisor::retried(s, finished, now).0;
            let due = supervisor::due_nodes(s.retries, now);
            &&& forall|i: int| 0 <= i < after.retries.len() ==> (#[trigger] after.retries[i]).at > now
            &&& after.retries.len() + due.len() == s.retries.len()
            &&& after.attempts == s.attempts
            &&& forall|i: int|
                0 <= i < due.len() ==> after.readers.contains_key((#[trigger] due[i]).devnode)
        }),
{
    let due = supervisor::due_nodes(s.retries, now);
    filtered_out(s.retries, |r: RetryView| r.at > now);
    split_in_two(s.retries, now);
    starts_are_exact(s.readers, finished, due);
    let after = supervisor::retried(s, finished, now).0;
    assert forall|i: int| 0 <= i < due.len() implies after.readers.contains_key(
        (#[trigger] due[i]).devnode,
    ) by {
        let path = due[i].devnode;
        assert(supervisor::is_live(s.readers, finished, path) || supervisor::names_node(
            supervisor::to_start(s.readers, finished, due),
            path,
        ));
    }
}

proof fn split_in_two(s: Seq<RetryView>, now: i64)
    ensures
        s.filter(|r: RetryView| r.at > now).len() + s.filter(|r: RetryView| r.at <= now).len()
            == s.len(),
    decreases s.len(),
{
    reveal(Seq::filter);
    if s.len() > 0 {
        split_in_two(s.drop_last(), now);
    }
}

/// After a resume every node that a rescan found is being read, and nothing is
/// scheduled for one that was started.
pub proof fn resume_reads_every_node(
    s: SupervisorView,
    finished: Map<Seq<char>, ()>,
    nodes: Seq<NodeView>,
)
    ensures
        ({
            let (after, actions) = supervisor::woken(s, finished, Some(nodes));
            &&& forall|i: int|
                0 <= i < nodes.len() ==> after.readers.contains_key((#[trigger] nodes[i]).devnode)
            &&& forall|i: int|
                0 <= i < nodes.len() && !supervisor::is_live(
                    s.readers,
                    finished,
                    (#[trigger] nodes[i]).devnode,
                ) ==> nothing_scheduled(after, nodes[i].devnode) && attempts_of(
                    after,
                    nodes[i].devnode,
                ) == 0
        }),
{
    let live = supervisor::live_readers(s.readers, finished);
    let none = Map::<Seq<char>, ()>::empty();
    let starting = supervisor::to_start(live, none, nodes);
    let (after, actions) = supervisor::woken(s, finished, Some(nodes));
    starts_are_exact(live, none, nodes);
    filtered_out(
        s.retries,
        |r: RetryView| !supervisor::names_node(starting, r.node.devnode),
    );
    assert forall|i: int| 0 <= i < nodes.len() implies after.readers.contains_key(
        (#[trigger] nodes[i]).devnode,
    ) by {
        let path = nodes[i].devnode;
        assert(supervisor::is_live(live, none, path) || supervisor::names_node(starting, path));
    }
    assert forall|i: int|
        0 <= i < nodes.len() && !supervisor::is_live(
            s.readers,
            finished,
            (#[trigger] nodes[i]).devnode,
        ) implies nothing_scheduled(after, nodes[i].devnode) && attempts_of(
        after,
        nodes[i].devnode,
    ) == 0 by {
        assert(!supervisor::is_live(live, none, nodes[i].devnode));
        assert(supervisor::names_node(starting, nodes[i].devnode));
    }
}

/// The delays before the attempts are 1, 2, 4, 8, 16 and 30 seconds.
pub proof fn delays_are_seconds(attempt: nat)
    ensures
        attempt == 0 ==> supervisor::retry_delay_of(attempt) == 1_000_000_000,
        attempt == 1 ==> supervisor::retry_delay_of(attempt) == 2_000_000_000,
        attempt == 2 ==> supervisor::retry_delay_of(attempt) == 4_000_000_000,
        attempt == 3 ==> supervisor::retry_delay_of(attempt) == 8_000_000_000,
        attempt == 4 ==> supervisor::retry_delay_of(attempt) == 16_000_000_000,
        attempt >= 5 ==> supervisor::retry_delay_of(attempt) == 30_000_000_000,
    decreases attempt,
{
    reveal_with_fuel(supervisor::power_of_two, 7);
    if attempt > 5 {
        delays_are_seconds((attempt - 1) as nat);
        power_of_two_positive((attempt - 1) as nat);
    }
}

/// The end of a reader lets go of its task and of no other. A clean unplug
/// forgets the attempts of the node; a failure after fewer than 6 attempts
/// counts one and schedules the next behind all others, as far off as the
/// attempts before it say; one after that changes nothing more.
pub proof fn end_of_a_reader_is_exact(s: SupervisorView, node: NodeView, end: End, now: i64)
    requires
        now + 30_000_000_000 <= i64::MAX,
    ensures
        ({
            let after = supervisor::ended(s, node, end, now);
            let tried: int = if s.attempts.contains_key(node.devnode) {
                s.attempts[node.devnode] as int
            } else {
                0
            };
            let delay: int = if tried == 0 {
                1_000_000_000
            } else if tried == 1 {
                2_000_000_000
            } else if tried == 2 {
                4_000_000_000
            } else if tried == 3 {
                8_000_000_000
            } else if tried == 4 {
                16_000_000_000
            } else {
                30_000_000_000
            };
            &&& after.readers == s.readers.remove(node.devnode)
            &&& end is DeviceGone ==> after.retries == s.retries && after.attempts
                == s.attempts.remove(node.devnode)
            &&& !(end is DeviceGone) && tried < 6 ==> {
                &&& after.retries.len() == s.retries.len() + 1
                &&& forall|i: int| 0 <= i < s.retries.len() ==> #[trigger] after.retries[i] == s.retries[i]
                &&& after.retries[s.retries.len() as int].node == node
                &&& after.retries[s.retries.len() as int].at == now + delay
                &&& after.attempts == s.attempts.insert(node.devnode, (tried + 1) as u32)
            }
            &&& !(end is DeviceGone) && tried >= 6 ==> after.retries == s.retries && after.attempts
                == s.attempts
        }),
{
    let tried: int = if s.attempts.contains_key(node.devnode) {
        s.attempts[node.devnode] as int
    } else {
        0
    };
    delays_are_seconds(tried as nat);
}

/// A node that appeared is forgiven and is read from then on: it is started
/// unless a task is held for it that has not finished. A node that disappeared
/// is forgotten, and its task is aborted if one is held. All else stays.
pub proof fn changes_among_nodes_are_exact(
    s: SupervisorView,
    node: NodeView,
    finished: Map<Seq<char>, ()>,
)
    ensures
        ({
            let (after, actions) = supervisor::changed(s, EventView::Added(node), finished);
            &&& s.readers.contains_key(node.devnode) && !finished.contains_key(node.devnode)
                ==> actions.len() == 0
            &&& !s.readers.contains_key(node.devnode) || finished.contains_key(node.devnode)
                ==> actions.len() == 1 && actions[0] == ActionView::Start(node)
            &&& after.readers == s.readers.insert(node.devnode, ())
            &&& after.attempts == s.attempts.remove(node.devnode)
            &&& after.retries == s.retries.filter(|r: RetryView| r.node.devnode != node.devnode)
        }),
        ({
            let (after, actions) = supervisor::changed(
                s,
                EventView::Removed(node.devnode),
                finished,
            );
            &&& s.readers.contains_key(node.devnode) ==> actions.len() == 1 && actions[0]
                == ActionView::Abort(node.devnode)
            &&& !s.readers.contains_key(node.devnode) ==> actions.len() == 0
            &&& after.readers == s.readers.remove(node.devnode)
            &&& after.attempts == s.attempts.remove(node.devnode)
            &&& after.retries == s.retries.filter(|r: RetryView| r.node.devnode != node.devnode)
        }),
{
    let (after, actions) = supervisor::changed(s, EventView::Added(node), finished);
    assert(after.readers =~= s.readers.insert(node.devnode, ()));
}

/// The nodes to be started are, in the order in which they come, the first of
/// each path for which no task is held or the task has finished.
pub proof fn first_of_each_path_is_started(
    readers: Map<Seq<char>, ()>,
    finished: Map<Seq<char>, ()>,
    nodes: Seq<NodeView>,
    i: int,
)
    requires
        0 <= i < nodes.len(),
    ensures
        ({
            let before = supervisor::to_start(readers, finished, nodes.take(i));
            let after = supervisor::to_start(readers, finished, nodes.take(i + 1));
            let path = nodes[i].devnode;
            let first = forall|j: int| 0 <= j < i ==> (#[trigger] nodes[j]).devnode != path;
            let live = readers.contains_key(path) && !finished.contains_key(path);
            &&& first && !live ==> after == before.push(nodes[i])
            &&& !(first && !live) ==> after == before
        }),
{
    let shorter = nodes.take(i);
    let longer = nodes.take(i + 1);
    let path = nodes[i].devnode;
    assert(longer.drop_last() =~= shorter);
    assert(longer.last() == nodes[i]);
    starts_are_exact(readers, finished, shorter);
    let before = supervisor::to_start(readers, finished, shorter);
    let first = forall|j: int| 0 <= j < i ==> (#[trigger] nodes[j]).devnode != path;
    if supervisor::names_node(before, path) {
        let k = choose|k: int| 0 <= k < before.len() && (#[trigger] before[k]).devnode == path;
        assert(shorter.contains(before[k]));
        let j = choose|j: int| 0 <= j < shorter.len() && shorter[j] == before[k];
        assert(nodes[j].devnode == path);
        assert(!first);
    }
    if !first {
        let j = choose|j: int| 0 <= j < i && (#[trigger] nodes[j]).devnode == path;
        assert(shorter[j].devnode == path);
    }
}

/// The first scan starts every node, in its order, and every node of it is read
/// from then on.
pub proof fn first_scan_starts_every_node(readers: Map<Seq<char>, ()>, nodes: Seq<NodeView>)
    ensures
        supervisor::start_actions(nodes).len() == nodes.len(),
        forall|i: int|
            0 <= i < nodes.len() ==> (#[trigger] supervisor::start_actions(nodes)[i])
                == ActionView::Start(nodes[i]),
        forall|path: Seq<char>| #[trigger]
            supervisor::with_started(readers, nodes).contains_key(path) <==> readers.contains_key(
                path,
            ) || exists|i: int| 0 <= i < nodes.len() && (#[trigger] nodes[i]).devnode == path,
{
}

/// The retry timer takes out what is due, in its order, and leaves all else as
/// it was. Of each path that is due the first node is started, unless a task is
/// held for it that has not finished; nothing else is started.
pub proof fn retries_are_exact(s: SupervisorView, finished: Map<Seq<char>, ()>, now: i64)
    ensures
        ({
            let (after, actions) = supervisor::retried(s, finished, now);
            &&& after.retries == s.retries.filter(|r: RetryView| r.at > now)
            &&& after.attempts == s.attempts
            &&& forall|i: int|
                0 <= i < actions.len() ==> (#[trigger] actions[i] matches ActionView::Start(node)
                    && !(s.readers.contains_key(node.devnode) && !finished.contains_key(
                    node.devnode,
                )) && exists|r: int|
                    0 <= r < s.retries.len() && (#[trigger] s.retries[r]).node == node
                        && s.retries[r].at <= now)
            &&& forall|i: int, j: int|
                0 <= i < j < actions.len() ==> (#[trigger] actions[i])->Start_0.devnode != (
                #[trigger] actions[j])->Start_0.devnode
            &&& forall|r: int|
                0 <= r < s.retries.len() && (#[trigger] s.retries[r]).at <= now && !(
                s.readers.contains_key(s.retries[r].node.devnode) && !finished.contains_key(
                    s.retries[r].node.devnode,
                )) ==> exists|i: int|
                    0 <= i < actions.len() && (#[trigger] actions[i])->Start_0.devnode
                        == s.retries[r].node.devnode
            &&& forall|path: Seq<char>| #[trigger]
                after.readers.contains_key(path) <==> s.readers.contains_key(path) || exists|i: int|
                    0 <= i < actions.len() && (#[trigger] actions[i])->Start_0.devnode == path
        }),
{
    let is_due = |r: RetryView| r.at <= now;
    let due = supervisor::due_nodes(s.retries, now);
    let starting = supervisor::to_start(s.readers, finished, due);
    let (after, actions) = supervisor::retried(s, finished, now);
    starts_are_exact(s.readers, finished, due);
    filtered_out(s.retries, is_due);
    filter_keeps_members(s.retries, is_due);
    assert forall|i: int| 0 <= i < actions.len() implies (#[trigger] actions[i]
        matches ActionView::Start(node) && !(s.readers.contains_key(node.devnode)
        && !finished.contains_key(node.devnode)) && exists|r: int|
        0 <= r < s.retries.len() && (#[trigger] s.retries[r]).node == node && s.retries[r].at
            <= now) by {
        let node = starting[i];
        assert(due.contains(node));
        let d = choose|d: int| 0 <= d < due.len() && due[d] == node;
        let kept = s.retries.filter(is_due)[d];
        assert(kept.node == node);
        assert(s.retries.filter(is_due).contains(kept));
        assert(s.retries.contains(kept));
        let r = choose|r: int| 0 <= r < s.retries.len() && s.retries[r] == kept;
        assert(s.retries[r].node == node && s.retries[r].at <= now);
    }
    assert forall|i: int, j: int| 0 <= i < j < actions.len() implies (
    #[trigger] actions[i])->Start_0.devnode != (#[trigger] actions[j])->Start_0.devnode by {
        assert(starting[i].devnode != starting[j].devnode);
    }
    assert forall|r: int|
        0 <= r < s.retries.len() && (#[trigger] s.retries[r]).at <= now && !(
        s.readers.contains_key(s.retries[r].node.devnode) && !finished.contains_key(
            s.retries[r].node.devnode,
        )) implies exists|i: int|
        0 <= i < actions.len() && (#[trigger] actions[i])->Start_0.devnode
            == s.retries[r].node.devnode by {
        let path = s.retries[r].node.devnode;
        assert(s.retries.contains(s.retries[r]));
        assert(s.retries.filter(is_due).contains(s.retries[r]));
        let d = choose|d: int|
            0 <= d < s.retries.filter(is_due).len() && s.retries.filter(is_due)[d] == s.retries[r];
        assert(due[d].devnode == path);
        assert(supervisor::names_node(starting, path));
        let i = choose|i: int| 0 <= i < starting.len() && (#[trigger] starting[i]).devnode == path;
        assert(actions[i] == ActionView::Start(starting[i]));
    }
    started_paths(s.readers, starting);
}

proof fn started_paths(readers: Map<Seq<char>, ()>, starting: Seq<NodeView>)
    ensures
        ({
            let actions = supervisor::start_actions(starting);
            forall|path: Seq<char>| #[trigger]
                supervisor::with_started(readers, starting).contains_key(path)
                    <==> readers.contains_key(path) || exists|i: int|
                    0 <= i < actions.len() && (#[trigger] actions[i])->Start_0.devnode == path
        }),
{
    let actions = supervisor::start_actions(starting);
    assert forall|path: Seq<char>| #[trigger]
        supervisor::with_started(readers, starting).contains_key(path) <==> readers.contains_key(
            path,
        ) || exists|i: int|
            0 <= i < actions.len() && (#[trigger] actions[i])->Start_0.devnode == path by {
        if supervisor::names_node(starting, path) {
            let i = choose|i: int|
                0 <= i < starting.len() && (#[trigger] starting[i]).devnode == path;
            assert(actions[i]->Start_0.devnode == path);
        }
        if exists|i: int|
            0 <= i < actions.len() && (#[trigger] actions[i])->Start_0.devnode == path {
            let i = choose|i: int|
                0 <= i < actions.len() && (#[trigger] actions[i])->Start_0.devnode == path;
            assert(starting[i].devnode == path);
        }
    }
}

proof fn filter_keeps_members<A>(s: Seq<A>, p: spec_fn(A) -> bool)
    ensures
        forall|a: A| #[trigger] s.filter(p).contains(a) <==> s.contains(a) && p(a),
    decreases s.len(),
{
    reveal(Seq::filter);
    if s.len() > 0 {
        let shorter = s.drop_last();
        filter_keeps_members(shorter, p);
        assert forall|a: A| #[trigger] s.filter(p).contains(a) <==> s.contains(a) && p(a) by {
            let before = shorter.filter(p);
            if before.contains(a) {
                let i = choose|i: int| 0 <= i < before.len() && before[i] == a;
                assert(s.filter(p)[i] == a);
            }
            if shorter.contains(a) {
                let i = choose|i: int| 0 <= i < shorter.len() && shorter[i] == a;
                assert(s[i] == a);
            }
            if s.contains(a) && !shorter.contains(a) {
                let i = choose|i: int| 0 <= i < s.len() && s[i] == a;
                if i < shorter.len() {
                    assert(shorter[i] == a);
                }
                if p(a) {
                    assert(s.filter(p)[before.len() as int] == a);
                }
            }
            if s.filter(p).contains(a) {
                let i = choose|i: int| 0 <= i < s.filter(p).len() && s.filter(p)[i] == a;
                if i < before.len() {
                    assert(before[i] == a);
                } else {
                    assert(s[s.len() - 1] == a);
                }
            }
        }
    }
}

/// After a resume the tasks that have finished are let go of. If the rescan
/// failed that is all; otherwise each path of it that nobody reads then is
/// started, once, its failures are forgotten, and all else stays.
pub proof fn resumes_are_exact(
    s: SupervisorView,
    finished: Map<Seq<char>, ()>,
    nodes: Seq<NodeView>,
)
    ensures
        ({
            let (after, actions) = supervisor::woken(s, finished, None);
            &&& actions.len() == 0
            &&& after.retries == s.retries
            &&& after.attempts == s.attempts
            &&& forall|path: Seq<char>| #[trigger]
                after.readers.contains_key(path) <==> s.readers.contains_key(path)
                    && !finished.contains_key(path)
        }),
        ({
            let (after, actions) = supervisor::woken(s, finished, Some(nodes));
            &&& forall|i: int|
                0 <= i < actions.len() ==> (#[trigger] actions[i] matches ActionView::Start(node)
                    && nodes.contains(node) && !(s.readers.contains_key(node.devnode)
                    && !finished.contains_key(node.devnode)))
            &&& forall|i: int, j: int|
                0 <= i < j < actions.len() ==> (#[trigger] actions[i])->Start_0.devnode != (
                #[trigger] actions[j])->Start_0.devnode
            &&& forall|n: int|
                0 <= n < nodes.len() && !(s.readers.contains_key((#[trigger] nodes[n]).devnode)
                    && !finished.contains_key(nodes[n].devnode)) ==> exists|i: int|
                    0 <= i < actions.len() && (#[trigger] actions[i])->Start_0.devnode
                        == nodes[n].devnode
            &&& forall|path: Seq<char>| #[trigger]
                after.readers.contains_key(path) <==> (s.readers.contains_key(path)
                    && !finished.contains_key(path)) || exists|i: int|
                    0 <= i < actions.len() && (#[trigger] actions[i])->Start_0.devnode == path
            &&& after.retries == s.retries.filter(
                |r: RetryView|
                    !exists|i: int|
                        0 <= i < actions.len() && (#[trigger] actions[i])->Start_0.devnode
                            == r.node.devnode,
            )
            &&& forall|path: Seq<char>| #[trigger]
                after.attempts.contains_key(path) <==> s.attempts.contains_key(path) && !exists|
                    i: int,
                |
                    0 <= i < actions.len() && (#[trigger] actions[i])->Start_0.devnode == path
            &&& forall|path: Seq<char>| #[trigger]
                after.attempts.contains_key(path) ==> after.attempts[path] == s.attempts[path]
        }),
{
    let live = supervisor::live_readers(s.readers, finished);
    let none = Map::<Seq<char>, ()>::empty();
    let starting = supervisor::to_start(live, none, nodes);
    let (after, actions) = supervisor::woken(s, finished, Some(nodes));
    starts_are_exact(live, none, nodes);
    started_paths(live, starting);
    assert forall|path: Seq<char>| #[trigger]
        supervisor::names_node(starting, path) <==> exists|i: int|
            0 <= i < actions.len() && (#[trigger] actions[i])->Start_0.devnode == path by {
        if supervisor::names_node(starting, path) {
            let i = choose|i: int|
                0 <= i < starting.len() && (#[trigger] starting[i]).devnode == path;
            assert(actions[i]->Start_0.devnode == path);
        }
        if exists|i: int|
            0 <= i < actions.len() && (#[trigger] actions[i])->Start_0.devnode == path {
            let i = choose|i: int|
                0 <= i < actions.len() && (#[trigger] actions[i])->Start_0.devnode == path;
            assert(starting[i].devnode == path);
        }
    }
    assert forall|i: int| 0 <= i < actions.len() implies (#[trigger] actions[i]
        matches ActionView::Start(node) && nodes.contains(node) && !(s.readers.contains_key(
        node.devnode,
    ) && !finished.contains_key(node.devnode))) by {
        assert(!supervisor::is_live(live, none, starting[i].devnode));
    }
    assert forall|i: int, j: int| 0 <= i < j < actions.len() implies (
    #[trigger] actions[i])->Start_0.devnode != (#[trigger] actions[j])->Start_0.devnode by {
        assert(starting[i].devnode != starting[j].devnode);
    }
    assert forall|n: int|
        0 <= n < nodes.len() && !(s.readers.contains_key((#[trigger] nodes[n]).devnode)
            && !finished.contains_key(nodes[n].devnode)) implies exists|i: int|
        0 <= i < actions.len() && (#[trigger] actions[i])->Start_0.devnode == nodes[n].devnode by {
        assert(!supervisor::is_live(live, none, nodes[n].devnode));
        assert(supervisor::names_node(starting, nodes[n].devnode));
    }
    let by_name = |r: RetryView| !supervisor::names_node(starting, r.node.devnode);
    let by_action = |r: RetryView|
        !exists|i: int|
            0 <= i < actions.len() && (#[trigger] actions[i])->Start_0.devnode == r.node.devnode;
    assert(by_name =~= by_action);
}

/// The models of a retry and of an action show all that these hold.
pub proof fn supervisor_model_is_faithful(retry: supervisor::Retry, action: supervisor::Action)
    ensures
        retry@.node == retry.node@,
        retry@.at == retry.at,
        action matches supervisor::Action::Start(node) ==> action@ == ActionView::Start(node@),
        action matches supervisor::Action::Abort(p) ==> action@ == ActionView::Abort(p@),
{
}

/// The model of a supervisor, and of lists of retries and actions, holds all
/// that these hold, in their order.
pub proof fn supervisor_lists_are_faithful(
    s: supervisor::Supervisor,
    retries: Seq<supervisor::Retry>,
    actions: Seq<supervisor::Action>,
    rescan: Option<Vec<crate::discovery::HidrawNode>>,
)
    ensures
        s@.readers == s.readers@,
        s@.attempts == s.attempts@,
        s@.retries == supervisor::retry_views(s.retries@),
        supervisor::retry_views(retries).len() == retries.len(),
        forall|i: int|
            0 <= i < retries.len() ==> #[trigger] supervisor::retry_views(retries)[i]
                == retries[i]@,
        supervisor::action_views(actions).len() == actions.len(),
        forall|i: int|
            0 <= i < actions.len() ==> #[trigger] supervisor::action_views(actions)[i]
                == actions[i]@,
        rescan is None <==> supervisor::rescan_view(rescan) is None,
        rescan matches Some(nodes) ==> (supervisor::rescan_view(rescan) matches Some(views)
            && views.len() == nodes@.len() && forall|i: int|
            0 <= i < nodes@.len() ==> #[trigger] views[i] == nodes@[i]@),
{
}

} // verus!
