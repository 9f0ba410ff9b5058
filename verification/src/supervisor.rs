//! Supervision of the readers: which hidraw nodes are being read, which ones
//! are to be tried again, and when.
use crate::clock::SECOND;
use crate::discovery;
use crate::discovery::{Event, EventView, HidrawNode, NodeView};
use crate::key_map;
use crate::key_map::KeyMap;
use crate::reader::End;
use vstd::prelude::*;

verus! {

/// Backoff for a device whose reader failed (typically a seat-ACL race at
/// login): 1 s doubling to 30 s, giving up after 6 attempts. udev add and
/// change events start the node over, so giving up never strands a device.
pub const RETRY_BASE: i64 = SECOND;

pub const RETRY_CAP: i64 = 30 * SECOND;

pub const RETRY_MAX_ATTEMPTS: u32 = 6;

/// Two to the power of `n`.
pub open spec fn power_of_two(n: nat) -> int
    decreases n,
{
    if n == 0 {
        1
    } else {
        2 * power_of_two((n - 1) as nat)
    }
}

/// How long to wait before the next attempt, after `attempt` earlier ones.
pub open spec fn retry_delay_of(attempt: nat) -> int {
    let delay = RETRY_BASE * power_of_two(attempt);
    if delay < RETRY_CAP {
        delay
    } else {
        RETRY_CAP as int
    }
}

/// How long to wait before the next attempt.
pub fn retry_delay(attempt: u32) -> (r: i64)
    requires
        attempt < RETRY_MAX_ATTEMPTS,
    ensures
        r == retry_delay_of(attempt as nat),
        0 < r <= RETRY_CAP,
{
    proof {
        reveal_with_fuel(power_of_two, 6);
    }
    let factor: i64 = match attempt {
        0 => 1,
        1 => 2,
        2 => 4,
        3 => 8,
        4 => 16,
        _ => 32,
    };
    let delay: i64 = RETRY_BASE * factor;
    if delay < RETRY_CAP {
        delay
    } else {
        RETRY_CAP
    }
}

/// A node whose reader failed, and when to try it again.
#[derive(Debug, PartialEq, Eq)]
pub struct Retry {
    pub node: HidrawNode,
    pub at: i64,
}

/// The model of a retry.
#[verifier::ext_equal]
pub struct RetryView {
    pub node: NodeView,
    pub at: i64,
}

impl View for Retry {
    type V = RetryView;

    open spec fn view(&self) -> RetryView {
        RetryView { node: self.node@, at: self.at }
    }
}

/// The models of a list of retries.
pub open spec fn retry_views(retries: Seq<Retry>) -> Seq<RetryView> {
    Seq::new(retries.len(), |i: int| retries[i]@)
}

/// What to do about the readers.
#[derive(Debug, PartialEq, Eq)]
pub enum Action {
    /// Start a reader for this node and hold on to its task.
    Start(HidrawNode),
    /// Abort the task that is held for this node, and let go of it.
    Abort(String),
}

/// The model of an action.
pub enum ActionView {
    Start(NodeView),
    Abort(Seq<char>),
}

impl View for Action {
    type V = ActionView;

    open spec fn view(&self) -> ActionView {
        match self {
            Action::Start(node) => ActionView::Start(node@),
            Action::Abort(devnode) => ActionView::Abort(devnode@),
        }
    }
}

/// The models of a list of actions.
pub open spec fn action_views(actions: Seq<Action>) -> Seq<ActionView> {
    Seq::new(actions.len(), |i: int| actions[i]@)
}

/// The state of the supervisor.
#[verifier::ext_equal]
pub struct SupervisorView {
    /// The nodes for which a reader's task is held.
    pub readers: Map<Seq<char>, ()>,
    /// The nodes to be tried again, in the order in which they failed.
    pub retries: Seq<RetryView>,
    /// How often each node has been tried again.
    pub attempts: Map<Seq<char>, u32>,
}

/// No retry of `devnode` is left.
pub open spec fn without_retries(retries: Seq<RetryView>, devnode: Seq<char>) -> Seq<RetryView> {
    retries.filter(|r: RetryView| r.node.devnode != devnode)
}

/// All failures of `devnode` are forgotten.
pub open spec fn forgiven(s: SupervisorView, devnode: Seq<char>) -> SupervisorView {
    SupervisorView {
        retries: without_retries(s.retries, devnode),
        attempts: s.attempts.remove(devnode),
        ..s
    }
}

/// A task is held for `devnode` and has not finished.
pub open spec fn is_live(
    readers: Map<Seq<char>, ()>,
    finished: Map<Seq<char>, ()>,
    devnode: Seq<char>,
) -> bool {
    readers.contains_key(devnode) && !finished.contains_key(devnode)
}

/// A reader ended on its own at `now`. Its task is let go of; a failure
/// schedules another attempt, unless there have been enough.
pub open spec fn ended(s: SupervisorView, node: NodeView, end: End, now: i64) -> SupervisorView {
    let released = SupervisorView { readers: s.readers.remove(node.devnode), ..s };
    if end is DeviceGone {
        SupervisorView { attempts: s.attempts.remove(node.devnode), ..released }
    } else {
        let attempt: u32 = if s.attempts.contains_key(node.devnode) {
            s.attempts[node.devnode]
        } else {
            0
        };
        if attempt >= RETRY_MAX_ATTEMPTS {
            released
        } else {
            SupervisorView {
                attempts: s.attempts.insert(node.devnode, (attempt + 1) as u32),
                retries: s.retries.push(
                    RetryView { node, at: (now + retry_delay_of(attempt as nat)) as i64 },
                ),
                ..released
            }
        }
    }
}

/// A change among the nodes. A node that appeared is started over; one that
/// disappeared is forgotten, and its reader aborted.
pub open spec fn changed(
    s: SupervisorView,
    event: EventView,
    finished: Map<Seq<char>, ()>,
) -> (SupervisorView, Seq<ActionView>) {
    match event {
        EventView::Added(node) => {
            let clean = forgiven(s, node.devnode);
            if is_live(s.readers, finished, node.devnode) {
                (clean, seq![])
            } else {
                (
                    SupervisorView { readers: s.readers.insert(node.devnode, ()), ..clean },
                    seq![ActionView::Start(node)],
                )
            }
        },
        EventView::Removed(devnode) => {
            let clean = forgiven(s, devnode);
            (
                SupervisorView { readers: s.readers.remove(devnode), ..clean },
                if s.readers.contains_key(devnode) {
                    seq![ActionView::Abort(devnode)]
                } else {
                    seq![]
                },
            )
        },
    }
}

/// The nodes to start, out of `nodes` in their order: each whose reader is not
/// live, and none twice.
pub open spec fn to_start(
    readers: Map<Seq<char>, ()>,
    finished: Map<Seq<char>, ()>,
    nodes: Seq<NodeView>,
) -> Seq<NodeView>
    decreases nodes.len(),
{
    if nodes.len() == 0 {
        seq![]
    } else {
        let before = to_start(readers, finished, nodes.drop_last());
        let node = nodes.last();
        if is_live(readers, finished, node.devnode) || names_node(before, node.devnode) {
            before
        } else {
            before.push(node)
        }
    }
}

/// `devnode` is the path of one of `nodes`.
pub open spec fn names_node(nodes: Seq<NodeView>, devnode: Seq<char>) -> bool {
    exists|i: int| 0 <= i < nodes.len() && (#[trigger] nodes[i]).devnode == devnode
}

/// The readers once `nodes` have been started.
pub open spec fn with_started(readers: Map<Seq<char>, ()>, nodes: Seq<NodeView>) -> Map<
    Seq<char>,
    (),
> {
    Map::new(
        |devnode: Seq<char>| readers.contains_key(devnode) || names_node(nodes, devnode),
        |devnode: Seq<char>| (),
    )
}

/// The state once `nodes` have been started, with their failures forgotten.
pub open spec fn all_forgiven(s: SupervisorView, nodes: Seq<NodeView>) -> SupervisorView {
    SupervisorView {
        retries: s.retries.filter(|r: RetryView| !names_node(nodes, r.node.devnode)),
        attempts: Map::new(
            |devnode: Seq<char>| s.attempts.contains_key(devnode) && !names_node(nodes, devnode),
            |devnode: Seq<char>| s.attempts[devnode],
        ),
        ..s
    }
}

/// An action that starts a node.
pub open spec fn start_actions(nodes: Seq<NodeView>) -> Seq<ActionView> {
    Seq::new(nodes.len(), |i: int| ActionView::Start(nodes[i]))
}

/// The retries that are due at `now`.
pub open spec fn due_nodes(retries: Seq<RetryView>, now: i64) -> Seq<NodeView> {
    let due = retries.filter(|r: RetryView| r.at <= now);
    Seq::new(due.len(), |i: int| due[i].node)
}

/// The retry timer went off: what is due is started, unless it is read by now.
pub open spec fn retried(s: SupervisorView, finished: Map<Seq<char>, ()>, now: i64) -> (
    SupervisorView,
    Seq<ActionView>,
) {
    let starting = to_start(s.readers, finished, due_nodes(s.retries, now));
    (
        SupervisorView {
            readers: with_started(s.readers, starting),
            retries: s.retries.filter(|r: RetryView| r.at > now),
            ..s
        },
        start_actions(starting),
    )
}

/// The readers whose tasks have not finished.
pub open spec fn live_readers(readers: Map<Seq<char>, ()>, finished: Map<Seq<char>, ()>) -> Map<
    Seq<char>,
    (),
> {
    Map::new(|devnode: Seq<char>| is_live(readers, finished, devnode), |devnode: Seq<char>| ())
}

/// The machine woke up: tasks that have finished are let go of, and the nodes
/// of a rescan that nobody reads then are started over.
pub open spec fn woken(
    s: SupervisorView,
    finished: Map<Seq<char>, ()>,
    rescan: Option<Seq<NodeView>>,
) -> (SupervisorView, Seq<ActionView>) {
    let live = SupervisorView { readers: live_readers(s.readers, finished), ..s };
    match rescan {
        Some(nodes) => {
            let starting = to_start(live.readers, Map::empty(), nodes);
            (
                SupervisorView {
                    readers: with_started(live.readers, starting),
                    ..all_forgiven(live, starting)
                },
                start_actions(starting),
            )
        },
        None => (live, seq![]),
    }
}

/// The model of a rescan that may have failed.
pub open spec fn rescan_view(rescan: Option<Vec<HidrawNode>>) -> Option<Seq<NodeView>> {
    match rescan {
        Some(nodes) => Some(discovery::node_views(nodes@)),
        None => None,
    }
}

proof fn lemma_filter_next<A>(s: Seq<A>, k: int, p: spec_fn(A) -> bool)
    requires
        0 <= k < s.len(),
    ensures
        s.take(k + 1).filter(p) == if p(s[k]) {
            s.take(k).filter(p).push(s[k])
        } else {
            s.take(k).filter(p)
        },
{
    reveal(Seq::filter);
    assert(s.take(k + 1).drop_last() =~= s.take(k));
}

/// Filtering twice is filtering by both.
proof fn lemma_filter_filter<A>(
    s: Seq<A>,
    p: spec_fn(A) -> bool,
    q: spec_fn(A) -> bool,
    both: spec_fn(A) -> bool,
)
    requires
        forall|a: A| #[trigger] both(a) == (p(a) && q(a)),
    ensures
        s.filter(p).filter(q) == s.filter(both),
    decreases s.len(),
{
    reveal(Seq::filter);
    if s.len() > 0 {
        lemma_filter_filter(s.drop_last(), p, q, both);
        let rest = s.drop_last().filter(p);
        let _ = both(s.last());
        if p(s.last()) {
            assert(rest.push(s.last()).drop_last() =~= rest);
        }
    }
}

/// Takes out of `retries` all that are due at `now`, in their order.
fn take_due(retries: &mut Vec<Retry>, now: i64) -> (due: Vec<HidrawNode>)
    ensures
        discovery::node_views(due@) == due_nodes(retry_views(old(retries)@), now),
        retry_views(final(retries)@) == retry_views(old(retries)@).filter(
            |r: RetryView| r.at > now,
        ),
{
    let ghost all = retry_views(retries@);
    let ghost is_due = |r: RetryView| r.at <= now;
    let ghost is_later = |r: RetryView| r.at > now;
    let ghost mut k: int = 0;
    let mut due: Vec<HidrawNode> = Vec::new();
    let mut i: usize = 0;
    proof {
        reveal(Seq::filter);
    }
    while i < retries.len()
        invariant
            all == retry_views(old(retries)@),
            is_due == (|r: RetryView| r.at <= now),
            is_later == (|r: RetryView| r.at > now),
            i <= retries@.len(),
            0 <= k <= all.len(),
            retries@.len() - i == all.len() - k,
            retry_views(retries@).take(i as int) =~= all.take(k).filter(is_later),
            retry_views(retries@).skip(i as int) =~= all.skip(k),
            due@.len() == all.take(k).filter(is_due).len(),
            forall|j: int|
                0 <= j < due@.len() ==> (#[trigger] due@[j])@ == all.take(k).filter(is_due)[j].node,
        decreases retries@.len() - i,
    {
        let ghost before = retry_views(retries@);
        proof {
            lemma_filter_next(all, k, is_due);
            lemma_filter_next(all, k, is_later);
            assert(before.skip(i as int)[0] == all.skip(k)[0]);
            assert(before[i as int] == all[k]);
        }
        if retries[i].at <= now {
            let retry = retries.remove(i);
            due.push(retry.node);
            assert(retry_views(retries@) =~= before.remove(i as int));
            assert(retry_views(retries@).take(i as int) =~= before.take(i as int));
            assert(retry_views(retries@).skip(i as int) =~= before.skip(i as int).skip(1));
        } else {
            i = i + 1;
            assert(before.take(i as int) =~= before.take(i - 1).push(before[i - 1]));
            assert(before.skip(i as int) =~= before.skip(i - 1).skip(1));
        }
        assert(all.skip(k).skip(1) =~= all.skip(k + 1));
        proof {
            k = k + 1;
        }
    }
    assert(all.take(k) =~= all);
    assert(retry_views(retries@).take(i as int) =~= retry_views(retries@));
    assert(discovery::node_views(due@) =~= due_nodes(all, now));
    due
}

/// Takes all retries of `devnode` out.
fn drop_retries(retries: &mut Vec<Retry>, devnode: &String)
    ensures
        retry_views(final(retries)@) == without_retries(retry_views(old(retries)@), devnode@),
{
    let ghost all = retry_views(retries@);
    let ghost keep = |r: RetryView| r.node.devnode != devnode@;
    let ghost mut k: int = 0;
    let mut i: usize = 0;
    proof {
        reveal(Seq::filter);
    }
    while i < retries.len()
        invariant
            all == retry_views(old(retries)@),
            keep == (|r: RetryView| r.node.devnode != devnode@),
            i <= retries@.len(),
            0 <= k <= all.len(),
            retries@.len() - i == all.len() - k,
            retry_views(retries@).take(i as int) =~= all.take(k).filter(keep),
            retry_views(retries@).skip(i as int) =~= all.skip(k),
        decreases retries@.len() - i,
    {
        let ghost before = retry_views(retries@);
        proof {
            lemma_filter_next(all, k, keep);
            assert(before.skip(i as int)[0] == all.skip(k)[0]);
            assert(before[i as int] == all[k]);
        }
        if retries[i].node.devnode == *devnode {
            retries.remove(i);
            assert(retry_views(retries@) =~= before.remove(i as int));
            assert(retry_views(retries@).take(i as int) =~= before.take(i as int));
            assert(retry_views(retries@).skip(i as int) =~= before.skip(i as int).skip(1));
        } else {
            i = i + 1;
            assert(before.take(i as int) =~= before.take(i - 1).push(before[i - 1]));
            assert(before.skip(i as int) =~= before.skip(i - 1).skip(1));
        }
        assert(all.skip(k).skip(1) =~= all.skip(k + 1));
        proof {
            k = k + 1;
        }
    }
    assert(all.take(k) =~= all);
    assert(retry_views(retries@).take(i as int) =~= retry_views(retries@));
}

/// The nodes that are read, and those that are to be tried again.
pub struct Supervisor {
    pub readers: KeyMap<()>,
    pub retries: Vec<Retry>,
    pub attempts: KeyMap<u32>,
}

impl View for Supervisor {
    type V = SupervisorView;

    open spec fn view(&self) -> SupervisorView {
        SupervisorView {
            readers: self.readers@,
            retries: retry_views(self.retries@),
            attempts: self.attempts@,
        }
    }
}

impl Supervisor {
    /// No node has been tried again more often than it may be.
    pub open spec fn wf(&self) -> bool {
        &&& self.readers.wf()
        &&& self.attempts.wf()
        &&& forall|devnode: Seq<char>| #[trigger]
            self.attempts@.contains_key(devnode) ==> self.attempts@[devnode] <= RETRY_MAX_ATTEMPTS
    }

    /// A supervisor of nothing.
    pub fn new() -> (r: Self)
        ensures
            r.wf(),
            r@ == (SupervisorView {
                readers: Map::empty(),
                retries: Seq::empty(),
                attempts: Map::empty(),
            }),
    {
        let r = Supervisor {
            readers: KeyMap::new(),
            retries: Vec::new(),
            attempts: KeyMap::new(),
        };
        assert(retry_views(r.retries@) =~= Seq::empty());
        r
    }

    /// Whether a task is held for `devnode`.
    pub fn is_read(&self, devnode: &str) -> (r: bool)
        requires
            self.wf(),
        ensures
            r == self@.readers.contains_key(devnode@),
    {
        self.readers.contains_key(devnode)
    }

    /// When the retry timer has to go off; `None` while there is nothing to be
    /// tried again, so that the steady state runs without a timer.
    pub fn next_retry(&self) -> (r: Option<i64>)
        ensures
            match r {
                Some(at) => {
                    &&& exists|i: int|
                        0 <= i < self@.retries.len() && (#[trigger] self@.retries[i]).at == at
                    &&& forall|i: int|
                        0 <= i < self@.retries.len() ==> at <= (#[trigger] self@.retries[i]).at
                },
                None => self@.retries.len() == 0,
            },
    {
        let mut next: Option<i64> = None;
        let mut i: usize = 0;
        while i < self.retries.len()
            invariant
                i <= self.retries@.len(),
                match next {
                    Some(at) => {
                        &&& exists|j: int| 0 <= j < i && (#[trigger] self@.retries[j]).at == at
                        &&& forall|j: int| 0 <= j < i ==> at <= (#[trigger] self@.retries[j]).at
                    },
                    None => i == 0,
                },
            decreases self.retries@.len() - i,
        {
            let at: i64 = self.retries[i].at;
            assert(self@.retries[i as int].at == at);
            next = match next {
                Some(earliest) if earliest <= at => Some(earliest),
                _ => Some(at),
            };
            i = i + 1;
        }
        next
    }

    /// Starts every node of the first scan.
    pub fn begin(&mut self, nodes: &Vec<HidrawNode>) -> (actions: Vec<Action>)
        requires
            old(self).wf(),
        ensures
            final(self).wf(),
            final(self)@ == (SupervisorView {
                readers: with_started(old(self)@.readers, discovery::node_views(nodes@)),
                ..old(self)@
            }),
            action_views(actions@) == start_actions(discovery::node_views(nodes@)),
    {
        let ghost all = discovery::node_views(nodes@);
        let mut actions: Vec<Action> = Vec::new();
        let mut i: usize = 0;
        assert(self.readers@ =~= with_started(old(self)@.readers, all.take(0)));
        while i < nodes.len()
            invariant
                all == discovery::node_views(nodes@),
                i <= nodes@.len(),
                self.wf(),
                self.retries == old(self).retries,
                self.attempts == old(self).attempts,
                self.readers@ == with_started(old(self)@.readers, all.take(i as int)),
                actions@.len() == i,
                forall|j: int| 0 <= j < i ==> (#[trigger] actions@[j])@ == ActionView::Start(all[j]),
            decreases nodes@.len() - i,
        {
            proof {
                lemma_started_next(old(self)@.readers, all, i as int);
            }
            actions.push(Action::Start(nodes[i].clone()));
            self.readers.insert(nodes[i].devnode.clone(), ());
            i = i + 1;
        }
        assert(all.take(i as int) =~= all);
        assert(action_views(actions@) =~= start_actions(all));
        actions
    }

    /// A reader ended on its own.
    pub fn reader_ended(&mut self, node: HidrawNode, end: &End, now: i64)
        requires
            old(self).wf(),
            now + RETRY_CAP <= i64::MAX,
        ensures
            final(self).wf(),
            final(self)@ == ended(old(self)@, node@, *end, now),
    {
        self.readers.remove(node.devnode.as_str());
        match end {
            End::DeviceGone => {
                self.attempts.remove(node.devnode.as_str());
            },
            End::OpenFailed(_) | End::ReadFailed(_) => {
                let attempt: u32 = match self.attempts.get(node.devnode.as_str()) {
                    Some(n) => *n,
                    None => 0,
                };
                if attempt < RETRY_MAX_ATTEMPTS {
                    let delay: i64 = retry_delay(attempt);
                    self.attempts.insert(node.devnode.clone(), attempt + 1);
                    let ghost before = retry_views(self.retries@);
                    let ghost failed = node@;
                    self.retries.push(Retry { node, at: now + delay });
                    assert(retry_views(self.retries@) =~= before.push(
                        RetryView { node: failed, at: (now + delay) as i64 },
                    ));
                }
            },
        }
        assert(self@ =~= ended(old(self)@, node@, *end, now));
    }

    fn forgive(&mut self, devnode: &String)
        requires
            old(self).wf(),
        ensures
            final(self).wf(),
            final(self)@ == forgiven(old(self)@, devnode@),
            final(self).readers == old(self).readers,
    {
        self.attempts.remove(devnode.as_str());
        drop_retries(&mut self.retries, devnode);
    }

    /// Nodes came or went. `finished` holds the nodes whose tasks have ended.
    pub fn nodes_changed(&mut self, event: Event, finished: &KeyMap<()>) -> (actions: Vec<Action>)
        requires
            old(self).wf(),
            finished.wf(),
        ensures
            final(self).wf(),
            (final(self)@, action_views(actions@)) == changed(old(self)@, event@, finished@),
    {
        let mut actions: Vec<Action> = Vec::new();
        let ghost happened = event@;
        match event {
            Event::Added(node) => {
                self.forgive(&node.devnode);
                let live: bool = self.readers.contains_key(node.devnode.as_str())
                    && !finished.contains_key(node.devnode.as_str());
                if !live {
                    self.readers.insert(node.devnode.clone(), ());
                    actions.push(Action::Start(node));
                }
            },
            Event::Removed(devnode) => {
                self.forgive(&devnode);
                if self.readers.remove(devnode.as_str()).is_some() {
                    actions.push(Action::Abort(devnode));
                }
            },
        }
        assert(action_views(actions@) =~= changed(old(self)@, happened, finished@).1);
        assert(self@ =~= changed(old(self)@, happened, finished@).0);
        actions
    }

    /// The retry timer went off. `finished` holds the nodes whose tasks have
    /// ended.
    pub fn retry(&mut self, finished: &KeyMap<()>, now: i64) -> (actions: Vec<Action>)
        requires
            old(self).wf(),
            finished.wf(),
        ensures
            final(self).wf(),
            (final(self)@, action_views(actions@)) == retried(old(self)@, finished@, now),
    {
        let due = take_due(&mut self.retries, now);
        let ghost nodes = discovery::node_views(due@);
        let ghost readers = old(self)@.readers;
        let mut starting: KeyMap<()> = KeyMap::new();
        let mut actions: Vec<Action> = Vec::new();
        let mut i: usize = 0;
        assert(nodes.take(0) =~= Seq::empty());
        assert(self.readers@ =~= with_started(readers, Seq::empty()));
        assert(action_views(actions@) =~= start_actions(Seq::empty()));
        while i < due.len()
            invariant
                i <= due@.len(),
                nodes == discovery::node_views(due@),
                readers == old(self)@.readers,
                self.wf(),
                finished.wf(),
                starting.wf(),
                self.attempts == old(self).attempts,
                retry_views(self.retries@) == old(self)@.retries.filter(
                    |r: RetryView| r.at > now,
                ),
                forall|devnode: Seq<char>| #[trigger]
                    starting@.contains_key(devnode) == names_node(
                        to_start(readers, finished@, nodes.take(i as int)),
                        devnode,
                    ),
                self.readers@ == with_started(
                    readers,
                    to_start(readers, finished@, nodes.take(i as int)),
                ),
                action_views(actions@) == start_actions(
                    to_start(readers, finished@, nodes.take(i as int)),
                ),
            decreases due@.len() - i,
        {
            let node = &due[i];
            let ghost before = to_start(readers, finished@, nodes.take(i as int));
            let ghost acted = action_views(actions@);
            proof {
                assert(nodes.take(i + 1).drop_last() =~= nodes.take(i as int));
                assert(nodes.take(i + 1).last() == node@);
            }
            let live: bool = self.readers.contains_key(node.devnode.as_str()) && (
            !finished.contains_key(node.devnode.as_str()) || starting.contains_key(
                node.devnode.as_str(),
            ));
            if !live {
                proof {
                    lemma_started_next(readers, before.push(node@), before.len() as int);
                    assert(before.push(node@).take(before.len() as int) =~= before);
                    assert(before.push(node@).take(before.len() as int + 1) =~= before.push(node@));
                    lemma_names_push(before, node@);
                }
                actions.push(Action::Start(node.clone()));
                self.readers.insert(node.devnode.clone(), ());
                starting.insert(node.devnode.clone(), ());
                assert(action_views(actions@) =~= acted.push(ActionView::Start(node@)));
                assert(start_actions(before.push(node@)) =~= start_actions(before).push(
                    ActionView::Start(node@),
                ));
            }
            i = i + 1;
        }
        assert(nodes.take(i as int) =~= nodes);
        actions
    }

    /// The machine woke up. `finished` holds the nodes whose tasks have ended,
    /// `rescan` the nodes that are there now, or `None` if that failed.
    pub fn resumed(&mut self, finished: &KeyMap<()>, rescan: &Option<Vec<HidrawNode>>) -> (actions:
        Vec<Action>)
        requires
            old(self).wf(),
            finished.wf(),
        ensures
            final(self).wf(),
            (final(self)@, action_views(actions@)) == woken(
                old(self)@,
                finished@,
                rescan_view(*rescan),
            ),
    {
        let mut k: usize = 0;
        while k < finished.len()
            invariant
                finished.wf(),
                self.wf(),
                k <= finished.items().len(),
                self.attempts == old(self).attempts,
                self.retries == old(self).retries,
                forall|devnode: Seq<char>| #[trigger]
                    self.readers@.contains_key(devnode) <==> old(self).readers@.contains_key(
                        devnode,
                    ) && !key_map::has_key(finished.items().take(k as int), devnode),
            decreases finished.items().len() - k,
        {
            proof {
                key_map::lemma_has_key_next(finished.items(), k as int);
            }
            self.readers.remove(finished.key_at(k).as_str());
            k = k + 1;
        }
        assert(finished.items().take(k as int) =~= finished.items());
        assert(self.readers@ =~= live_readers(old(self)@.readers, finished@));
        let ghost live = self@;
        let mut actions: Vec<Action> = Vec::new();
        assert(action_views(actions@) =~= seq![]);
        let nodes = match rescan {
            Some(nodes) => nodes,
            None => return actions,
        };
        let ghost all = discovery::node_views(nodes@);
        let ghost none = Map::<Seq<char>, ()>::empty();
        let mut i: usize = 0;
        proof {
            assert(all.take(0) =~= Seq::empty());
            assert(action_views(actions@) =~= start_actions(Seq::empty()));
            assert(self.readers@ =~= with_started(live.readers, Seq::empty()));
            lemma_forgiven_none(live);
        }
        while i < nodes.len()
            invariant
                i <= nodes@.len(),
                all == discovery::node_views(nodes@),
                none == Map::<Seq<char>, ()>::empty(),
                self.wf(),
                self@ == (SupervisorView {
                    readers: with_started(
                        live.readers,
                        to_start(live.readers, none, all.take(i as int)),
                    ),
                    ..all_forgiven(live, to_start(live.readers, none, all.take(i as int)))
                }),
                action_views(actions@) == start_actions(
                    to_start(live.readers, none, all.take(i as int)),
                ),
            decreases nodes@.len() - i,
        {
            let node = &nodes[i];
            let ghost before = to_start(live.readers, none, all.take(i as int));
            let ghost acted = action_views(actions@);
            let ghost was = self@;
            proof {
                assert(all.take(i + 1).drop_last() =~= all.take(i as int));
                assert(all.take(i + 1).last() == node@);
            }
            if !self.readers.contains_key(node.devnode.as_str()) {
                proof {
                    lemma_started_next(live.readers, before.push(node@), before.len() as int);
                    assert(before.push(node@).take(before.len() as int) =~= before);
                    assert(before.push(node@).take(before.len() as int + 1) =~= before.push(node@));
                    lemma_forgiven_next(live, before, node@);
                }
                self.forgive(&node.devnode);
                self.readers.insert(node.devnode.clone(), ());
                actions.push(Action::Start(node.clone()));
                assert(action_views(actions@) =~= acted.push(ActionView::Start(node@)));
                assert(start_actions(before.push(node@)) =~= start_actions(before).push(
                    ActionView::Start(node@),
                ));
            }
            i = i + 1;
        }
        assert(all.take(i as int) =~= all);
        actions
    }
}

proof fn lemma_names_push(nodes: Seq<NodeView>, node: NodeView)
    ensures
        forall|devnode: Seq<char>| #[trigger]
            names_node(nodes.push(node), devnode) == (names_node(nodes, devnode) || devnode
                == node.devnode),
{
    let after = nodes.push(node);
    assert forall|devnode: Seq<char>| #[trigger]
        names_node(after, devnode) == (names_node(nodes, devnode) || devnode == node.devnode) by {
        if names_node(nodes, devnode) {
            let i = choose|i: int| 0 <= i < nodes.len() && (#[trigger] nodes[i]).devnode == devnode;
            assert(after[i].devnode == devnode);
        }
        if devnode == node.devnode {
            assert(after[nodes.len() as int].devnode == devnode);
        }
        if names_node(after, devnode) && devnode != node.devnode {
            let i = choose|i: int| 0 <= i < after.len() && (#[trigger] after[i]).devnode == devnode;
            assert(nodes[i].devnode == devnode);
        }
    }
}

/// One more node started is one more reader.
proof fn lemma_started_next(readers: Map<Seq<char>, ()>, nodes: Seq<NodeView>, i: int)
    requires
        0 <= i < nodes.len(),
    ensures
        with_started(readers, nodes.take(i + 1)) == with_started(readers, nodes.take(i)).insert(
            nodes[i].devnode,
            (),
        ),
{
    assert(nodes.take(i + 1) =~= nodes.take(i).push(nodes[i]));
    lemma_names_push(nodes.take(i), nodes[i]);
    assert(with_started(readers, nodes.take(i + 1)) =~= with_started(
        readers,
        nodes.take(i),
    ).insert(nodes[i].devnode, ()));
}

proof fn lemma_filter_all<A>(s: Seq<A>, p: spec_fn(A) -> bool)
    requires
        forall|i: int| 0 <= i < s.len() ==> p(#[trigger] s[i]),
    ensures
        s.filter(p) == s,
    decreases s.len(),
{
    reveal(Seq::filter);
    if s.len() > 0 {
        assert forall|i: int| 0 <= i < s.drop_last().len() implies p(
            #[trigger] s.drop_last()[i],
        ) by {
            assert(s.drop_last()[i] == s[i]);
        }
        lemma_filter_all(s.drop_last(), p);
        assert(p(s[s.len() - 1]));
        assert(s.drop_last().push(s.last()) =~= s);
    } else {
        assert(s.filter(p) =~= s);
    }
}

proof fn lemma_forgiven_none(s: SupervisorView)
    ensures
        all_forgiven(s, Seq::empty()) == s,
{
    let none = Seq::<NodeView>::empty();
    lemma_filter_all(s.retries, |r: RetryView| !names_node(none, r.node.devnode));
    assert(all_forgiven(s, none).attempts =~= s.attempts);
    assert(all_forgiven(s, none) =~= s);
}

proof fn lemma_forgiven_next(s: SupervisorView, nodes: Seq<NodeView>, node: NodeView)
    ensures
        all_forgiven(s, nodes.push(node)) == forgiven(all_forgiven(s, nodes), node.devnode),
{
    lemma_names_push(nodes, node);
    lemma_filter_filter(
        s.retries,
        |r: RetryView| !names_node(nodes, r.node.devnode),
        |r: RetryView| r.node.devnode != node.devnode,
        |r: RetryView| !names_node(nodes.push(node), r.node.devnode),
    );
    assert(all_forgiven(s, nodes.push(node)).attempts =~= all_forgiven(s, nodes).attempts.remove(
        node.devnode,
    ));
    assert(all_forgiven(s, nodes.push(node)) =~= forgiven(all_forgiven(s, nodes), node.devnode));
}

} // verus!
