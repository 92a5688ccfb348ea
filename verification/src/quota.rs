//! Collecting old versions when they take too much space.
//!
//! The oldest deltas leave first, until the space is within the quota; what a head builds on
//! stays. Orphans may be collected after a grace period, and deltas from before a commit of the
//! repository at once.
use vstd::prelude::*;

use crate::id_set::IdSet;
use crate::version_tree::{SeqNo, VersionId, VersionNode, VersionTree};

verus! {

/// How long an orphan is kept, in nanoseconds: a day.
pub const DEFAULT_GRACE_PERIOD: u128 = 86_400_000_000_000;

/// The space that a full snapshot is taken to need.
pub const FULL_SNAPSHOT_SIZE: u64 = 4096;

/// A delta that may be evicted.
#[derive(Debug, Clone, Copy)]
pub struct GcCandidate {
    /// The position of the change.
    pub seq_no: SeqNo,
    /// The version.
    pub version_id: VersionId,
    /// How many deltas lie between the version and a full snapshot.
    pub delta_depth: u8,
    /// The space that goes with it.
    pub size: u64,
}

/// The parent of a version, unless it is an orphan.
pub open spec fn kept_parent(
    nodes: Seq<VersionNode>,
    orphans: Set<u64>,
    id: VersionId,
) -> Option<VersionId> {
    match crate::version_tree::node_of(nodes, id) {
        Some(node) => match node.parent_id {
            Some(parent) => if orphans.contains(parent) {
                None
            } else {
                Some(parent)
            },
            None => None,
        },
        None => None,
    }
}

/// The version a number of steps above a version, on a way without orphans.
pub open spec fn kept_ancestor(
    nodes: Seq<VersionNode>,
    orphans: Set<u64>,
    id: VersionId,
    steps: nat,
) -> Option<VersionId>
    decreases steps,
{
    if steps == 0 {
        Some(id)
    } else {
        match kept_parent(nodes, orphans, id) {
            Some(parent) => kept_ancestor(nodes, orphans, parent, (steps - 1) as nat),
            None => None,
        }
    }
}

/// A version is a head, or a head builds on it.
pub open spec fn on_head_chain(tree: VersionTree, id: VersionId) -> bool {
    exists|head: VersionId, steps: nat|
        crate::version_tree::is_head(tree.heads@, head) && #[trigger] kept_ancestor(
            tree.nodes@,
            tree.orphans@,
            head,
            steps,
        ) == Some(id)
}

/// The space that a node needs.
pub open spec fn node_size(node: VersionNode) -> u64 {
    match node.delta {
        Some(delta) => delta.compressed_size,
        None => if node.full_content is Some {
            FULL_SNAPSHOT_SIZE
        } else {
            0
        },
    }
}

/// The node may be evicted: no head builds on it, and it holds no full snapshot.
pub open spec fn is_candidate(tree: VersionTree, node: VersionNode) -> bool {
    !on_head_chain(tree, node.version_id) && node.full_content is None
}

/// What is evicted with a node.
pub open spec fn candidate_of(node: VersionNode) -> GcCandidate {
    GcCandidate {
        seq_no: node.seq_no,
        version_id: node.version_id,
        delta_depth: node.delta_depth,
        size: node_size(node),
    }
}

/// A candidate leaves no later than another one: the older first, and of equally old ones the
/// one with the longer row of deltas.
pub open spec fn leaves_first(a: GcCandidate, b: GcCandidate) -> bool {
    a.seq_no < b.seq_no || (a.seq_no == b.seq_no && a.delta_depth >= b.delta_depth)
}

/// A queue with one candidate more, which stands behind all that leave no later.
pub open spec fn queued_with(queue: Seq<GcCandidate>, candidate: GcCandidate) -> Seq<GcCandidate>
    decreases queue.len(),
{
    if queue.len() > 0 && !leaves_first(queue.last(), candidate) {
        queued_with(queue.drop_last(), candidate).push(queue.last())
    } else {
        queue.push(candidate)
    }
}

/// The candidates among nodes, in the order in which they leave.
pub open spec fn queue_of(tree: VersionTree, nodes: Seq<VersionNode>) -> Seq<GcCandidate>
    decreases nodes.len(),
{
    if nodes.len() == 0 {
        Seq::empty()
    } else if is_candidate(tree, nodes.last()) {
        queued_with(queue_of(tree, nodes.drop_last()), candidate_of(nodes.last()))
    } else {
        queue_of(tree, nodes.drop_last())
    }
}

/// The space that the first candidates of a queue need together.
pub open spec fn space(queue: Seq<GcCandidate>, count: int) -> int
    decreases count,
{
    if count <= 0 {
        0
    } else {
        space(queue, count - 1) + queue[count - 1].size
    }
}

/// A number of candidates is what has to leave to make room: the ones before the last do not
/// make enough room, and all of them do, or nothing is left.
pub open spec fn makes_room(queue: Seq<GcCandidate>, needed: int, count: int) -> bool {
    &&& 0 <= count <= queue.len()
    &&& forall|fewer: int| 0 <= fewer < count ==> #[trigger] space(queue, fewer) < needed
    &&& count < queue.len() ==> space(queue, count) >= needed
}

/// The versions of the first candidates of a queue.
pub open spec fn evicted_ids(queue: Seq<GcCandidate>, count: int) -> Set<u64> {
    Set::new(|id: u64| exists|i: int| 0 <= i < count && (#[trigger] queue[i]).version_id == id)
}

/// The queue is in order.
pub open spec fn in_order(queue: Seq<GcCandidate>) -> bool {
    forall|i: int, j: int|
        0 <= i < j < queue.len() ==> leaves_first(#[trigger] queue[i], #[trigger] queue[j])
}

proof fn lemma_queued_with(queue: Seq<GcCandidate>, candidate: GcCandidate)
    requires
        in_order(queue),
    ensures
        in_order(queued_with(queue, candidate)),
        queued_with(queue, candidate).to_multiset() == queue.to_multiset().insert(candidate),
    decreases queue.len(),
{
    broadcast use vstd::seq_lib::group_to_multiset_ensures;

    if queue.len() > 0 && !leaves_first(queue.last(), candidate) {
        let shorter = queue.drop_last();
        assert forall|i: int, j: int| 0 <= i < j < shorter.len() implies leaves_first(
            #[trigger] shorter[i],
            #[trigger] shorter[j],
        ) by {
            assert(leaves_first(queue[i], queue[j]));
        }
        lemma_queued_with(shorter, candidate);
        let next = queued_with(shorter, candidate);
        assert forall|i: int| 0 <= i < next.len() implies leaves_first(
            #[trigger] next[i],
            queue.last(),
        ) by {
            assert(next.to_multiset().count(next[i]) > 0);
            if next[i] != candidate {
                assert(shorter.to_multiset().count(next[i]) > 0);
                assert(shorter.contains(next[i]));
                let k = choose|k: int| 0 <= k < shorter.len() && shorter[k] == next[i];
                assert(leaves_first(queue[k], queue[queue.len() - 1]));
            }
        }
        let whole = next.push(queue.last());
        assert forall|i: int, j: int| 0 <= i < j < whole.len() implies leaves_first(
            #[trigger] whole[i],
            #[trigger] whole[j],
        ) by {
            if j < next.len() {
                assert(leaves_first(next[i], next[j]));
            } else {
                assert(leaves_first(next[i], queue.last()));
            }
        }
        assert(queue =~= shorter.push(queue.last()));
    } else {
        let whole = queue.push(candidate);
        assert forall|i: int, j: int| 0 <= i < j < whole.len() implies leaves_first(
            #[trigger] whole[i],
            #[trigger] whole[j],
        ) by {
            if j < queue.len() {
                assert(leaves_first(queue[i], queue[j]));
            } else if i < queue.len() - 1 {
                assert(leaves_first(queue[i], queue[queue.len() - 1]));
            }
        }
    }
}

/// The queue of candidates is in order: older versions leave before newer ones.
pub proof fn law_oldest_leave_first(tree: VersionTree, nodes: Seq<VersionNode>)
    ensures
        in_order(queue_of(tree, nodes)),
    decreases nodes.len(),
{
    if nodes.len() > 0 {
        law_oldest_leave_first(tree, nodes.drop_last());
        if is_candidate(tree, nodes.last()) {
            lemma_queued_with(queue_of(tree, nodes.drop_last()), candidate_of(nodes.last()));
        }
    }
}

/// Every candidate in a queue is a node that may be evicted.
proof fn lemma_queue_members(tree: VersionTree, nodes: Seq<VersionNode>, i: int)
    requires
        0 <= i < queue_of(tree, nodes).len(),
    ensures
        exists|n: int|
            0 <= n < nodes.len() && is_candidate(tree, #[trigger] nodes[n]) && candidate_of(
                nodes[n],
            ) == queue_of(tree, nodes)[i],
    decreases nodes.len(),
{
    broadcast use vstd::seq_lib::group_to_multiset_ensures;

    let queue = queue_of(tree, nodes);
    let shorter = nodes.drop_last();
    let before = queue_of(tree, shorter);
    if is_candidate(tree, nodes.last()) {
        law_oldest_leave_first(tree, shorter);
        lemma_queued_with(before, candidate_of(nodes.last()));
        assert(queue.to_multiset().count(queue[i]) > 0);
        if queue[i] == candidate_of(nodes.last()) {
            assert(nodes[nodes.len() - 1] == nodes.last());
        } else {
            assert(before.to_multiset().count(queue[i]) > 0);
            assert(before.contains(queue[i]));
            let k = choose|k: int| 0 <= k < before.len() && before[k] == queue[i];
            lemma_queue_members(tree, shorter, k);
            let n = choose|n: int|
                0 <= n < shorter.len() && is_candidate(tree, #[trigger] shorter[n])
                    && candidate_of(shorter[n]) == before[k];
            assert(nodes[n] == shorter[n]);
        }
    } else {
        lemma_queue_members(tree, shorter, i);
        let n = choose|n: int|
            0 <= n < shorter.len() && is_candidate(tree, #[trigger] shorter[n]) && candidate_of(
                shorter[n],
            ) == before[i];
        assert(nodes[n] == shorter[n]);
    }
}

/// No head and nothing that a head builds on is ever evicted.
pub proof fn law_head_chain_is_kept(tree: VersionTree, count: int, id: VersionId)
    requires
        0 <= count <= queue_of(tree, tree.nodes@).len(),
        on_head_chain(tree, id),
    ensures
        !evicted_ids(queue_of(tree, tree.nodes@), count).contains(id),
{
    let queue = queue_of(tree, tree.nodes@);
    if evicted_ids(queue, count).contains(id) {
        let i = choose|i: int| 0 <= i < count && (#[trigger] queue[i]).version_id == id;
        lemma_queue_members(tree, tree.nodes@, i);
    }
}

/// There is exactly one number of candidates that has to leave.
pub proof fn law_room_is_made_once(queue: Seq<GcCandidate>, needed: int, one: int, two: int)
    requires
        makes_room(queue, needed, one),
        makes_room(queue, needed, two),
    ensures
        one == two,
{
    if one < two {
        assert(space(queue, one) < needed);
    }
    if two < one {
        assert(space(queue, two) < needed);
    }
}

proof fn lemma_kept_step(
    nodes: Seq<VersionNode>,
    orphans: Set<u64>,
    id: VersionId,
    steps: nat,
)
    ensures
        kept_ancestor(nodes, orphans, id, steps + 1) == (match kept_ancestor(
            nodes,
            orphans,
            id,
            steps,
        ) {
            Some(above) => kept_parent(nodes, orphans, above),
            None => None,
        }),
    decreases steps,
{
    reveal_with_fuel(kept_ancestor, 2);
    if steps > 0 {
        match kept_parent(nodes, orphans, id) {
            Some(parent) => {
                lemma_kept_step(nodes, orphans, parent, (steps - 1) as nat);
                assert((steps - 1) as nat + 1 == steps);
            },
            None => {},
        }
    }
}

/// A set that holds every kept parent of its members holds every way up.
proof fn lemma_closed(
    nodes: Seq<VersionNode>,
    orphans: Set<u64>,
    set: Set<u64>,
    id: VersionId,
    steps: nat,
)
    requires
        set.contains(id),
        forall|x: u64|
            #![trigger set.contains(x)]
            set.contains(x) ==> (kept_parent(nodes, orphans, x) matches Some(parent) ==> set.contains(
                parent,
            )),
    ensures
        kept_ancestor(nodes, orphans, id, steps) matches Some(above) ==> set.contains(above),
    decreases steps,
{
    if steps > 0 {
        match kept_parent(nodes, orphans, id) {
            Some(parent) => lemma_closed(nodes, orphans, set, parent, (steps - 1) as nat),
            None => {},
        }
    }
}

/// The versions that nodes stand for.
spec fn known_ids(nodes: Seq<VersionNode>) -> Set<u64> {
    nodes.map_values(|node: VersionNode| node.version_id).to_set()
}

/// Decides what is collected.
#[derive(Debug)]
pub struct QuotaManager {
    /// How much space there is.
    pub max_bytes: u64,
    /// How much space is used.
    pub used_bytes: u64,
    /// How long an orphan is kept, in nanoseconds.
    pub grace_period: u128,
    /// Since when a version is known to be an orphan, in nanoseconds.
    pub orphan_since: Vec<(VersionId, u128)>,
    /// The versions that may be collected.
    pub gc_eligible: IdSet,
}

/// Since when a version is known to be an orphan.
pub open spec fn since_of(since: Seq<(VersionId, u128)>, id: VersionId) -> Option<u128>
    decreases since.len(),
{
    if since.len() == 0 {
        None
    } else if since.last().0 == id {
        Some(since.last().1)
    } else {
        since_of(since.drop_last(), id)
    }
}

/// The versions of a list of orphans differ.
pub open spec fn since_differs(since: Seq<(VersionId, u128)>) -> bool {
    forall|i: int, j: int|
        0 <= i < j < since.len() ==> (#[trigger] since[i]).0 != (#[trigger] since[j]).0
}

/// Whether the grace period of an orphan is over.
pub open spec fn expired(since: u128, now: u128, grace: u128) -> bool {
    (if now >= since {
        now - since
    } else {
        0
    }) >= grace
}

proof fn lemma_since_of(since: Seq<(VersionId, u128)>, id: VersionId)
    ensures
        match since_of(since, id) {
            Some(at) => exists|i: int|
                0 <= i < since.len() && #[trigger] since[i] == (id, at),
            None => forall|i: int| 0 <= i < since.len() ==> (#[trigger] since[i]).0 != id,
        },
    decreases since.len(),
{
    if since.len() > 0 {
        let shorter = since.drop_last();
        lemma_since_of(shorter, id);
        if since.last().0 == id {
            assert(since[since.len() - 1] == (id, since.last().1));
        } else {
            match since_of(shorter, id) {
                Some(at) => {
                    let i = choose|i: int|
                        0 <= i < shorter.len() && #[trigger] shorter[i] == (id, at);
                    assert(since[i] == (id, at));
                },
                None => {
                    assert forall|i: int| 0 <= i < since.len() implies (#[trigger] since[i]).0
                        != id by {
                        if i < shorter.len() {
                            assert(shorter[i] == since[i]);
                        }
                    }
                },
            }
        }
    }
}

proof fn lemma_since_at(since: Seq<(VersionId, u128)>, i: int)
    requires
        since_differs(since),
        0 <= i < since.len(),
    ensures
        since_of(since, since[i].0) == Some(since[i].1),
{
    lemma_since_of(since, since[i].0);
    let at = since_of(since, since[i].0);
    if at is Some {
        let j = choose|j: int| 0 <= j < since.len() && #[trigger] since[j] == (since[i].0, at->0);
        if j < i {
            assert(since[j].0 != since[i].0);
        } else if i < j {
            assert(since[i].0 != since[j].0);
        }
    }
}

/// The full snapshot of a version can become a base of its own: every delta on top of it may
/// be collected.
pub open spec fn promotable(nodes: Seq<VersionNode>, eligible: Set<u64>, id: VersionId) -> bool {
    forall|i: int|
        0 <= i < nodes.len() && (#[trigger] nodes[i]).parent_id == Some(id) && nodes[i].delta is Some
            ==> eligible.contains(nodes[i].version_id)
}

/// How many of some nodes are full snapshots that can become bases of their own.
pub open spec fn promotable_count(
    all: Seq<VersionNode>,
    eligible: Set<u64>,
    nodes: Seq<VersionNode>,
) -> nat
    decreases nodes.len(),
{
    if nodes.len() == 0 {
        0
    } else {
        promotable_count(all, eligible, nodes.drop_last()) + (if nodes.last().full_content is Some
            && promotable(all, eligible, nodes.last().version_id) {
            1nat
        } else {
            0
        })
    }
}

/// The deltas from before a position.
pub open spec fn deltas_before(nodes: Seq<VersionNode>, seq_no: SeqNo) -> Set<u64> {
    Set::new(
        |id: u64|
            exists|i: int|
                0 <= i < nodes.len() && (#[trigger] nodes[i]).version_id == id && nodes[i].seq_no
                    < seq_no && nodes[i].delta is Some,
    )
}

impl QuotaManager {
    /// No orphan is listed twice.
    pub open spec fn wf(&self) -> bool {
        since_differs(self.orphan_since@)
    }

    /// A manager of a space that is not used yet.
    pub fn new(max_bytes: u64) -> (quota: QuotaManager)
        ensures
            quota.wf(),
            quota.max_bytes == max_bytes,
            quota.used_bytes == 0,
            quota.grace_period == DEFAULT_GRACE_PERIOD,
            quota.orphan_since@ == Seq::<(VersionId, u128)>::empty(),
            quota.gc_eligible@ == Set::<u64>::empty(),
    {
        QuotaManager {
            max_bytes,
            used_bytes: 0,
            grace_period: DEFAULT_GRACE_PERIOD,
            orphan_since: Vec::new(),
            gc_eligible: IdSet::new(),
        }
    }

    /// Sets how long an orphan is kept.
    pub fn set_grace_period(&mut self, period: u128)
        ensures
            *final(self) == (QuotaManager { grace_period: period, ..*old(self) }),
    {
        self.grace_period = period;
    }

    /// Whether more space is used than there is.
    pub fn is_over_quota(&self) -> (over: bool)
        ensures
            over == (self.used_bytes > self.max_bytes),
    {
        self.used_bytes > self.max_bytes
    }

    /// The versions that a head is or builds on.
    pub fn collect_head_ids(tree: &VersionTree) -> (head_ids: IdSet)
        requires
            tree.wf(),
        ensures
            forall|id: VersionId| #[trigger] head_ids@.contains(id) <==> on_head_chain(*tree, id),
    {
        let mut head_ids = IdSet::new();
        let ghost nodes = tree.nodes@;
        let ghost orphans = tree.orphans@;
        let mut i: usize = 0;
        while i < tree.heads.len()
            invariant
                tree.wf(),
                nodes == tree.nodes@,
                orphans == tree.orphans@,
                i <= tree.heads@.len(),
                forall|j: int| 0 <= j < i ==> head_ids@.contains((#[trigger] tree.heads@[j]).1),
                forall|x: u64| #[trigger] head_ids@.contains(x) ==> on_head_chain(*tree, x),
                forall|x: u64|
                    #![trigger head_ids@.contains(x)]
                    head_ids@.contains(x) ==> (kept_parent(nodes, orphans, x) matches Some(parent)
                        ==> head_ids@.contains(parent)),
            decreases tree.heads@.len() - i,
        {
            let head = tree.heads[i].1;
            proof {
                assert(crate::version_tree::is_head(tree.heads@, head));
                assert(kept_ancestor(nodes, orphans, head, 0) == Some(head));
            }
            let mut current: Option<VersionId> = Some(head);
            proof {
                nodes.map_values(|node: VersionNode| node.version_id).lemma_cardinality_of_set();
            }
            while current.is_some()
                invariant
                    tree.wf(),
                    nodes == tree.nodes@,
                    orphans == tree.orphans@,
                    i < tree.heads@.len(),
                    known_ids(nodes).finite(),
                    forall|j: int|
                        0 <= j < i ==> head_ids@.contains((#[trigger] tree.heads@[j]).1),
                    head_ids@.contains(head) || current == Some(head),
                    current matches Some(id) ==> on_head_chain(*tree, id),
                    forall|x: u64| #[trigger] head_ids@.contains(x) ==> on_head_chain(*tree, x),
                    forall|x: u64|
                        #![trigger head_ids@.contains(x)]
                        head_ids@.contains(x) ==> (kept_parent(nodes, orphans, x) matches Some(
                            parent,
                        ) ==> head_ids@.contains(parent) || current == Some(parent)),
                decreases
                    known_ids(nodes).difference(head_ids@).len() + (if current is Some {
                        1nat
                    } else {
                        0
                    }),
            {
                let ghost before = head_ids@;
                let id = current.unwrap();
                let new = head_ids.insert(id);
                if new {
                    let next = match tree.get_node(id) {
                        Some(node) => match node.parent_id {
                            Some(parent) => if tree.orphans.contains(parent) {
                                None
                            } else {
                                Some(parent)
                            },
                            None => None,
                        },
                        None => None,
                    };
                    proof {
                        assert(next == kept_parent(nodes, orphans, id));
                        let (from, steps) = choose|from: VersionId, steps: nat|
                            crate::version_tree::is_head(tree.heads@, from)
                                && #[trigger] kept_ancestor(nodes, orphans, from, steps) == Some(id);
                        lemma_kept_step(nodes, orphans, from, steps);
                        if next is Some {
                            assert(kept_ancestor(nodes, orphans, from, steps + 1) == next);
                            crate::version_tree::lemma_node_of_found(nodes, id);
                            let node = crate::version_tree::node_of(nodes, id)->0;
                            let n = choose|n: int| 0 <= n < nodes.len() && #[trigger] nodes[n]
                                == node;
                            let ids = nodes.map_values(|node: VersionNode| node.version_id);
                            assert(ids[n] == id);
                            assert(known_ids(nodes).contains(id));
                            assert(known_ids(nodes).difference(before).contains(id));
                            assert(known_ids(nodes).difference(head_ids@) =~= known_ids(
                                nodes,
                            ).difference(before).remove(id));
                        } else {
                            vstd::set_lib::lemma_len_subset(
                                known_ids(nodes).difference(head_ids@),
                                known_ids(nodes).difference(before),
                            );
                        }
                    }
                    current = next;
                } else {
                    assert(head_ids@ =~= before);
                    current = None;
                }
            }
            i += 1;
        }
        proof {
            assert forall|id: VersionId| on_head_chain(*tree, id) implies #[trigger] head_ids@.contains(
                id,
            ) by {
                let (head, steps) = choose|head: VersionId, steps: nat|
                    crate::version_tree::is_head(tree.heads@, head) && #[trigger] kept_ancestor(
                        nodes,
                        orphans,
                        head,
                        steps,
                    ) == Some(id);
                let j = choose|j: int| 0 <= j < tree.heads@.len() && (#[trigger] tree.heads@[j]).1
                    == head;
                assert(head_ids@.contains(tree.heads@[j].1));
                lemma_closed(nodes, orphans, head_ids@, head, steps);
            }
        }
        head_ids
    }

    /// The space that a node needs.
    fn estimate_node_size(node: &VersionNode) -> (size: u64)
        ensures
            size == node_size(*node),
    {
        match &node.delta {
            Some(delta) => delta.compressed_size,
            None => if node.full_content.is_some() {
                FULL_SNAPSHOT_SIZE
            } else {
                0
            },
        }
    }

    /// Puts a candidate into a queue.
    fn enqueue(queue: &mut Vec<GcCandidate>, candidate: GcCandidate)
        ensures
            final(queue)@ == queued_with(old(queue)@, candidate),
    {
        let ghost start = queue@;
        let mut at: usize = queue.len();
        assert(start.take(start.len() as int) =~= start);
        assert(queued_with(start, candidate) + start.skip(start.len() as int) =~= queued_with(
            start,
            candidate,
        ));
        while at > 0 && !(queue[at - 1].seq_no < candidate.seq_no || (queue[at - 1].seq_no
            == candidate.seq_no && queue[at - 1].delta_depth >= candidate.delta_depth))
            invariant
                at <= queue@.len(),
                queue@ == start,
                queued_with(start, candidate) == queued_with(start.take(at as int), candidate)
                    + start.skip(at as int),
            decreases at,
        {
            proof {
                let shorter = start.take(at as int);
                assert(shorter.drop_last() =~= start.take(at - 1));
                assert(queued_with(shorter, candidate) + start.skip(at as int) =~= queued_with(
                    start.take(at - 1),
                    candidate,
                ) + start.skip(at - 1));
            }
            at -= 1;
        }
        queue.insert(at, candidate);
        proof {
            let shorter = start.take(at as int);
            assert(queued_with(shorter, candidate) == shorter.push(candidate));
            assert(queue@ =~= shorter.push(candidate) + start.skip(at as int));
        }
    }

    /// The candidates of a tree, in the order in which they leave.
    pub fn gc_queue(tree: &VersionTree) -> (queue: Vec<GcCandidate>)
        requires
            tree.wf(),
        ensures
            queue@ == queue_of(*tree, tree.nodes@),
    {
        let head_ids = QuotaManager::collect_head_ids(tree);
        let mut queue: Vec<GcCandidate> = Vec::new();
        let mut i: usize = 0;
        while i < tree.nodes.len()
            invariant
                i <= tree.nodes@.len(),
                forall|id: VersionId| #[trigger] head_ids@.contains(id) <==> on_head_chain(*tree, id),
                queue@ == queue_of(*tree, tree.nodes@.take(i as int)),
            decreases tree.nodes@.len() - i,
        {
            let node = &tree.nodes[i];
            assert(tree.nodes@.take(i + 1).drop_last() =~= tree.nodes@.take(i as int));
            if !head_ids.contains(node.version_id) && node.full_content.is_none() {
                let candidate = GcCandidate {
                    seq_no: node.seq_no,
                    version_id: node.version_id,
                    delta_depth: node.delta_depth,
                    size: QuotaManager::estimate_node_size(node),
                };
                QuotaManager::enqueue(&mut queue, candidate);
            }
            i += 1;
        }
        assert(tree.nodes@.take(tree.nodes@.len() as int) =~= tree.nodes@);
        queue
    }

    /// The space that a collection makes, where it can be counted in 64 bits.
    pub fn gc_room(&self, tree: &VersionTree) -> (room: Option<u64>)
        requires
            tree.wf(),
        ensures
            exists|count: int| #[trigger]
                makes_room(
                    queue_of(*tree, tree.nodes@),
                    self.used_bytes - self.max_bytes,
                    count,
                ) && match room {
                    Some(room) => room == space(queue_of(*tree, tree.nodes@), count),
                    None => space(queue_of(*tree, tree.nodes@), count) > u64::MAX,
                },
    {
        let queue = QuotaManager::gc_queue(tree);
        let ghost whole = queue_of(*tree, tree.nodes@);
        let ghost needed = self.used_bytes - self.max_bytes;
        let to_free: u64 = if self.used_bytes > self.max_bytes {
            self.used_bytes - self.max_bytes
        } else {
            0
        };
        let mut room: u128 = 0;
        let mut count: usize = 0;
        while count < queue.len() && room < to_free as u128
            invariant
                queue@ == whole,
                count <= queue@.len(),
                needed == self.used_bytes - self.max_bytes,
                to_free == (if needed > 0 {
                    needed
                } else {
                    0
                }),
                room == space(whole, count as int),
                forall|fewer: int| 0 <= fewer < count ==> #[trigger] space(whole, fewer) < needed,
            decreases queue@.len() - count,
        {
            room = room + queue[count].size as u128;
            count += 1;
        }
        assert(makes_room(whole, needed, count as int));
        if room <= u64::MAX as u128 {
            Some(room as u64)
        } else {
            None
        }
    }

    /// Evicts the oldest deltas until the used space is within the quota, and says how much
    /// space that frees. The evicted versions may be collected from then on.
    pub fn run_gc(&mut self, tree: &mut VersionTree) -> (freed: u64)
        requires
            old(self).wf(),
            old(tree).wf(),
            forall|count: int|
                makes_room(
                    queue_of(*old(tree), old(tree).nodes@),
                    old(self).used_bytes - old(self).max_bytes,
                    count,
                ) ==> #[trigger] space(queue_of(*old(tree), old(tree).nodes@), count) <= u64::MAX,
        ensures
            final(self).wf(),
            final(tree).wf(),
            exists|count: int| #[trigger]
                makes_room(
                    queue_of(*old(tree), old(tree).nodes@),
                    old(self).used_bytes - old(self).max_bytes,
                    count,
                ) && freed == space(queue_of(*old(tree), old(tree).nodes@), count)
                    && final(self).gc_eligible@ == old(self).gc_eligible@.union(
                    evicted_ids(queue_of(*old(tree), old(tree).nodes@), count),
                ),
            final(self).used_bytes == (if old(self).used_bytes >= freed {
                old(self).used_bytes - freed
            } else {
                0
            }),
            final(self).max_bytes == old(self).max_bytes,
            final(self).grace_period == old(self).grace_period,
            final(self).orphan_since@ == old(self).orphan_since@,
            final(tree).nodes@ == old(tree).nodes@,
            final(tree).heads@ == old(tree).heads@,
            final(tree).orphans@ == old(tree).orphans@,
            final(tree).gc_eligible@ == old(tree).gc_eligible@.union(final(self).gc_eligible@),
    {
        let queue = QuotaManager::gc_queue(tree);
        let ghost whole = queue_of(*old(tree), old(tree).nodes@);
        let ghost needed = self.used_bytes - self.max_bytes;
        let ghost eligible = self.gc_eligible@;
        let ghost start = *self;
        let to_free: u64 = if self.used_bytes > self.max_bytes {
            self.used_bytes - self.max_bytes
        } else {
            0
        };
        let mut freed: u64 = 0;
        let mut count: usize = 0;
        assert(eligible.union(evicted_ids(whole, 0)) =~= eligible);
        while count < queue.len() && freed < to_free
            invariant
                queue@ == whole,
                count <= queue@.len(),
                self.gc_eligible@ == eligible.union(evicted_ids(whole, count as int)),
                self.max_bytes == start.max_bytes,
                self.used_bytes == start.used_bytes,
                self.grace_period == start.grace_period,
                self.orphan_since@ == start.orphan_since@,
                needed == start.used_bytes - start.max_bytes,
                to_free == (if needed > 0 {
                    needed
                } else {
                    0
                }),
                freed == space(whole, count as int),
                forall|fewer: int| 0 <= fewer < count ==> #[trigger] space(whole, fewer) < needed,
                forall|count: int|
                    makes_room(whole, needed, count) ==> #[trigger] space(whole, count) <= u64::MAX,
            decreases queue@.len() - count,
        {
            let candidate = queue[count];
            self.gc_eligible.insert(candidate.version_id);
            proof {
                let next = count + 1;
                assert forall|id: u64| evicted_ids(whole, next).contains(id) <==> evicted_ids(
                    whole,
                    count as int,
                ).contains(id) || id == candidate.version_id by {
                    if evicted_ids(whole, count as int).contains(id) {
                        let i = choose|i: int| 0 <= i < count && (#[trigger] whole[i]).version_id
                            == id;
                        assert(whole[i].version_id == id);
                    }
                    assert(whole[count as int].version_id == candidate.version_id);
                }
                assert(self.gc_eligible@ =~= eligible.union(evicted_ids(whole, next)));
                assert(space(whole, next) == freed + candidate.size);
                assert(space(whole, count as int) < needed);
                lemma_room_exists(whole, needed, next);
                let last = choose|last: int| next <= last && makes_room(whole, needed, last);
                lemma_space_grows(whole, next, last);
            }
            freed = freed + candidate.size;
            count += 1;
        }
        proof {
            assert(makes_room(whole, needed, count as int));
        }
        self.used_bytes =
        if self.used_bytes >= freed {
            self.used_bytes - freed
        } else {
            0
        };
        let ids = self.gc_eligible.to_vec();
        tree.mark_gc_eligible(&ids);
        freed
    }

    /// How many full snapshots can become bases of their own.
    pub fn batch_promote(&self, tree: &VersionTree) -> (promoted: usize)
        ensures
            promoted == promotable_count(tree.nodes@, self.gc_eligible@, tree.nodes@),
    {
        let mut promoted: usize = 0;
        let mut i: usize = 0;
        while i < tree.nodes.len()
            invariant
                i <= tree.nodes@.len(),
                promoted <= i,
                promoted == promotable_count(
                    tree.nodes@,
                    self.gc_eligible@,
                    tree.nodes@.take(i as int),
                ),
            decreases tree.nodes@.len() - i,
        {
            assert(tree.nodes@.take(i + 1).drop_last() =~= tree.nodes@.take(i as int));
            if tree.nodes[i].full_content.is_some() {
                let id = tree.nodes[i].version_id;
                let mut j: usize = 0;
                let mut all_collected = true;
                while j < tree.nodes.len() && all_collected
                    invariant
                        j <= tree.nodes@.len(),
                        all_collected ==> promotable(
                            tree.nodes@.take(j as int),
                            self.gc_eligible@,
                            id,
                        ),
                        !all_collected ==> !promotable(tree.nodes@, self.gc_eligible@, id),
                    decreases tree.nodes@.len() - j,
                {
                    let child = &tree.nodes[j];
                    let is_child = match child.parent_id {
                        Some(parent) => parent == id,
                        None => false,
                    };
                    if is_child && child.delta.is_some() && !self.gc_eligible.contains(
                        child.version_id,
                    ) {
                        assert(tree.nodes@[j as int] == *child);
                        all_collected = false;
                    }
                    proof {
                        assert forall|k: int|
                            all_collected && 0 <= k < j + 1 && (#[trigger] tree.nodes@.take(
                                j + 1,
                            )[k]).parent_id == Some(id) && tree.nodes@.take(
                                j + 1,
                            )[k].delta is Some implies self.gc_eligible@.contains(
                            tree.nodes@.take(j + 1)[k].version_id,
                        ) by {
                            if k < j {
                                assert(tree.nodes@.take(j as int)[k] == tree.nodes@.take(j + 1)[k]);
                            }
                        }
                    }
                    j += 1;
                }
                assert(tree.nodes@.take(tree.nodes@.len() as int) =~= tree.nodes@);
                if all_collected {
                    promoted += 1;
                }
            }
            i += 1;
        }
        assert(tree.nodes@.take(tree.nodes@.len() as int) =~= tree.nodes@);
        promoted
    }

    /// Notes since when a version is an orphan, unless that is known.
    fn note_orphan(&mut self, id: VersionId, now: u128)
        requires
            old(self).wf(),
        ensures
            final(self).wf(),
            final(self).max_bytes == old(self).max_bytes,
            final(self).used_bytes == old(self).used_bytes,
            final(self).grace_period == old(self).grace_period,
            final(self).gc_eligible@ == old(self).gc_eligible@,
            forall|other: VersionId| #[trigger]
                since_of(final(self).orphan_since@, other) == (if other == id && since_of(
                    old(self).orphan_since@,
                    id,
                ) is None {
                    Some(now)
                } else {
                    since_of(old(self).orphan_since@, other)
                }),
    {
        let ghost before = self.orphan_since@;
        let mut i: usize = 0;
        while i < self.orphan_since.len()
            invariant
                *self == *old(self),
                self.wf(),
                i <= self.orphan_since@.len(),
                forall|j: int| 0 <= j < i ==> (#[trigger] self.orphan_since@[j]).0 != id,
            decreases self.orphan_since@.len() - i,
        {
            if self.orphan_since[i].0 == id {
                proof {
                    lemma_since_at(self.orphan_since@, i as int);
                }
                return ;
            }
            i += 1;
        }
        self.orphan_since.push((id, now));
        proof {
            lemma_since_of(before, id);
            if since_of(before, id) is Some {
                let j = choose|j: int|
                    0 <= j < before.len() && #[trigger] before[j] == (id, since_of(before, id)->0);
                assert(before[j].0 != id);
            }
            assert(self.orphan_since@.drop_last() =~= before);
        }
    }

    /// Marks the orphans whose grace period is over as collectable.
    pub fn prune_orphan_branches(&mut self, tree: &mut VersionTree, now: u128)
        requires
            old(self).wf(),
            old(tree).wf(),
        ensures
            final(self).wf(),
            final(tree).wf(),
            final(self).max_bytes == old(self).max_bytes,
            final(self).used_bytes == old(self).used_bytes,
            final(self).grace_period == old(self).grace_period,
            final(tree).nodes@ == old(tree).nodes@,
            final(tree).heads@ == old(tree).heads@,
            final(tree).orphans@ == old(tree).orphans@,
            pruned(*old(self), *old(tree), now, *final(self), *final(tree)),
    {
        let orphans = tree.orphans.to_vec();
        let ghost start = *self;
        let grace = self.grace_period;
        let mut i: usize = 0;
        while i < orphans.len()
            invariant
                i <= orphans@.len(),
                orphans@.no_duplicates(),
                self.wf(),
                self.max_bytes == start.max_bytes,
                self.used_bytes == start.used_bytes,
                self.grace_period == start.grace_period,
                self.gc_eligible@ == start.gc_eligible@,
                forall|id: VersionId| #[trigger]
                    since_of(self.orphan_since@, id) == orphaned_since(
                        start.orphan_since@,
                        orphans@.take(i as int).to_set(),
                        now,
                        id,
                    ),
            decreases orphans@.len() - i,
        {
            let ghost before = self.orphan_since@;
            self.note_orphan(orphans[i], now);
            proof {
                let shorter = orphans@.take(i as int);
                let longer = orphans@.take(i + 1);
                assert(longer =~= shorter.push(orphans@[i as int]));
                assert forall|id: VersionId| #[trigger] since_of(self.orphan_since@, id)
                    == orphaned_since(start.orphan_since@, longer.to_set(), now, id) by {
                    assert(since_of(before, id) == orphaned_since(
                        start.orphan_since@,
                        shorter.to_set(),
                        now,
                        id,
                    ));
                    if longer.contains(id) {
                        let k = choose|k: int| 0 <= k < longer.len() && longer[k] == id;
                        if k < i {
                            assert(shorter[k] == id);
                        }
                    }
                    if shorter.contains(id) {
                        let k = choose|k: int| 0 <= k < shorter.len() && shorter[k] == id;
                        assert(longer[k] == id);
                    }
                    if id == orphans@[i as int] {
                        assert(longer[i as int] == id);
                    }
                }
            }
            i += 1;
        }
        assert(orphans@.take(orphans@.len() as int) =~= orphans@);
        let ghost noted = self.orphan_since@;
        let mut kept: Vec<(VersionId, u128)> = Vec::new();
        let mut over: Vec<VersionId> = Vec::new();
        let mut n: usize = 0;
        while n < self.orphan_since.len()
            invariant
                n <= noted.len(),
                self.orphan_since@ == noted,
                since_differs(noted),
                since_differs(kept@),
                forall|k: int|
                    0 <= k < kept@.len() ==> stays(noted.take(n as int), now, grace, #[trigger] kept@[k]),
                forall|j: int|
                    0 <= j < n ==> if expired((#[trigger] noted[j]).1, now, grace) {
                        over@.contains(noted[j].0)
                    } else {
                        kept@.contains(noted[j])
                    },
                forall|k: int|
                    0 <= k < over@.len() ==> goes(noted.take(n as int), now, grace, #[trigger] over@[k]),
            decreases noted.len() - n,
        {
            let (id, since) = self.orphan_since[n];
            let elapsed: u128 = if now >= since {
                now - since
            } else {
                0
            };
            let ghost kept_before = kept@;
            let ghost over_before = over@;
            if elapsed >= grace {
                over.push(id);
            } else {
                kept.push((id, since));
            }
            n += 1;
            proof {
                assert(noted[n - 1] == (id, since));
                lemma_push_contains(kept_before, (id, since));
                lemma_push_contains(over_before, id);
                let shorter = noted.take(n - 1);
                let longer = noted.take(n as int);
                assert forall|k: int| 0 <= k < kept@.len() implies stays(
                    longer,
                    now,
                    grace,
                    #[trigger] kept@[k],
                ) by {
                    if k < kept_before.len() {
                        assert(kept@[k] == kept_before[k]);
                        let j = choose|j: int|
                            0 <= j < shorter.len() && #[trigger] shorter[j] == kept_before[k];
                        assert(longer[j] == kept@[k]);
                    } else {
                        assert(longer[n - 1] == kept@[k]);
                    }
                }
                assert forall|k: int| 0 <= k < over@.len() implies goes(
                    longer,
                    now,
                    grace,
                    #[trigger] over@[k],
                ) by {
                    if k < over_before.len() {
                        assert(over@[k] == over_before[k]);
                        let j = choose|j: int|
                            0 <= j < shorter.len() && (#[trigger] shorter[j]).0 == over_before[k]
                                && expired(shorter[j].1, now, grace);
                        assert(longer[j] == shorter[j]);
                    } else {
                        assert(longer[n - 1].0 == over@[k]);
                    }
                }
                assert forall|a: int, b: int| 0 <= a < b < kept@.len() implies (
                #[trigger] kept@[a]).0 != (#[trigger] kept@[b]).0 by {
                    if b < kept_before.len() {
                        assert(kept_before[a].0 != kept_before[b].0);
                    } else {
                        assert(kept@[a] == kept_before[a]);
                        assert(stays(shorter, now, grace, kept_before[a]));
                        let j = choose|j: int|
                            0 <= j < shorter.len() && #[trigger] shorter[j] == kept_before[a];
                        assert(noted[j].0 != noted[n - 1].0);
                    }
                }
            }
        }
        assert(noted.take(noted.len() as int) =~= noted);
        self.orphan_since = kept;
        self.gc_eligible.insert_all(&over);
        tree.mark_gc_eligible(&over);
        proof {
            let after = self.orphan_since@;
            assert forall|id: VersionId|
                #![trigger since_of(after, id)]
                {
                    let since = since_of(noted, id);
                    let over_now = since matches Some(at) && expired(at, now, grace);
                    &&& since_of(after, id) == (if over_now {
                        None
                    } else {
                        since
                    })
                    &&& over@.contains(id) == over_now
                } by {
                lemma_since_of(noted, id);
                lemma_since_of(after, id);
                match since_of(noted, id) {
                    Some(at) => {
                        let j = choose|j: int| 0 <= j < noted.len() && #[trigger] noted[j] == (id, at);
                        if !expired(at, now, grace) {
                            assert(after.contains(noted[j]));
                            let k = choose|k: int| 0 <= k < after.len() && after[k] == noted[j];
                            lemma_since_at(after, k);
                        } else {
                            assert(over@.contains(noted[j].0));
                        }
                    },
                    None => {},
                }
                if since_of(after, id) is Some {
                    let at = since_of(after, id)->0;
                    let k = choose|k: int| 0 <= k < after.len() && #[trigger] after[k] == (id, at);
                    assert(stays(noted, now, grace, after[k]));
                    let j = choose|j: int| 0 <= j < noted.len() && #[trigger] noted[j] == after[k];
                    lemma_since_at(noted, j);
                }
                if over@.contains(id) {
                    let k = choose|k: int| 0 <= k < over@.len() && over@[k] == id;
                    assert(goes(noted, now, grace, over@[k]));
                    let j = choose|j: int|
                        0 <= j < noted.len() && (#[trigger] noted[j]).0 == over@[k] && expired(
                            noted[j].1,
                            now,
                            grace,
                        );
                    lemma_since_at(noted, j);
                }
            }
        }
    }

    /// After a commit of the repository, the deltas from before it may be collected.
    pub fn on_git_commit(&mut self, tree: &mut VersionTree, commit_seq: SeqNo)
        requires
            old(self).wf(),
            old(tree).wf(),
        ensures
            final(self).wf(),
            final(tree).wf(),
            final(self).max_bytes == old(self).max_bytes,
            final(self).used_bytes == old(self).used_bytes,
            final(self).grace_period == old(self).grace_period,
            final(self).orphan_since@ == old(self).orphan_since@,
            final(self).gc_eligible@ == old(self).gc_eligible@.union(
                deltas_before(old(tree).nodes@, commit_seq),
            ),
            final(tree).nodes@ == old(tree).nodes@,
            final(tree).heads@ == old(tree).heads@,
            final(tree).orphans@ == old(tree).orphans@,
            final(tree).gc_eligible@ == old(tree).gc_eligible@.union(
                deltas_before(old(tree).nodes@, commit_seq),
            ),
    {
        let mut to_gc: Vec<VersionId> = Vec::new();
        let mut i: usize = 0;
        assert(to_gc@.to_set() =~= deltas_before(tree.nodes@.take(0), commit_seq));
        while i < tree.nodes.len()
            invariant
                i <= tree.nodes@.len(),
                to_gc@.to_set() == deltas_before(tree.nodes@.take(i as int), commit_seq),
            decreases tree.nodes@.len() - i,
        {
            let ghost before = to_gc@;
            let node = &tree.nodes[i];
            if node.seq_no < commit_seq && node.delta.is_some() {
                to_gc.push(node.version_id);
            }
            proof {
                let shorter = tree.nodes@.take(i as int);
                let longer = tree.nodes@.take(i + 1);
                assert(longer =~= shorter.push(*node));
                lemma_push_contains(before, node.version_id);
                assert forall|id: u64| to_gc@.contains(id) <==> deltas_before(
                    longer,
                    commit_seq,
                ).contains(id) by {
                    assert(before.to_set().contains(id) == deltas_before(
                        shorter,
                        commit_seq,
                    ).contains(id));
                    if deltas_before(shorter, commit_seq).contains(id) {
                        let k = choose|k: int|
                            0 <= k < shorter.len() && (#[trigger] shorter[k]).version_id == id
                                && shorter[k].seq_no < commit_seq && shorter[k].delta is Some;
                        assert(longer[k] == shorter[k]);
                    }
                    if deltas_before(longer, commit_seq).contains(id) {
                        let k = choose|k: int|
                            0 <= k < longer.len() && (#[trigger] longer[k]).version_id == id
                                && longer[k].seq_no < commit_seq && longer[k].delta is Some;
                        if k < i {
                            assert(shorter[k] == longer[k]);
                        }
                    }
                    assert(longer[i as int] == *node);
                }
                assert(to_gc@.to_set() =~= deltas_before(longer, commit_seq));
            }
            i += 1;
        }
        assert(tree.nodes@.take(tree.nodes@.len() as int) =~= tree.nodes@);
        self.gc_eligible.insert_all(&to_gc);
        tree.mark_gc_eligible(&to_gc);
    }

    /// The number of versions that may be collected.
    pub fn gc_eligible_count(&self) -> (count: usize)
        requires
            self.wf(),
        ensures
            count == self.gc_eligible@.len(),
    {
        self.gc_eligible.len()
    }

    /// Forgets versions that were collected.
    pub fn clear_gc_eligible(&mut self, ids: &[VersionId])
        requires
            old(self).wf(),
        ensures
            final(self).wf(),
            final(self).gc_eligible@ == old(self).gc_eligible@.difference(ids@.to_set()),
            final(self).max_bytes == old(self).max_bytes,
            final(self).used_bytes == old(self).used_bytes,
            final(self).grace_period == old(self).grace_period,
            final(self).orphan_since@ == old(self).orphan_since@,
    {
        let ghost start = *self;
        let mut i: usize = 0;
        assert(self.gc_eligible@ =~= start.gc_eligible@.difference(ids@.take(0).to_set()));
        while i < ids.len()
            invariant
                i <= ids@.len(),
                self.wf(),
                self.max_bytes == start.max_bytes,
                self.used_bytes == start.used_bytes,
                self.grace_period == start.grace_period,
                self.orphan_since@ == start.orphan_since@,
                self.gc_eligible@ == start.gc_eligible@.difference(ids@.take(i as int).to_set()),
            decreases ids@.len() - i,
        {
            self.gc_eligible.remove(ids[i]);
            proof {
                let shorter = ids@.take(i as int);
                let longer = ids@.take(i + 1);
                assert(longer =~= shorter.push(ids@[i as int]));
                lemma_push_contains(shorter, ids@[i as int]);
                assert(self.gc_eligible@ =~= start.gc_eligible@.difference(longer.to_set()));
            }
            i += 1;
        }
        assert(ids@.take(ids@.len() as int) =~= ids@);
    }
}

/// Since when a version is an orphan, once the orphans of now are noted.
pub open spec fn orphaned_since(
    since: Seq<(VersionId, u128)>,
    orphans: Set<u64>,
    now: u128,
    id: VersionId,
) -> Option<u128> {
    match since_of(since, id) {
        Some(at) => Some(at),
        None => if orphans.contains(id) {
            Some(now)
        } else {
            None
        },
    }
}

/// What pruning does to every version: an orphan whose grace period is over may be collected and
/// is no longer listed, and any other orphan is listed since it was first seen.
pub open spec fn pruned(
    before: QuotaManager,
    tree: VersionTree,
    now: u128,
    after: QuotaManager,
    tree_after: VersionTree,
) -> bool {
    forall|id: VersionId|
        #![trigger since_of(after.orphan_since@, id)]
        #![trigger after.gc_eligible@.contains(id)]
        #![trigger tree_after.gc_eligible@.contains(id)]
        {
            let since = orphaned_since(before.orphan_since@, tree.orphans@, now, id);
            let over = since matches Some(at) && expired(at, now, before.grace_period);
            &&& since_of(after.orphan_since@, id) == (if over {
                None
            } else {
                since
            })
            &&& after.gc_eligible@.contains(id) == (before.gc_eligible@.contains(id) || over)
            &&& tree_after.gc_eligible@.contains(id) == (tree.gc_eligible@.contains(id) || over)
        }
}

/// A listed orphan whose grace period is not over.
spec fn stays(
    since: Seq<(VersionId, u128)>,
    now: u128,
    grace: u128,
    orphan: (VersionId, u128),
) -> bool {
    !expired(orphan.1, now, grace) && exists|i: int|
        0 <= i < since.len() && #[trigger] since[i] == orphan
}

/// A listed orphan whose grace period is over.
spec fn goes(since: Seq<(VersionId, u128)>, now: u128, grace: u128, id: VersionId) -> bool {
    exists|i: int|
        0 <= i < since.len() && (#[trigger] since[i]).0 == id && expired(since[i].1, now, grace)
}

proof fn lemma_push_contains<T>(items: Seq<T>, item: T)
    ensures
        forall|x: T| #[trigger] items.push(item).contains(x) <==> items.contains(x) || x == item,
{
    assert forall|x: T| #[trigger] items.push(item).contains(x) <==> items.contains(x) || x
        == item by {
        if items.contains(x) {
            let i = choose|i: int| 0 <= i < items.len() && items[i] == x;
            assert(items.push(item)[i] == x);
        }
        assert(items.push(item)[items.len() as int] == item);
    }
}

proof fn lemma_space_grows(queue: Seq<GcCandidate>, fewer: int, more: int)
    requires
        0 <= fewer <= more,
    ensures
        space(queue, fewer) <= space(queue, more),
    decreases more,
{
    if fewer < more {
        lemma_space_grows(queue, fewer, more - 1);
    }
}

/// Room is made by some number of candidates.
proof fn lemma_room_exists(queue: Seq<GcCandidate>, needed: int, count: int)
    requires
        0 <= count <= queue.len(),
        forall|fewer: int| 0 <= fewer < count ==> #[trigger] space(queue, fewer) < needed,
    ensures
        exists|last: int| count <= last && #[trigger] makes_room(queue, needed, last),
    decreases queue.len() - count,
{
    if count == queue.len() || space(queue, count) >= needed {
        assert(makes_room(queue, needed, count));
    } else {
        lemma_room_exists(queue, needed, count + 1);
    }
}

proof fn lemma_listed(since: Seq<(VersionId, u128)>, id: VersionId, at: u128)
    requires
        since_differs(since),
    ensures
        since.contains((id, at)) <==> since_of(since, id) == Some(at),
{
    lemma_since_of(since, id);
    if since.contains((id, at)) {
        let i = choose|i: int| 0 <= i < since.len() && since[i] == (id, at);
        lemma_since_at(since, i);
    }
    if since_of(since, id) == Some(at) {
        let i = choose|i: int| 0 <= i < since.len() && #[trigger] since[i] == (id, at);
        assert(since.contains(since[i]));
    }
}

/// A version that has been known as an orphan for less than the grace period stays listed since
/// the same time, and may not be collected unless it could before. One that has been known for at
/// least the grace period may be collected, by the manager and in the tree, and is not listed any
/// more.
pub proof fn law_orphan_is_kept_for_its_grace_period(
    before: QuotaManager,
    tree: VersionTree,
    now: u128,
    after: QuotaManager,
    tree_after: VersionTree,
    id: VersionId,
    since: u128,
)
    requires
        before.wf(),
        after.wf(),
        pruned(before, tree, now, after, tree_after),
        before.orphan_since@.contains((id, since)),
    ensures
        before.grace_period > 0 && now < since + before.grace_period ==> {
            &&& after.orphan_since@.contains((id, since))
            &&& after.gc_eligible@.contains(id) == before.gc_eligible@.contains(id)
            &&& tree_after.gc_eligible@.contains(id) == tree.gc_eligible@.contains(id)
        },
        before.grace_period == 0 || now >= since + before.grace_period ==> {
            &&& after.gc_eligible@.contains(id)
            &&& tree_after.gc_eligible@.contains(id)
            &&& forall|at: u128| !#[trigger] after.orphan_since@.contains((id, at))
        },
{
    lemma_listed(before.orphan_since@, id, since);
    lemma_listed(after.orphan_since@, id, since);
    assert(since_of(after.orphan_since@, id) is Some || since_of(after.orphan_since@, id) is None);
    assert forall|at: u128| #[trigger] after.orphan_since@.contains((id, at)) implies since_of(
        after.orphan_since@,
        id,
    ) == Some(at) by {
        lemma_listed(after.orphan_since@, id, at);
    }
}

/// An orphan that is seen for the first time is listed since now, and may not be collected unless
/// it could before, where there is a grace period at all.
pub proof fn law_new_orphan_is_listed_since_now(
    before: QuotaManager,
    tree: VersionTree,
    now: u128,
    after: QuotaManager,
    tree_after: VersionTree,
    id: VersionId,
)
    requires
        before.wf(),
        after.wf(),
        pruned(before, tree, now, after, tree_after),
        tree.orphans@.contains(id),
        forall|i: int|
            0 <= i < before.orphan_since@.len() ==> (#[trigger] before.orphan_since@[i]).0 != id,
        before.grace_period > 0,
    ensures
        after.orphan_since@.contains((id, now)),
        after.gc_eligible@.contains(id) == before.gc_eligible@.contains(id),
        tree_after.gc_eligible@.contains(id) == tree.gc_eligible@.contains(id),
{
    lemma_since_of(before.orphan_since@, id);
    lemma_listed(after.orphan_since@, id, now);
    assert(since_of(after.orphan_since@, id) == Some(now));
}

/// A version that is no orphan and is not listed as one is left alone by pruning.
pub proof fn law_pruning_leaves_others_alone(
    before: QuotaManager,
    tree: VersionTree,
    now: u128,
    after: QuotaManager,
    tree_after: VersionTree,
    id: VersionId,
    at: u128,
)
    requires
        before.wf(),
        after.wf(),
        pruned(before, tree, now, after, tree_after),
        !tree.orphans@.contains(id),
        forall|i: int|
            0 <= i < before.orphan_since@.len() ==> (#[trigger] before.orphan_since@[i]).0 != id,
    ensures
        !after.orphan_since@.contains((id, at)),
        after.gc_eligible@.contains(id) == before.gc_eligible@.contains(id),
        tree_after.gc_eligible@.contains(id) == tree.gc_eligible@.contains(id),
{
    lemma_since_of(before.orphan_since@, id);
    lemma_listed(after.orphan_since@, id, at);
    assert(since_of(after.orphan_since@, id) is None);
}

/// What a head builds on, by the three facts that fix it: a head is among it; so is the parent of
/// each version among it that is no orphan; and nothing else is.
pub proof fn law_head_chain_is_heads_and_parents(tree: VersionTree, id: VersionId, child: VersionNode)
    requires
        tree.wf(),
    ensures
        crate::version_tree::is_head(tree.heads@, id) ==> on_head_chain(tree, id),
        on_head_chain(tree, child.version_id) && tree.nodes@.contains(child) && child.parent_id
            == Some(id) && !tree.orphans@.contains(id) ==> on_head_chain(tree, id),
        on_head_chain(tree, id) && !crate::version_tree::is_head(tree.heads@, id) ==> (
        !tree.orphans@.contains(id) && exists|i: int|
            0 <= i < tree.nodes@.len() && (#[trigger] tree.nodes@[i]).parent_id == Some(id)
                && on_head_chain(tree, tree.nodes@[i].version_id)),
{
    let nodes = tree.nodes@;
    let orphans = tree.orphans@;
    if crate::version_tree::is_head(tree.heads@, id) {
        assert(kept_ancestor(nodes, orphans, id, 0) == Some(id));
    }
    if on_head_chain(tree, child.version_id) && nodes.contains(child) && child.parent_id == Some(id)
        && !orphans.contains(id) {
        let (head, steps) = choose|head: VersionId, steps: nat|
            crate::version_tree::is_head(tree.heads@, head) && #[trigger] kept_ancestor(
                nodes,
                orphans,
                head,
                steps,
            ) == Some(child.version_id);
        lemma_kept_step(nodes, orphans, head, steps);
        let at = choose|at: int| 0 <= at < nodes.len() && nodes[at] == child;
        crate::version_tree::lemma_node_of(nodes, at);
        assert(kept_ancestor(nodes, orphans, head, steps + 1) == Some(id));
    }
    if on_head_chain(tree, id) && !crate::version_tree::is_head(tree.heads@, id) {
        let (head, steps) = choose|head: VersionId, steps: nat|
            crate::version_tree::is_head(tree.heads@, head) && #[trigger] kept_ancestor(
                nodes,
                orphans,
                head,
                steps,
            ) == Some(id);
        assert(steps > 0);
        let fewer = (steps - 1) as nat;
        lemma_kept_step(nodes, orphans, head, fewer);
        assert(fewer + 1 == steps);
        let above = kept_ancestor(nodes, orphans, head, fewer)->0;
        assert(on_head_chain(tree, above));
        crate::version_tree::lemma_node_of_found(nodes, above);
        let node = crate::version_tree::node_of(nodes, above)->0;
        let i = choose|i: int| 0 <= i < nodes.len() && nodes[i] == node;
        assert(nodes[i].parent_id == Some(id));
    }
}

/// Every node that may be evicted is in a queue of candidates.
proof fn lemma_candidate_is_queued(tree: VersionTree, nodes: Seq<VersionNode>, n: int)
    requires
        0 <= n < nodes.len(),
        is_candidate(tree, nodes[n]),
    ensures
        queue_of(tree, nodes).contains(candidate_of(nodes[n])),
    decreases nodes.len(),
{
    broadcast use vstd::seq_lib::group_to_multiset_ensures;

    let shorter = nodes.drop_last();
    let before = queue_of(tree, shorter);
    law_oldest_leave_first(tree, shorter);
    if is_candidate(tree, nodes.last()) {
        lemma_queued_with(before, candidate_of(nodes.last()));
    }
    if n < shorter.len() {
        assert(shorter[n] == nodes[n]);
        lemma_candidate_is_queued(tree, shorter, n);
        assert(before.to_multiset().count(candidate_of(nodes[n])) > 0);
    }
    let queue = queue_of(tree, nodes);
    assert(queue.to_multiset().count(candidate_of(nodes[n])) > 0);
}

/// What can be evicted is every version without a full snapshot that no head builds on, and
/// nothing else; it counts with the size of its delta, or nothing where it has none.
pub proof fn law_queue_holds_the_deltas_off_the_head_chain(tree: VersionTree, n: int, i: int)
    requires
        0 <= n < tree.nodes@.len(),
        0 <= i < queue_of(tree, tree.nodes@).len(),
    ensures
        ({
            let node = tree.nodes@[n];
            let queue = queue_of(tree, tree.nodes@);
            &&& node.full_content is None && !on_head_chain(tree, node.version_id) ==> exists|k: int|
                0 <= k < queue.len() && (#[trigger] queue[k]).version_id == node.version_id
                    && queue[k].seq_no == node.seq_no && queue[k].delta_depth == node.delta_depth
                    && queue[k].size == (match node.delta {
                    Some(delta) => delta.compressed_size,
                    None => 0,
                })
            &&& !on_head_chain(tree, queue[i].version_id)
            &&& exists|k: int|
                0 <= k < tree.nodes@.len() && (#[trigger] tree.nodes@[k]).version_id
                    == queue[i].version_id && tree.nodes@[k].full_content is None
                    && tree.nodes@[k].seq_no == queue[i].seq_no
        }),
{
    let nodes = tree.nodes@;
    let queue = queue_of(tree, nodes);
    if is_candidate(tree, nodes[n]) {
        lemma_candidate_is_queued(tree, nodes, n);
        let k = choose|k: int| 0 <= k < queue.len() && queue[k] == candidate_of(nodes[n]);
        assert(queue[k].version_id == nodes[n].version_id);
    }
    lemma_queue_members(tree, nodes, i);
    let k = choose|k: int|
        0 <= k < nodes.len() && is_candidate(tree, #[trigger] nodes[k]) && candidate_of(nodes[k])
            == queue[i];
    assert(nodes[k].version_id == queue[i].version_id);
}

/// Nothing is evicted before something older, nor before something of the same age that stands on
/// a longer row of deltas.
pub proof fn law_eviction_goes_by_age(tree: VersionTree, count: int, one: int, two: int)
    requires
        0 <= count <= queue_of(tree, tree.nodes@).len(),
        0 <= one < queue_of(tree, tree.nodes@).len(),
        0 <= two < queue_of(tree, tree.nodes@).len(),
        ({
            let queue = queue_of(tree, tree.nodes@);
            queue[one].seq_no < queue[two].seq_no || (queue[one].seq_no == queue[two].seq_no
                && queue[one].delta_depth > queue[two].delta_depth)
        }),
    ensures
        one < two,
        two < count ==> evicted_ids(queue_of(tree, tree.nodes@), count).contains(
            queue_of(tree, tree.nodes@)[one].version_id,
        ),
{
    let queue = queue_of(tree, tree.nodes@);
    law_oldest_leave_first(tree, tree.nodes@);
    if two < one {
        assert(leaves_first(queue[two], queue[one]));
    }
}

/// The evicted versions are those of the candidates that leave, each of which stands before those
/// that stay.
pub proof fn law_evicted_are_the_first(queue: Seq<GcCandidate>, count: int, at: int)
    requires
        0 <= count <= queue.len(),
        0 <= at < queue.len(),
        forall|i: int, j: int|
            0 <= i < j < queue.len() ==> (#[trigger] queue[i]).version_id != (
            #[trigger] queue[j]).version_id,
    ensures
        evicted_ids(queue, count).contains(queue[at].version_id) <==> at < count,
{
    if evicted_ids(queue, count).contains(queue[at].version_id) {
        let i = choose|i: int|
            0 <= i < count && (#[trigger] queue[i]).version_id == queue[at].version_id;
        if i < at {
            assert(queue[i].version_id != queue[at].version_id);
        } else if at < i {
            assert(queue[at].version_id != queue[i].version_id);
        }
    }
}

/// A collection frees as much as is used beyond the quota, unless everything that can leave does;
/// and without the last one that leaves it would not. Within the quota nothing leaves.
pub proof fn law_collection_frees_just_enough(queue: Seq<GcCandidate>, needed: int, count: int)
    requires
        makes_room(queue, needed, count),
    ensures
        space(queue, count) >= needed || count == queue.len(),
        count > 0 ==> space(queue, count - 1) < needed,
        count > 0 ==> space(queue, count) == space(queue, count - 1) + queue[count - 1].size,
        space(queue, 0) == 0,
        needed <= 0 ==> count == 0,
{
    if count > 0 {
        assert(space(queue, count - 1) < needed);
        assert(space(queue, 0) < needed);
    }
}

/// After a commit of the repository, exactly the versions with a delta from before it may be
/// collected for its sake.
pub proof fn law_commit_releases_older_deltas(tree: VersionTree, commit: SeqNo, n: int, id: u64)
    requires
        tree.wf(),
        0 <= n < tree.nodes@.len(),
    ensures
        deltas_before(tree.nodes@, commit).contains(tree.nodes@[n].version_id) <==> (
        tree.nodes@[n].delta is Some && tree.nodes@[n].seq_no < commit),
        (forall|i: int| 0 <= i < tree.nodes@.len() ==> (#[trigger] tree.nodes@[i]).version_id != id)
            ==> !deltas_before(tree.nodes@, commit).contains(id),
{
    let nodes = tree.nodes@;
    if deltas_before(nodes, commit).contains(nodes[n].version_id) {
        let i = choose|i: int|
            0 <= i < nodes.len() && (#[trigger] nodes[i]).version_id == nodes[n].version_id
                && nodes[i].seq_no < commit && nodes[i].delta is Some;
        if i < n {
            assert(nodes[i].version_id != nodes[n].version_id);
        } else if n < i {
            assert(nodes[n].version_id != nodes[i].version_id);
        }
    }
}

/// One node more is one base more exactly if it holds a full snapshot and no delta on top of it
/// is left that may not be collected.
pub proof fn law_bases_are_counted(
    all: Seq<VersionNode>,
    eligible: Set<u64>,
    nodes: Seq<VersionNode>,
    node: VersionNode,
)
    ensures
        promotable_count(all, eligible, Seq::empty()) == 0,
        promotable_count(all, eligible, nodes.push(node)) == promotable_count(all, eligible, nodes) + (
        if node.full_content is Some && !(exists|i: int|
            0 <= i < all.len() && (#[trigger] all[i]).parent_id == Some(node.version_id)
                && all[i].delta is Some && !eligible.contains(all[i].version_id)) {
            1nat
        } else {
            0
        }),
{
    assert(nodes.push(node).drop_last() =~= nodes);
}

} // verus!
