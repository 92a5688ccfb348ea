//! Nearest common ancestors of versions, found by jumps of powers of two.
use std::collections::HashMap;
use std::sync::Arc;

use vstd::arithmetic::power2::*;
use vstd::prelude::*;
use vstd::std_specs::hash::*;

use crate::ancestor_table::{push_id, AncestorTable};
use crate::version_tree::{VersionId, VersionNode};

verus! {

broadcast use group_hash_axioms;

/// The number of jumps that a table holds at most.
pub const TABLE_LEN: usize = 16;

/// The parent of a version, if the version is known and has one.
pub open spec fn parent_of(
    nodes: Map<VersionId, Arc<VersionNode>>,
    id: VersionId,
) -> Option<VersionId> {
    if nodes.contains_key(id) {
        nodes[id].parent_id
    } else {
        None
    }
}

/// The version that lies a number of steps above a version.
pub open spec fn ancestor(
    nodes: Map<VersionId, Arc<VersionNode>>,
    id: VersionId,
    steps: nat,
) -> Option<VersionId>
    decreases steps,
{
    if steps == 0 {
        Some(id)
    } else {
        match parent_of(nodes, id) {
            Some(parent) => ancestor(nodes, parent, (steps - 1) as nat),
            None => None,
        }
    }
}

/// The version that lies a number of steps, at least one, above a node.
pub open spec fn node_ancestor(
    node: VersionNode,
    nodes: Map<VersionId, Arc<VersionNode>>,
    steps: nat,
) -> Option<VersionId> {
    match node.parent_id {
        Some(parent) => ancestor(nodes, parent, (steps - 1) as nat),
        None => None,
    }
}

/// The way up from a version ends.
pub open spec fn rooted(nodes: Map<VersionId, Arc<VersionNode>>, id: VersionId) -> bool {
    exists|steps: nat| #[trigger] ancestor(nodes, id, steps) is None
}

/// The way up from a version has exactly `depth` steps.
pub open spec fn is_depth(
    nodes: Map<VersionId, Arc<VersionNode>>,
    id: VersionId,
    depth: nat,
) -> bool {
    &&& ancestor(nodes, id, depth) is Some
    &&& ancestor(nodes, id, depth + 1) is None
}

/// A version lies above another one or is the same.
pub open spec fn is_ancestor(
    nodes: Map<VersionId, Arc<VersionNode>>,
    above: VersionId,
    id: VersionId,
) -> bool {
    exists|steps: nat| #[trigger] ancestor(nodes, id, steps) == Some(above)
}

/// A version lies above both of two versions.
pub open spec fn is_common(
    nodes: Map<VersionId, Arc<VersionNode>>,
    above: VersionId,
    a: VersionId,
    b: VersionId,
) -> bool {
    is_ancestor(nodes, above, a) && is_ancestor(nodes, above, b)
}

/// A version is the nearest common ancestor of two: it lies above both, and every other
/// version that does lies above it.
pub open spec fn is_lca(
    nodes: Map<VersionId, Arc<VersionNode>>,
    nearest: VersionId,
    a: VersionId,
    b: VersionId,
) -> bool {
    &&& is_common(nodes, nearest, a, b)
    &&& forall|other: VersionId| #[trigger]
        is_common(nodes, other, a, b) ==> is_ancestor(nodes, other, nearest)
}

/// Two legs of a way up make one way up.
pub proof fn lemma_ancestor_sum(
    nodes: Map<VersionId, Arc<VersionNode>>,
    id: VersionId,
    first: nat,
    second: nat,
)
    ensures
        ancestor(nodes, id, first + second) == (match ancestor(nodes, id, first) {
            Some(middle) => ancestor(nodes, middle, second),
            None => None,
        }),
    decreases first,
{
    if first > 0 {
        match parent_of(nodes, id) {
            Some(parent) => {
                lemma_ancestor_sum(nodes, parent, (first - 1) as nat, second);
                assert(first + second - 1 == (first - 1) as nat + second);
            },
            None => {},
        }
    }
}

/// A way up that ends has a depth.
pub proof fn lemma_depth_exists(nodes: Map<VersionId, Arc<VersionNode>>, id: VersionId)
    requires
        rooted(nodes, id),
    ensures
        exists|depth: nat| is_depth(nodes, id, depth),
{
    let steps = choose|steps: nat| #[trigger] ancestor(nodes, id, steps) is None;
    lemma_depth_below(nodes, id, steps);
}

proof fn lemma_depth_below(
    nodes: Map<VersionId, Arc<VersionNode>>,
    id: VersionId,
    steps: nat,
)
    requires
        ancestor(nodes, id, steps) is None,
    ensures
        exists|depth: nat| is_depth(nodes, id, depth),
    decreases steps,
{
    assert(steps > 0);
    let below = (steps - 1) as nat;
    if ancestor(nodes, id, below) is Some {
        assert(below + 1 == steps);
        assert(is_depth(nodes, id, below));
    } else {
        lemma_depth_below(nodes, id, below);
    }
}

/// The way up reaches a version after as many steps as the depth allows and no more.
pub proof fn lemma_depth(
    nodes: Map<VersionId, Arc<VersionNode>>,
    id: VersionId,
    depth: nat,
    steps: nat,
)
    requires
        is_depth(nodes, id, depth),
    ensures
        ancestor(nodes, id, steps) is Some <==> steps <= depth,
{
    if steps <= depth {
        lemma_ancestor_sum(nodes, id, steps, (depth - steps) as nat);
        assert(steps + (depth - steps) as nat == depth);
    } else {
        lemma_ancestor_sum(nodes, id, depth + 1, (steps - depth - 1) as nat);
        assert(depth + 1 + (steps - depth - 1) as nat == steps);
    }
}

/// An ancestor's depth is what is left of the way.
pub proof fn lemma_ancestor_depth(
    nodes: Map<VersionId, Arc<VersionNode>>,
    id: VersionId,
    depth: nat,
    steps: nat,
)
    requires
        is_depth(nodes, id, depth),
        steps <= depth,
    ensures
        ancestor(nodes, id, steps) is Some,
        is_depth(nodes, ancestor(nodes, id, steps)->0, (depth - steps) as nat),
{
    lemma_depth(nodes, id, depth, steps);
    let rest = (depth - steps) as nat;
    lemma_ancestor_sum(nodes, id, steps, rest);
    lemma_ancestor_sum(nodes, id, steps, rest + 1);
    assert(steps + rest == depth);
    assert(steps + (rest + 1) == depth + 1);
}

/// A version has one depth only.
pub proof fn lemma_depth_unique(
    nodes: Map<VersionId, Arc<VersionNode>>,
    id: VersionId,
    one: nat,
    two: nat,
)
    requires
        is_depth(nodes, id, one),
        is_depth(nodes, id, two),
    ensures
        one == two,
{
    lemma_depth(nodes, id, one, two);
    lemma_depth(nodes, id, two, one);
}

/// A way that ends meets no version twice, so it has at most as many steps as there are
/// versions.
proof fn lemma_depth_bound(
    nodes: Map<VersionId, Arc<VersionNode>>,
    id: VersionId,
    depth: nat,
)
    requires
        is_depth(nodes, id, depth),
        nodes.dom().finite(),
    ensures
        depth <= nodes.dom().len(),
{
    let path = Seq::new(depth, |i: int| ancestor(nodes, id, i as nat)->0);
    assert forall|i: int, j: int| 0 <= i < j < path.len() implies path[i] != path[j] by {
        lemma_ancestor_depth(nodes, id, depth, i as nat);
        lemma_ancestor_depth(nodes, id, depth, j as nat);
        if path[i] == path[j] {
            lemma_depth_unique(nodes, path[i], (depth - i) as nat, (depth - j) as nat);
        }
    }
    assert(path.no_duplicates());
    path.unique_seq_to_set();
    assert forall|x: VersionId| path.to_set().contains(x) implies nodes.dom().contains(x) by {
        let i = choose|i: int| 0 <= i < path.len() && path[i] == x;
        lemma_ancestor_depth(nodes, id, depth, i as nat);
        lemma_depth(nodes, id, depth, (i + 1) as nat);
        lemma_ancestor_sum(nodes, id, i as nat, 1);
        assert(ancestor(nodes, x, 1) is Some);
    }
    vstd::set_lib::lemma_len_subset(path.to_set(), nodes.dom());
}

/// The versions that stand on a level above two versions, on their ways up.
pub open spec fn at_level(
    nodes: Map<VersionId, Arc<VersionNode>>,
    id: VersionId,
    depth: nat,
    level: nat,
) -> VersionId {
    ancestor(nodes, id, (depth - level) as nat)->0
}

/// A common ancestor of two versions is reached from the level of the shallower one by the
/// same number of steps on both ways.
proof fn lemma_common_level(
    nodes: Map<VersionId, Arc<VersionNode>>,
    a: VersionId,
    b: VersionId,
    depth_a: nat,
    depth_b: nat,
    level: nat,
    other: VersionId,
) -> (steps: nat)
    requires
        is_depth(nodes, a, depth_a),
        is_depth(nodes, b, depth_b),
        level == (if depth_a <= depth_b {
            depth_a
        } else {
            depth_b
        }),
        is_common(nodes, other, a, b),
    ensures
        steps <= level,
        ancestor(nodes, at_level(nodes, a, depth_a, level), steps) == Some(other),
        ancestor(nodes, at_level(nodes, b, depth_b, level), steps) == Some(other),
{
    let i = choose|i: nat| #[trigger] ancestor(nodes, a, i) == Some(other);
    let j = choose|j: nat| #[trigger] ancestor(nodes, b, j) == Some(other);
    lemma_depth(nodes, a, depth_a, i);
    lemma_depth(nodes, b, depth_b, j);
    lemma_ancestor_depth(nodes, a, depth_a, i);
    lemma_ancestor_depth(nodes, b, depth_b, j);
    lemma_depth_unique(nodes, other, (depth_a - i) as nat, (depth_b - j) as nat);
    let steps = (level - (depth_a - i)) as nat;
    lemma_ancestor_depth(nodes, a, depth_a, (depth_a - level) as nat);
    lemma_ancestor_depth(nodes, b, depth_b, (depth_b - level) as nat);
    lemma_ancestor_sum(nodes, a, (depth_a - level) as nat, steps);
    lemma_ancestor_sum(nodes, b, (depth_b - level) as nat, steps);
    assert((depth_a - level) as nat + steps == i);
    assert((depth_b - level) as nat + steps == j);
    steps
}

/// Where two ways meet first, the nearest common ancestor stands.
proof fn lemma_meeting(
    nodes: Map<VersionId, Arc<VersionNode>>,
    a: VersionId,
    b: VersionId,
    depth_a: nat,
    depth_b: nat,
    level: nat,
    raised: nat,
)
    requires
        is_depth(nodes, a, depth_a),
        is_depth(nodes, b, depth_b),
        level == (if depth_a <= depth_b {
            depth_a
        } else {
            depth_b
        }),
        raised <= level,
        ancestor(nodes, at_level(nodes, a, depth_a, level), raised) == ancestor(
            nodes,
            at_level(nodes, b, depth_b, level),
            raised,
        ),
        raised == 0 || ancestor(nodes, at_level(nodes, a, depth_a, level), (raised - 1) as nat)
            != ancestor(nodes, at_level(nodes, b, depth_b, level), (raised - 1) as nat),
    ensures
        ancestor(nodes, at_level(nodes, a, depth_a, level), raised) is Some,
        is_lca(nodes, ancestor(nodes, at_level(nodes, a, depth_a, level), raised)->0, a, b),
{
    let up_a = (depth_a - level) as nat;
    let up_b = (depth_b - level) as nat;
    let one = at_level(nodes, a, depth_a, level);
    let two = at_level(nodes, b, depth_b, level);
    lemma_ancestor_depth(nodes, a, depth_a, up_a);
    lemma_ancestor_depth(nodes, b, depth_b, up_b);
    lemma_depth(nodes, one, level, raised);
    lemma_ancestor_sum(nodes, a, up_a, raised);
    lemma_ancestor_sum(nodes, b, up_b, raised);
    let nearest = ancestor(nodes, one, raised)->0;
    assert(ancestor(nodes, a, up_a + raised) == Some(nearest));
    assert(ancestor(nodes, b, up_b + raised) == Some(nearest));
    assert forall|other: VersionId| #[trigger] is_common(nodes, other, a, b) implies is_ancestor(
        nodes,
        other,
        nearest,
    ) by {
        let steps = lemma_common_level(nodes, a, b, depth_a, depth_b, level, other);
        if steps < raised {
            let rest = (raised - 1 - steps) as nat;
            lemma_ancestor_sum(nodes, one, steps, rest);
            lemma_ancestor_sum(nodes, two, steps, rest);
            assert(steps + rest == (raised - 1) as nat);
        } else {
            let rest = (steps - raised) as nat;
            lemma_ancestor_sum(nodes, one, raised, rest);
            assert(raised + rest == steps);
            assert(ancestor(nodes, nearest, rest) == Some(other));
        }
    }
}

/// Two ways that are apart on the last level never meet.
proof fn lemma_apart(
    nodes: Map<VersionId, Arc<VersionNode>>,
    a: VersionId,
    b: VersionId,
    depth_a: nat,
    depth_b: nat,
    level: nat,
)
    requires
        is_depth(nodes, a, depth_a),
        is_depth(nodes, b, depth_b),
        level == (if depth_a <= depth_b {
            depth_a
        } else {
            depth_b
        }),
        ancestor(nodes, at_level(nodes, a, depth_a, level), level) != ancestor(
            nodes,
            at_level(nodes, b, depth_b, level),
            level,
        ),
    ensures
        forall|other: VersionId| !#[trigger] is_common(nodes, other, a, b),
{
    assert forall|other: VersionId| !#[trigger] is_common(nodes, other, a, b) by {
        if is_common(nodes, other, a, b) {
            let steps = lemma_common_level(nodes, a, b, depth_a, depth_b, level, other);
            let rest = (level - steps) as nat;
            lemma_ancestor_sum(nodes, at_level(nodes, a, depth_a, level), steps, rest);
            lemma_ancestor_sum(nodes, at_level(nodes, b, depth_b, level), steps, rest);
            assert(steps + rest == level);
        }
    }
}

/// Two versions have at most one nearest common ancestor.
pub proof fn law_nearest_common_ancestor_is_unique(
    nodes: Map<VersionId, Arc<VersionNode>>,
    a: VersionId,
    b: VersionId,
    one: VersionId,
    two: VersionId,
)
    requires
        rooted(nodes, a),
        is_lca(nodes, one, a, b),
        is_lca(nodes, two, a, b),
    ensures
        one == two,
{
    lemma_depth_exists(nodes, a);
    let depth = choose|depth: nat| is_depth(nodes, a, depth);
    let i = choose|i: nat| #[trigger] ancestor(nodes, a, i) == Some(one);
    lemma_depth(nodes, a, depth, i);
    lemma_ancestor_depth(nodes, a, depth, i);
    assert(is_common(nodes, one, a, b));
    assert(is_common(nodes, two, a, b));
    let there = choose|n: nat| #[trigger] ancestor(nodes, one, n) == Some(two);
    let back = choose|n: nat| #[trigger] ancestor(nodes, two, n) == Some(one);
    lemma_depth(nodes, one, (depth - i) as nat, there);
    lemma_ancestor_depth(nodes, one, (depth - i) as nat, there);
    lemma_depth(nodes, two, (depth - i - there) as nat, back);
    lemma_ancestor_depth(nodes, two, (depth - i - there) as nat, back);
    lemma_depth_unique(nodes, one, (depth - i) as nat, (depth - i - there - back) as nat);
}

/// The nearest common ancestor does not depend on the order of the two versions.
pub proof fn law_nearest_common_ancestor_is_symmetric(
    nodes: Map<VersionId, Arc<VersionNode>>,
    a: VersionId,
    b: VersionId,
    nearest: VersionId,
)
    ensures
        is_lca(nodes, nearest, a, b) <==> is_lca(nodes, nearest, b, a),
{
    if is_lca(nodes, nearest, a, b) {
        assert forall|other: VersionId| #[trigger]
            is_common(nodes, other, b, a) implies is_ancestor(nodes, other, nearest) by {
            assert(is_common(nodes, other, a, b));
        }
    }
    if is_lca(nodes, nearest, b, a) {
        assert forall|other: VersionId| #[trigger]
            is_common(nodes, other, a, b) implies is_ancestor(nodes, other, nearest) by {
            assert(is_common(nodes, other, b, a));
        }
    }
}

/// A version that lies above another one is their nearest common ancestor.
pub proof fn law_an_ancestor_is_the_nearest_common_one(
    nodes: Map<VersionId, Arc<VersionNode>>,
    above: VersionId,
    id: VersionId,
)
    requires
        is_ancestor(nodes, above, id),
    ensures
        is_lca(nodes, above, above, id),
{
    assert(ancestor(nodes, above, 0) == Some(above));
}

/// The parent of a version.
fn parent(nodes: &HashMap<VersionId, Arc<VersionNode>>, id: VersionId) -> (parent: Option<VersionId>)
    ensures
        parent == parent_of(nodes@, id),
{
    match nodes.get(&id) {
        Some(node) => node.parent_id,
        None => None,
    }
}

/// The number of steps from a version to its root. A version that is not known has none,
/// and a parent that is not known counts as the root.
pub fn compute_depth(nodes: &HashMap<VersionId, Arc<VersionNode>>, node_id: VersionId) -> (depth:
    usize)
    requires
        rooted(nodes@, node_id),
    ensures
        is_depth(nodes@, node_id, depth as nat),
{
    let mut depth: usize = 0;
    let mut current: VersionId = node_id;
    let count: usize = nodes.len();
    proof {
        lemma_depth_exists(nodes@, node_id);
    }
    let ghost whole = choose|depth: nat| is_depth(nodes@, node_id, depth);
    proof {
        lemma_depth_bound(nodes@, node_id, whole);
    }
    loop
        invariant
            is_depth(nodes@, node_id, whole),
            whole <= count,
            depth <= whole,
            ancestor(nodes@, node_id, depth as nat) == Some(current),
        decreases whole - depth,
    {
        proof {
            lemma_ancestor_sum(nodes@, node_id, depth as nat, 1);
            lemma_depth(nodes@, node_id, whole, (depth + 1) as nat);
            reveal_with_fuel(ancestor, 2);
        }
        match parent(nodes, current) {
            Some(above) => {
                current = above;
                depth += 1;
            },
            None => {
                return depth;
            },
        }
    }
}

/// The jump table of a node: entry `k` is the version that lies `2^k` steps above it. The
/// table ends where the way up ends, and holds 16 entries at most.
pub fn build_ancestor_table(
    node: &VersionNode,
    nodes: &HashMap<VersionId, Arc<VersionNode>>,
) -> (table: AncestorTable)
    ensures
        crate::ancestor_table::table_ids(table).len() <= TABLE_LEN,
        forall|k: int|
            0 <= k < crate::ancestor_table::table_ids(table).len() ==> Some(
                #[trigger] crate::ancestor_table::table_ids(table)[k],
            )
                == node_ancestor(*node, nodes@, pow2(k as nat)),
        crate::ancestor_table::table_ids(table).len() < TABLE_LEN ==> node_ancestor(
            *node,
            nodes@,
            pow2(crate::ancestor_table::table_ids(table).len()),
        ) is None,
{
    let mut table = AncestorTable::new();
    let mut filled: usize = 0;
    let mut current = node.parent_id;
    let mut steps: usize = 1;
    let mut target: usize = 1;
    proof {
        lemma2_to64();
    }
    while filled < TABLE_LEN
        invariant
            filled <= TABLE_LEN,
            crate::ancestor_table::table_ids(table).len() == filled,
            target == pow2(filled as nat),
            pow2(16) == 65536,
            target <= 65536,
            1 <= steps <= target,
            current == node_ancestor(*node, nodes@, steps as nat),
            forall|k: int|
                0 <= k < crate::ancestor_table::table_ids(table).len() ==> Some(
                #[trigger] crate::ancestor_table::table_ids(table)[k],
            )
                    == node_ancestor(*node, nodes@, pow2(k as nat)),
        decreases 65537 - steps, TABLE_LEN - filled,
    {
        let id = match current {
            Some(id) => id,
            None => {
                proof {
                    if node.parent_id is Some {
                        lemma_ancestor_sum(
                            nodes@,
                            node.parent_id->0,
                            (steps - 1) as nat,
                            (target - steps) as nat,
                        );
                        assert((steps - 1) as nat + (target - steps) as nat == (target - 1) as nat);
                    }
                }
                return table;
            },
        };
        if steps == target {
            push_id(&mut table, id);
            proof {
                lemma_pow2_unfold((filled + 1) as nat);
                if filled + 1 < 16 {
                    lemma_pow2_strictly_increases((filled + 1) as nat, 16);
                }
            }
            filled += 1;
            target = target * 2;
        } else {
            proof {
                lemma_ancestor_sum(nodes@, node.parent_id->0, (steps - 1) as nat, 1);
                reveal_with_fuel(ancestor, 2);
                assert((steps - 1) as nat + 1 == steps);
            }
            current = parent(nodes, id);
            steps += 1;
        }
    }
    table
}

/// The version that lies `2^k` steps above a version.
fn jump(
    nodes: &HashMap<VersionId, Arc<VersionNode>>,
    node_id: VersionId,
    k: usize,
) -> (above: Option<VersionId>)
    requires
        k < TABLE_LEN,
    ensures
        above == ancestor(nodes@, node_id, pow2(k as nat)),
{
    proof {
        lemma_pow2_pos(k as nat);
    }
    match nodes.get(&node_id) {
        Some(node) => {
            let table = build_ancestor_table(node, nodes);
            let above = table.get(k);
            proof {
                let filled = crate::ancestor_table::table_ids(table).len();
                if filled <= k && nodes@[node_id].parent_id is Some {
                    lemma_pow2_pos(filled);
                    if filled < k {
                        lemma_pow2_strictly_increases(filled, k as nat);
                    }
                    lemma_ancestor_sum(
                        nodes@,
                        nodes@[node_id].parent_id->0,
                        (pow2(filled) - 1) as nat,
                        (pow2(k as nat) - pow2(filled)) as nat,
                    );
                    assert((pow2(filled) - 1) as nat + (pow2(k as nat) - pow2(filled)) as nat == (
                    pow2(k as nat) - 1) as nat);
                }
            }
            above
        },
        None => None,
    }
}

/// Climbs a number of steps, which the way up has.
fn climb(
    nodes: &HashMap<VersionId, Arc<VersionNode>>,
    node_id: VersionId,
    steps: usize,
) -> (above: VersionId)
    requires
        ancestor(nodes@, node_id, steps as nat) is Some,
    ensures
        ancestor(nodes@, node_id, steps as nat) == Some(above),
{
    let mut above: VersionId = node_id;
    let mut left: usize = steps;
    let mut k: usize = TABLE_LEN - 1;
    let mut stride: usize = 32768;
    proof {
        lemma2_to64();
    }
    while left > 0
        invariant
            ancestor(nodes@, node_id, steps as nat) is Some,
            left <= steps,
            k < TABLE_LEN,
            stride == pow2(k as nat),
            stride >= 1,
            ancestor(nodes@, node_id, (steps - left) as nat) == Some(above),
        decreases left, k,
    {
        if left >= stride {
            proof {
                lemma_ancestor_sum(nodes@, node_id, (steps - left) as nat, stride as nat);
                let reached = (steps - left + stride) as nat;
                lemma_ancestor_sum(nodes@, node_id, reached, (steps - reached) as nat);
                assert((steps - left) as nat + stride as nat == reached);
                assert(reached + (steps - reached) as nat == steps);
            }
            match jump(nodes, above, k) {
                Some(id) => {
                    above = id;
                },
                None => {},
            }
            left -= stride;
        } else {
            proof {
                if k == 0 {
                    lemma2_to64();
                }
                lemma_pow2_unfold(k as nat);
                lemma_pow2_pos((k - 1) as nat);
            }
            k -= 1;
            stride = stride / 2;
        }
    }
    above
}

/// The nearest common ancestor of two versions, if they have a common ancestor.
///
/// The deeper version is first raised to the depth of the other one. Both then climb
/// together, by the longest jumps that keep them apart, and end one step below the version
/// where they meet.
pub fn compute_lca(
    nodes: &HashMap<VersionId, Arc<VersionNode>>,
    a: VersionId,
    b: VersionId,
) -> (nearest: Option<VersionId>)
    requires
        a == b || (rooted(nodes@, a) && rooted(nodes@, b)),
    ensures
        match nearest {
            Some(nearest) => is_lca(nodes@, nearest, a, b),
            None => forall|other: VersionId| !#[trigger] is_common(nodes@, other, a, b),
        },
{
    if a == b {
        assert(ancestor(nodes@, a, 0) == Some(a));
        return Some(a);
    }
    let depth_a = compute_depth(nodes, a);
    let depth_b = compute_depth(nodes, b);
    let level: usize = if depth_a <= depth_b {
        depth_a
    } else {
        depth_b
    };
    proof {
        lemma_depth(nodes@, a, depth_a as nat, (depth_a - level) as nat);
        lemma_depth(nodes@, b, depth_b as nat, (depth_b - level) as nat);
    }
    let start_a = climb(nodes, a, depth_a - level);
    let start_b = climb(nodes, b, depth_b - level);
    proof {
        lemma_ancestor_depth(nodes@, a, depth_a as nat, (depth_a - level) as nat);
        lemma_ancestor_depth(nodes@, b, depth_b as nat, (depth_b - level) as nat);
        assert((depth_a - (depth_a - level) as nat) as nat == level as nat);
        assert((depth_b - (depth_b - level) as nat) as nat == level as nat);
    }
    if start_a == start_b {
        proof {
            lemma_meeting(nodes@, a, b, depth_a as nat, depth_b as nat, level as nat, 0);
        }
        return Some(start_a);
    }
    let mut one: VersionId = start_a;
    let mut two: VersionId = start_b;
    let ghost mut raised: nat = 0;
    let mut k: usize = TABLE_LEN;
    while k > 0
        invariant
            k <= TABLE_LEN,
            is_depth(nodes@, start_a, level as nat),
            is_depth(nodes@, start_b, level as nat),
            raised <= level,
            ancestor(nodes@, start_a, raised) == Some(one),
            ancestor(nodes@, start_b, raised) == Some(two),
            one != two,
            k == 0 ==> (ancestor(nodes@, one, 1) is None || ancestor(nodes@, two, 1) is None
                || ancestor(nodes@, one, 1) == ancestor(nodes@, two, 1)),
        decreases k, level - raised,
    {
        let above_one = jump(nodes, one, k - 1);
        let above_two = jump(nodes, two, k - 1);
        proof {
            lemma2_to64();
            let stride = pow2((k - 1) as nat);
            lemma_pow2_pos((k - 1) as nat);
            lemma_ancestor_sum(nodes@, start_a, raised, stride);
            lemma_ancestor_sum(nodes@, start_b, raised, stride);
            lemma_depth(nodes@, start_a, level as nat, raised + stride);
        }
        match (above_one, above_two) {
            (Some(id_one), Some(id_two)) => {
                if id_one != id_two {
                    one = id_one;
                    two = id_two;
                    proof {
                        raised = raised + pow2((k - 1) as nat);
                    }
                } else {
                    k -= 1;
                }
            },
            _ => {
                k -= 1;
            },
        }
    }
    proof {
        lemma_ancestor_sum(nodes@, start_a, raised, 1);
        lemma_ancestor_sum(nodes@, start_b, raised, 1);
        lemma_depth(nodes@, start_a, level as nat, raised + 1);
        lemma_depth(nodes@, start_b, level as nat, raised + 1);
        lemma2_to64();
    }
    let nearest = jump(nodes, one, 0);
    proof {
        match nearest {
            Some(id) => {
                lemma_meeting(
                    nodes@,
                    a,
                    b,
                    depth_a as nat,
                    depth_b as nat,
                    level as nat,
                    raised + 1,
                );
            },
            None => {
                lemma_apart(nodes@, a, b, depth_a as nat, depth_b as nat, level as nat);
            },
        }
    }
    nearest
}

/// The steps up from a version lead along the parents of the nodes: none is the version itself, and
/// one more is the parent of where the others led.
pub proof fn law_steps_follow_the_parents(
    nodes: Map<VersionId, Arc<VersionNode>>,
    id: VersionId,
    above: VersionId,
    steps: nat,
)
    requires
        ancestor(nodes, id, steps) == Some(above),
    ensures
        steps == 0 ==> above == id,
        ancestor(nodes, id, steps + 1) == (if nodes.contains_key(above) {
            nodes[above].parent_id
        } else {
            None
        }),
    decreases steps,
{
    if steps > 0 {
        law_steps_follow_the_parents(nodes, parent_of(nodes, id)->0, above, (steps - 1) as nat);
    } else {
        assert(ancestor(nodes, id, 1) == parent_of(nodes, id)) by {
            reveal_with_fuel(ancestor, 2);
        }
    }
}

/// Two versions that were made from the same version have it as their nearest common ancestor.
pub proof fn law_siblings_meet_at_their_parent(
    nodes: Map<VersionId, Arc<VersionNode>>,
    a: VersionId,
    b: VersionId,
    parent: VersionId,
)
    requires
        a != b,
        nodes.contains_key(a),
        nodes.contains_key(b),
        nodes[a].parent_id == Some(parent),
        nodes[b].parent_id == Some(parent),
    ensures
        is_lca(nodes, parent, a, b),
{
    reveal_with_fuel(ancestor, 2);
    assert(ancestor(nodes, a, 1) == Some(parent));
    assert(ancestor(nodes, b, 1) == Some(parent));
    assert forall|other: VersionId| #[trigger] is_common(nodes, other, a, b) implies is_ancestor(
        nodes,
        other,
        parent,
    ) by {
        let up = choose|steps: nat| #[trigger] ancestor(nodes, a, steps) == Some(other);
        let down = choose|steps: nat| #[trigger] ancestor(nodes, b, steps) == Some(other);
        if up > 0 {
            assert(ancestor(nodes, parent, (up - 1) as nat) == Some(other));
        } else {
            assert(down > 0);
            assert(ancestor(nodes, parent, (down - 1) as nat) == Some(other));
        }
    }
}

/// The jump table of a node starts with its parent.
pub proof fn law_first_jump_is_the_parent(
    node: VersionNode,
    nodes: Map<VersionId, Arc<VersionNode>>,
)
    ensures
        node_ancestor(node, nodes, pow2(0)) == node.parent_id,
{
    lemma2_to64();
}

} // verus!
