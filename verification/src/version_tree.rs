//! Versions of files and the tree that they form.
//!
//! Every snapshot of a file is a node. A node knows its parent and holds either a full
//! snapshot or a delta against the parent. The newest node of a path is the head of that
//! path; a head that the next node does not build on becomes an orphan.
use vstd::prelude::*;

use crate::ancestor_table::AncestorTable;
use crate::hashing::same_hash;
use crate::id_set::IdSet;

verus! {

broadcast use vstd::array::group_array_axioms;

/// Identifies a version.
pub type VersionId = u64;

/// The position of a change in the order of all changes.
pub type SeqNo = u64;

/// The hash of a file's path.
pub type PathHash = [u8; 32];

/// The hash of a blob's content.
pub type ContentHash = [u8; 32];

/// Why a snapshot was taken.
#[derive(Debug, Clone, Copy, PartialEq, Eq, Structural)]
pub enum SnapshotTrigger {
    /// The file was written.
    Write,
    /// The file was closed.
    Close,
    /// A burst of writes settled.
    Debounce,
    /// A change was declined and the file restored.
    Decline,
    /// The file was deleted.
    Delete,
}

/// Where a delta is stored.
#[derive(Debug, Clone, Copy)]
pub struct DeltaRef {
    /// The hash of the delta.
    pub hash: ContentHash,
    /// The size of the compressed delta in bytes.
    pub compressed_size: u64,
}

/// One version of one file.
#[derive(Debug)]
pub struct VersionNode {
    /// Which version this is.
    pub version_id: VersionId,
    /// The hash of the file's path.
    pub path_hash: PathHash,
    /// The position of the change.
    pub seq_no: SeqNo,
    /// When the snapshot was taken, in nanoseconds.
    pub timestamp_ns: u128,
    /// The version that this one builds on.
    pub parent_id: Option<VersionId>,
    /// The jump table towards the root.
    pub ancestors: AncestorTable,
    /// The hash of the full snapshot, where the node holds one.
    pub full_content: Option<ContentHash>,
    /// The delta, where the node holds one.
    pub delta: Option<DeltaRef>,
    /// How many deltas lie between the node and a full snapshot.
    pub delta_depth: u8,
    /// Why the snapshot was taken.
    pub trigger: SnapshotTrigger,
}

/// The node of a version in a row of nodes.
pub open spec fn node_of(nodes: Seq<VersionNode>, id: VersionId) -> Option<VersionNode>
    decreases nodes.len(),
{
    if nodes.len() == 0 {
        None
    } else if nodes.last().version_id == id {
        Some(nodes.last())
    } else {
        node_of(nodes.drop_last(), id)
    }
}

/// The versions of a row of nodes differ.
pub open spec fn ids_differ(nodes: Seq<VersionNode>) -> bool {
    forall|i: int, j: int|
        0 <= i < j < nodes.len() ==> (#[trigger] nodes[i]).version_id != (
        #[trigger] nodes[j]).version_id
}

/// The head of a path in a row of heads.
pub open spec fn head_of(heads: Seq<(PathHash, VersionId)>, path: Seq<u8>) -> Option<VersionId>
    decreases heads.len(),
{
    if heads.len() == 0 {
        None
    } else if heads.last().0@ == path {
        Some(heads.last().1)
    } else {
        head_of(heads.drop_last(), path)
    }
}

/// A version is the head of a path.
pub open spec fn is_head(heads: Seq<(PathHash, VersionId)>, id: VersionId) -> bool {
    exists|i: int| 0 <= i < heads.len() && (#[trigger] heads[i]).1 == id
}

/// The paths of a row of heads differ.
pub open spec fn head_paths_differ(heads: Seq<(PathHash, VersionId)>) -> bool {
    forall|i: int, j: int|
        0 <= i < j < heads.len() ==> (#[trigger] heads[i]).0@ != (#[trigger] heads[j]).0@
}

/// What [`node_of`] finds.
pub proof fn lemma_node_of(nodes: Seq<VersionNode>, i: int)
    requires
        ids_differ(nodes),
        0 <= i < nodes.len(),
    ensures
        node_of(nodes, nodes[i].version_id) == Some(nodes[i]),
    decreases nodes.len(),
{
    if i < nodes.len() - 1 {
        assert(nodes[i].version_id != nodes[nodes.len() - 1].version_id);
        assert(nodes.drop_last()[i] == nodes[i]);
        assert forall|a: int, b: int| 0 <= a < b < nodes.drop_last().len() implies (
        #[trigger] nodes.drop_last()[a]).version_id != (#[trigger] nodes.drop_last()[b]).version_id by {
            assert(nodes[a].version_id != nodes[b].version_id);
        }
        lemma_node_of(nodes.drop_last(), i);
    }
}

/// What [`node_of`] finds is in the row.
pub proof fn lemma_node_of_found(nodes: Seq<VersionNode>, id: VersionId)
    ensures
        match node_of(nodes, id) {
            Some(node) => node.version_id == id && exists|i: int|
                0 <= i < nodes.len() && #[trigger] nodes[i] == node,
            None => forall|i: int| 0 <= i < nodes.len() ==> (#[trigger] nodes[i]).version_id != id,
        },
    decreases nodes.len(),
{
    if nodes.len() > 0 {
        lemma_node_of_found(nodes.drop_last(), id);
        if nodes.last().version_id == id {
            assert(nodes[nodes.len() - 1] == nodes.last());
        } else {
            match node_of(nodes.drop_last(), id) {
                Some(node) => {
                    let i = choose|i: int|
                        0 <= i < nodes.drop_last().len() && #[trigger] nodes.drop_last()[i] == node;
                    assert(nodes[i] == node);
                },
                None => {
                    assert forall|i: int| 0 <= i < nodes.len() implies (
                    #[trigger] nodes[i]).version_id != id by {
                        if i < nodes.len() - 1 {
                            assert(nodes.drop_last()[i] == nodes[i]);
                        }
                    }
                },
            }
        }
    }
}

proof fn lemma_head_of(heads: Seq<(PathHash, VersionId)>, i: int)
    requires
        head_paths_differ(heads),
        0 <= i < heads.len(),
    ensures
        head_of(heads, heads[i].0@) == Some(heads[i].1),
    decreases heads.len(),
{
    if i < heads.len() - 1 {
        assert(heads[i].0@ != heads[heads.len() - 1].0@);
        assert(heads.drop_last()[i] == heads[i]);
        assert forall|a: int, b: int| 0 <= a < b < heads.drop_last().len() implies (
        #[trigger] heads.drop_last()[a]).0@ != (#[trigger] heads.drop_last()[b]).0@ by {
            assert(heads[a].0@ != heads[b].0@);
        }
        lemma_head_of(heads.drop_last(), i);
    }
}

proof fn lemma_no_head(heads: Seq<(PathHash, VersionId)>, path: Seq<u8>)
    requires
        forall|i: int| 0 <= i < heads.len() ==> (#[trigger] heads[i]).0@ != path,
    ensures
        head_of(heads, path) is None,
    decreases heads.len(),
{
    if heads.len() > 0 {
        assert(heads[heads.len() - 1].0@ != path);
        assert forall|i: int| 0 <= i < heads.drop_last().len() implies (
        #[trigger] heads.drop_last()[i]).0@ != path by {
            assert(heads[i].0@ != path);
        }
        lemma_no_head(heads.drop_last(), path);
    }
}

/// All versions of all files.
#[derive(Debug)]
pub struct VersionTree {
    /// The nodes in the order in which they came.
    pub nodes: Vec<VersionNode>,
    /// The newest version of each path.
    pub heads: Vec<(PathHash, VersionId)>,
    /// The former heads that nothing builds on.
    pub orphans: IdSet,
    /// The versions that may be collected.
    pub gc_eligible: IdSet,
}

impl VersionTree {
    /// No version occurs twice, and no path has two heads.
    pub open spec fn wf(&self) -> bool {
        &&& ids_differ(self.nodes@)
        &&& head_paths_differ(self.heads@)
    }

    /// A tree without versions.
    pub fn new() -> (tree: VersionTree)
        ensures
            tree.wf(),
            tree.nodes@ == Seq::<VersionNode>::empty(),
            tree.heads@ == Seq::<(PathHash, VersionId)>::empty(),
            tree.orphans@ == Set::<u64>::empty(),
            tree.gc_eligible@ == Set::<u64>::empty(),
    {
        VersionTree {
            nodes: Vec::new(),
            heads: Vec::new(),
            orphans: IdSet::new(),
            gc_eligible: IdSet::new(),
        }
    }

    /// The node of a version.
    pub fn get_node(&self, id: VersionId) -> (node: Option<&VersionNode>)
        requires
            self.wf(),
        ensures
            match node {
                Some(node) => node_of(self.nodes@, id) == Some(*node),
                None => node_of(self.nodes@, id) is None,
            },
    {
        let mut i: usize = 0;
        while i < self.nodes.len()
            invariant
                self.wf(),
                i <= self.nodes@.len(),
                forall|j: int| 0 <= j < i ==> (#[trigger] self.nodes@[j]).version_id != id,
            decreases self.nodes@.len() - i,
        {
            if self.nodes[i].version_id == id {
                proof {
                    lemma_node_of(self.nodes@, i as int);
                }
                return Some(&self.nodes[i]);
            }
            i += 1;
        }
        proof {
            lemma_node_of_found(self.nodes@, id);
        }
        None
    }

    /// Adds a version, in place of the node that it had, and makes it the head of its path.
    /// The head before it becomes an orphan, unless the new version builds on it.
    pub fn add_node(&mut self, node: VersionNode)
        requires
            old(self).wf(),
        ensures
            final(self).wf(),
            node_of(final(self).nodes@, node.version_id) == Some(node),
            forall|id: VersionId|
                id != node.version_id ==> #[trigger] node_of(final(self).nodes@, id) == node_of(
                    old(self).nodes@,
                    id,
                ),
            head_of(final(self).heads@, node.path_hash@) == Some(node.version_id),
            forall|path: Seq<u8>|
                path != node.path_hash@ ==> #[trigger] head_of(final(self).heads@, path) == head_of(
                    old(self).heads@,
                    path,
                ),
            final(self).orphans@ == (match head_of(old(self).heads@, node.path_hash@) {
                Some(head) => if head != node.version_id && node.parent_id != Some(head) {
                    old(self).orphans@.insert(head)
                } else {
                    old(self).orphans@
                },
                None => old(self).orphans@,
            }),
            final(self).gc_eligible@ == old(self).gc_eligible@,
    {
        let ghost nodes = self.nodes@;
        let ghost heads = self.heads@;
        let id = node.version_id;
        let parent_id = node.parent_id;
        let path_hash = node.path_hash;
        self.set_head(path_hash, id, parent_id);
        let mut i: usize = 0;
        while i < self.nodes.len() && self.nodes[i].version_id != id
            invariant
                i <= self.nodes@.len(),
                self.nodes@ == nodes,
                forall|j: int| 0 <= j < i ==> (#[trigger] nodes[j]).version_id != id,
            decreases nodes.len() - i,
        {
            i += 1;
        }
        if i < self.nodes.len() {
            self.nodes.set(i, node);
        } else {
            self.nodes.push(node);
        }
        proof {
            let after = self.nodes@;
            assert(after[i as int] == node);
            assert forall|a: int, b: int| 0 <= a < b < after.len() implies (
            #[trigger] after[a]).version_id != (#[trigger] after[b]).version_id by {
                if a != i && b != i {
                    assert(nodes[a].version_id != nodes[b].version_id);
                } else if i < nodes.len() {
                    assert(nodes[a].version_id != nodes[b].version_id);
                } else {
                    assert(nodes[a].version_id != id);
                }
            }
            lemma_node_of(after, i as int);
            assert forall|other: VersionId| other != id implies #[trigger] node_of(after, other)
                == node_of(nodes, other) by {
                lemma_node_of_found(nodes, other);
                lemma_node_of_found(after, other);
                match node_of(nodes, other) {
                    Some(found) => {
                        let j = choose|j: int| 0 <= j < nodes.len() && #[trigger] nodes[j] == found;
                        assert(after[j] == found);
                        lemma_node_of(after, j);
                    },
                    None => {
                        match node_of(after, other) {
                            Some(found) => {
                                let j = choose|j: int|
                                    0 <= j < after.len() && #[trigger] after[j] == found;
                                assert(nodes[j].version_id == other);
                            },
                            None => {},
                        }
                    },
                }
            }
        }
    }

    /// Makes a version the head of a path.
    fn set_head(&mut self, path_hash: PathHash, id: VersionId, parent_id: Option<VersionId>)
        requires
            old(self).wf(),
        ensures
            final(self).wf(),
            final(self).nodes@ == old(self).nodes@,
            head_of(final(self).heads@, path_hash@) == Some(id),
            forall|path: Seq<u8>|
                path != path_hash@ ==> #[trigger] head_of(final(self).heads@, path) == head_of(
                    old(self).heads@,
                    path,
                ),
            final(self).orphans@ == (match head_of(old(self).heads@, path_hash@) {
                Some(head) => if head != id && parent_id != Some(head) {
                    old(self).orphans@.insert(head)
                } else {
                    old(self).orphans@
                },
                None => old(self).orphans@,
            }),
            final(self).gc_eligible@ == old(self).gc_eligible@,
    {
        let ghost heads = self.heads@;
        let mut i: usize = 0;
        while i < self.heads.len() && !same_hash(&self.heads[i].0, &path_hash)
            invariant
                i <= self.heads@.len(),
                self.heads@ == heads,
                forall|j: int| 0 <= j < i ==> (#[trigger] heads[j]).0@ != path_hash@,
            decreases heads.len() - i,
        {
            i += 1;
        }
        if i < self.heads.len() {
            let head = self.heads[i].1;
            proof {
                lemma_head_of(heads, i as int);
            }
            let builds_on_it = match parent_id {
                Some(parent) => parent == head,
                None => false,
            };
            if head != id && !builds_on_it {
                self.orphans.insert(head);
            }
            self.heads.set(i, (path_hash, id));
        } else {
            proof {
                lemma_no_head(heads, path_hash@);
            }
            self.heads.push((path_hash, id));
        }
        proof {
            let after = self.heads@;
            assert(after[i as int] == (path_hash, id));
            assert forall|a: int, b: int| 0 <= a < b < after.len() implies (#[trigger] after[a]).0@
                != (#[trigger] after[b]).0@ by {
                if a != i && b != i {
                    assert(heads[a].0@ != heads[b].0@);
                } else if i < heads.len() {
                    assert(heads[a].0@ != heads[b].0@);
                } else {
                    assert(heads[a].0@ != path_hash@);
                }
            }
            lemma_head_of(after, i as int);
            assert forall|path: Seq<u8>| path != path_hash@ implies #[trigger] head_of(after, path)
                == head_of(heads, path) by {
                if exists|j: int| 0 <= j < heads.len() && (#[trigger] heads[j]).0@ == path {
                    let j = choose|j: int| 0 <= j < heads.len() && (#[trigger] heads[j]).0@ == path;
                    lemma_head_of(heads, j);
                    assert(after[j] == heads[j]);
                    lemma_head_of(after, j);
                } else {
                    lemma_no_head(heads, path);
                    assert forall|j: int| 0 <= j < after.len() implies (#[trigger] after[j]).0@
                        != path by {
                        if j != i {
                            assert(after[j] == heads[j]);
                        }
                    }
                    lemma_no_head(after, path);
                }
            }
        }
    }

    /// Marks versions as collectable.
    pub fn mark_gc_eligible(&mut self, ids: &Vec<VersionId>)
        requires
            old(self).wf(),
        ensures
            final(self).wf(),
            final(self).nodes@ == old(self).nodes@,
            final(self).heads@ == old(self).heads@,
            final(self).orphans@ == old(self).orphans@,
            final(self).gc_eligible@ == old(self).gc_eligible@.union(ids@.to_set()),
    {
        self.gc_eligible.insert_all(ids);
    }
}

/// A version has the node that was added under it, and a version that no node was added under has
/// none.
pub proof fn law_nodes_are_found_by_their_version(
    nodes: Seq<VersionNode>,
    id: VersionId,
    at: int,
)
    requires
        ids_differ(nodes),
        0 <= at < nodes.len(),
    ensures
        node_of(nodes, nodes[at].version_id) == Some(nodes[at]),
        (forall|i: int| 0 <= i < nodes.len() ==> (#[trigger] nodes[i]).version_id != id) ==> node_of(
            nodes,
            id,
        ) is None,
{
    lemma_node_of(nodes, at);
    lemma_node_of_found(nodes, id);
}

/// A path has the head that was set for it, and a path that none was set for has none.
pub proof fn law_heads_are_found_by_their_path(
    heads: Seq<(PathHash, VersionId)>,
    path: Seq<u8>,
    at: int,
)
    requires
        head_paths_differ(heads),
        0 <= at < heads.len(),
    ensures
        head_of(heads, heads[at].0@) == Some(heads[at].1),
        is_head(heads, heads[at].1),
        (forall|i: int| 0 <= i < heads.len() ==> (#[trigger] heads[i]).0@ != path) ==> head_of(
            heads,
            path,
        ) is None,
{
    lemma_head_of(heads, at);
    if forall|i: int| 0 <= i < heads.len() ==> (#[trigger] heads[i]).0@ != path {
        lemma_no_head(heads, path);
    }
}

} // verus!
