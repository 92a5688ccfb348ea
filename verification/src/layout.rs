//! The split tree of a session: panes at the leaves, splits with one ratio per child.
//!
//! Ratios are 32-bit floating point numbers, held here by their bit patterns. Arithmetic on
//! them is done by the caller, for the split that an operation names.
use crate::text::{push_decimal, same_text};
use crate::text_map::TextMap;
use vstd::prelude::*;
use vstd::string::*;
use vstd::utf8::*;

verus! {

/// How a split arranges its children.
#[derive(Clone, Copy, Debug, PartialEq, Eq, Structural)]
pub enum SplitDirection {
    /// Side by side.
    LeftRight,
    /// One above the other.
    TopBottom,
}

/// A node of the tree.
#[derive(Debug)]
pub enum LayoutNode {
    /// A single pane.
    Pane { id: String, pane_id: String },
    /// Children along a direction, with the bit pattern of one ratio each.
    Split { id: String, direction: SplitDirection, children: Vec<LayoutNode>, ratios: Vec<u32> },
}

/// What a [`LayoutNode`] holds.
pub enum LayoutView {
    Pane { id: Seq<char>, pane_id: Seq<char> },
    Split {
        id: Seq<char>,
        direction: SplitDirection,
        children: Seq<LayoutView>,
        ratios: Seq<u32>,
    },
}

/// The tree of one session.
#[derive(Debug)]
pub struct LayoutTree {
    pub root: LayoutNode,
    pub node_ids: TextMap<usize>,
}

/// Why a layout operation failed.
#[derive(Debug)]
pub enum LayoutError {
    /// No leaf shows this pane.
    PaneNotFound(String),
}

/// The bit pattern of one half.
pub const HALF: u32 = 0x3f00_0000;

/// What a node holds.
pub open spec fn node_view(node: LayoutNode) -> LayoutView
    decreases node,
{
    match node {
        LayoutNode::Pane { id, pane_id } => LayoutView::Pane { id: id@, pane_id: pane_id@ },
        LayoutNode::Split { id, direction, children, ratios } => LayoutView::Split {
            id: id@,
            direction,
            children: node_views(children@),
            ratios: ratios@,
        },
    }
}

/// What nodes hold, in order.
pub open spec fn node_views(nodes: Seq<LayoutNode>) -> Seq<LayoutView>
    decreases nodes,
{
    if nodes.len() == 0 {
        Seq::empty()
    } else {
        node_views(nodes.drop_last()).push(node_view(nodes.last()))
    }
}

proof fn lemma_node_views(nodes: Seq<LayoutNode>)
    ensures
        node_views(nodes).len() == nodes.len(),
        forall|i: int|
            0 <= i < nodes.len() ==> #[trigger] node_views(nodes)[i] == node_view(nodes[i]),
    decreases nodes.len(),
{
    if nodes.len() > 0 {
        lemma_node_views(nodes.drop_last());
    }
}

impl LayoutView {
    /// Every split has one ratio per child.
    pub open spec fn wf(self) -> bool
        decreases self,
    {
        match self {
            LayoutView::Pane { .. } => true,
            LayoutView::Split { children, ratios, .. } => children.len() == ratios.len()
                && all_wf(children),
        }
    }

    /// The panes at the leaves, from first to last.
    pub open spec fn panes(self) -> Seq<Seq<char>>
        decreases self,
    {
        match self {
            LayoutView::Pane { pane_id, .. } => seq![pane_id],
            LayoutView::Split { children, .. } => panes_of(children),
        }
    }

    /// Whether a leaf shows a pane.
    pub open spec fn shows(self, pane_id: Seq<char>) -> bool {
        self.panes().contains(pane_id)
    }

    /// The node id of the first leaf that shows a pane.
    pub open spec fn node_of(self, pane_id: Seq<char>) -> Option<Seq<char>>
        decreases self,
    {
        match self {
            LayoutView::Pane { id, pane_id: shown } => if shown == pane_id {
                Some(id)
            } else {
                None
            },
            LayoutView::Split { children, .. } => node_of_first(children, pane_id),
        }
    }

    /// Whether a leaf has a node id.
    pub open spec fn has_leaf(self, node_id: Seq<char>) -> bool
        decreases self,
    {
        match self {
            LayoutView::Pane { id, .. } => id == node_id,
            LayoutView::Split { children, .. } => first_with_leaf(children, node_id)
                < children.len(),
        }
    }

    /// The tree with its first leaf of a node id replaced by a split: the pane that was there,
    /// then the new one, each with half the room.
    pub open spec fn split_leaf(
        self,
        node_id: Seq<char>,
        new_pane_id: Seq<char>,
        along: SplitDirection,
    ) -> LayoutView
        decreases self,
    {
        match self {
            LayoutView::Pane { id, pane_id } => LayoutView::Split {
                id,
                direction: along,
                children: seq![
                    LayoutView::Pane { id: id + "-left"@, pane_id },
                    LayoutView::Pane { id: id + "-right"@, pane_id: new_pane_id },
                ],
                ratios: seq![HALF, HALF],
            },
            LayoutView::Split { id, direction, children, ratios } => LayoutView::Split {
                id,
                direction,
                children: split_first(children, node_id, new_pane_id, along),
                ratios,
            },
        }
    }

    /// The tree after a pane was removed from the first leaf that shows it. A split loses the
    /// child that is this leaf, and a split left with a single child becomes that child. A lone
    /// pane stays.
    pub open spec fn without(self, pane_id: Seq<char>) -> LayoutView
        decreases self,
    {
        match self {
            LayoutView::Pane { .. } => self,
            LayoutView::Split { id, direction, children, ratios } => {
                let at = first_showing(children, pane_id);
                if !(0 <= at < children.len()) {
                    self
                } else if children[at] is Split {
                    LayoutView::Split {
                        id,
                        direction,
                        children: children.update(at, children[at].without(pane_id)),
                        ratios,
                    }
                } else if children.len() == 2 {
                    children.remove(at)[0]
                } else {
                    LayoutView::Split {
                        id,
                        direction,
                        children: children.remove(at),
                        ratios: ratios.remove(at),
                    }
                }
            },
        }
    }

    /// The way, by child indices from the root, to the split that loses a child and stays a
    /// split when a pane is removed; nothing where no split does.
    pub open spec fn shrunk_at(self, pane_id: Seq<char>) -> Option<Seq<usize>>
        decreases self,
    {
        match self {
            LayoutView::Pane { .. } => None,
            LayoutView::Split { children, .. } => {
                let at = first_showing(children, pane_id);
                if !(0 <= at < children.len()) {
                    None
                } else if children[at] is Split {
                    match children[at].shrunk_at(pane_id) {
                        Some(path) => Some(seq![at as usize] + path),
                        None => None,
                    }
                } else if children.len() == 2 {
                    None
                } else {
                    Some(Seq::empty())
                }
            },
        }
    }

    /// The node ids of the leaves, from first to last.
    pub open spec fn leaf_ids(self) -> Seq<Seq<char>>
        decreases self,
    {
        match self {
            LayoutView::Pane { id, .. } => seq![id],
            LayoutView::Split { children, .. } => leaf_ids_of(children),
        }
    }

    /// The lines of the tree, each ended by a line feed: a split first, then its children.
    /// The texts of the ratio lists are taken in that order.
    pub open spec fn lines(self, texts: Seq<Seq<char>>) -> Seq<char>
        decreases self,
    {
        match self {
            LayoutView::Pane { id, pane_id } => "P:"@ + id + ":"@ + pane_id + "\n"@,
            LayoutView::Split { id, direction, children, .. } => "S:"@ + id + (match direction {
                SplitDirection::LeftRight => ":H:"@,
                SplitDirection::TopBottom => ":V:"@,
            }) + texts[0] + "\n"@ + lines_of(children, texts.skip(1)),
        }
    }

    /// How many splits the tree has.
    pub open spec fn splits(self) -> nat
        decreases self,
    {
        match self {
            LayoutView::Pane { .. } => 0,
            LayoutView::Split { children, .. } => 1 + splits_of(children),
        }
    }

    /// The ratio lists of the splits, a split before its children.
    pub open spec fn ratio_lists(self) -> Seq<Seq<u32>>
        decreases self,
    {
        match self {
            LayoutView::Pane { .. } => Seq::empty(),
            LayoutView::Split { children, ratios, .. } => seq![ratios] + ratio_lists_of(children),
        }
    }
}

/// Whether all nodes have one ratio per child.
pub open spec fn all_wf(nodes: Seq<LayoutView>) -> bool
    decreases nodes,
{
    nodes.len() == 0 || (all_wf(nodes.drop_last()) && nodes.last().wf())
}

/// The panes of nodes, from first to last.
pub open spec fn panes_of(nodes: Seq<LayoutView>) -> Seq<Seq<char>>
    decreases nodes,
{
    if nodes.len() == 0 {
        Seq::empty()
    } else {
        panes_of(nodes.drop_last()) + nodes.last().panes()
    }
}

/// The node ids of the leaves of nodes, from first to last.
pub open spec fn leaf_ids_of(nodes: Seq<LayoutView>) -> Seq<Seq<char>>
    decreases nodes,
{
    if nodes.len() == 0 {
        Seq::empty()
    } else {
        leaf_ids_of(nodes.drop_last()) + nodes.last().leaf_ids()
    }
}

/// The node id of the first leaf among nodes that shows a pane.
pub open spec fn node_of_first(nodes: Seq<LayoutView>, pane_id: Seq<char>) -> Option<Seq<char>>
    decreases nodes,
{
    if nodes.len() == 0 {
        None
    } else {
        match node_of_first(nodes.drop_last(), pane_id) {
            Some(id) => Some(id),
            None => nodes.last().node_of(pane_id),
        }
    }
}

/// The first node that has a leaf of a node id, or the end.
pub open spec fn first_with_leaf(nodes: Seq<LayoutView>, node_id: Seq<char>) -> int
    decreases nodes,
{
    if nodes.len() == 0 {
        0
    } else {
        let before = first_with_leaf(nodes.drop_last(), node_id);
        if before < nodes.len() - 1 || nodes.last().has_leaf(node_id) {
            before
        } else {
            nodes.len() as int
        }
    }
}

/// Nodes with the first leaf of a node id split.
pub open spec fn split_first(
    nodes: Seq<LayoutView>,
    node_id: Seq<char>,
    new_pane_id: Seq<char>,
    along: SplitDirection,
) -> Seq<LayoutView>
    decreases nodes,
{
    if nodes.len() == 0 {
        nodes
    } else if first_with_leaf(nodes.drop_last(), node_id) < nodes.len() - 1 {
        split_first(nodes.drop_last(), node_id, new_pane_id, along).push(nodes.last())
    } else if nodes.last().has_leaf(node_id) {
        nodes.drop_last().push(nodes.last().split_leaf(node_id, new_pane_id, along))
    } else {
        nodes
    }
}

/// The first node that shows a pane, or the end.
pub open spec fn first_showing(nodes: Seq<LayoutView>, pane_id: Seq<char>) -> int
    decreases nodes.len(),
{
    if nodes.len() == 0 {
        0
    } else {
        let before = first_showing(nodes.drop_last(), pane_id);
        if before < nodes.len() - 1 || nodes.last().shows(pane_id) {
            before
        } else {
            nodes.len() as int
        }
    }
}

/// The lines of nodes, in order, taking the texts of their ratio lists one after the other.
pub open spec fn lines_of(nodes: Seq<LayoutView>, texts: Seq<Seq<char>>) -> Seq<char>
    decreases nodes,
{
    if nodes.len() == 0 {
        Seq::empty()
    } else {
        lines_of(nodes.drop_last(), texts) + nodes.last().lines(
            texts.skip(splits_of(nodes.drop_last()) as int),
        )
    }
}

/// How many splits nodes have.
pub open spec fn splits_of(nodes: Seq<LayoutView>) -> nat
    decreases nodes,
{
    if nodes.len() == 0 {
        0
    } else {
        splits_of(nodes.drop_last()) + nodes.last().splits()
    }
}

/// The ratio lists of nodes, in order.
pub open spec fn ratio_lists_of(nodes: Seq<LayoutView>) -> Seq<Seq<u32>>
    decreases nodes,
{
    if nodes.len() == 0 {
        Seq::empty()
    } else {
        ratio_lists_of(nodes.drop_last()) + nodes.last().ratio_lists()
    }
}

proof fn lemma_first_with_leaf(nodes: Seq<LayoutView>, node_id: Seq<char>, at: int)
    requires
        0 <= at <= nodes.len(),
        forall|i: int| 0 <= i < at ==> !(#[trigger] nodes[i]).has_leaf(node_id),
        at < nodes.len() ==> nodes[at].has_leaf(node_id),
    ensures
        first_with_leaf(nodes, node_id) == at,
    decreases nodes.len(),
{
    if nodes.len() > 0 {
        let head = nodes.drop_last();
        if at == nodes.len() {
            assert(!nodes[nodes.len() - 1].has_leaf(node_id));
            assert forall|i: int| 0 <= i < head.len() implies !(#[trigger] head[i]).has_leaf(
                node_id,
            ) by {
                assert(head[i] == nodes[i]);
            }
            lemma_first_with_leaf(head, node_id, at - 1);
        } else {
            assert forall|i: int| 0 <= i < at implies !(#[trigger] head[i]).has_leaf(node_id) by {
                assert(head[i] == nodes[i]);
            }
            lemma_first_with_leaf(head, node_id, at);
        }
    }
}

proof fn lemma_split_first(
    nodes: Seq<LayoutView>,
    node_id: Seq<char>,
    new_pane_id: Seq<char>,
    along: SplitDirection,
    at: int,
)
    requires
        0 <= at < nodes.len(),
        forall|i: int| 0 <= i < at ==> !(#[trigger] nodes[i]).has_leaf(node_id),
        nodes[at].has_leaf(node_id),
    ensures
        split_first(nodes, node_id, new_pane_id, along) == nodes.update(
            at,
            nodes[at].split_leaf(node_id, new_pane_id, along),
        ),
    decreases nodes.len(),
{
    let head = nodes.drop_last();
    assert forall|i: int| 0 <= i < at implies !(#[trigger] head[i]).has_leaf(node_id) by {
        assert(head[i] == nodes[i]);
    }
    lemma_first_with_leaf(head, node_id, at);
    let goal = nodes.update(at, nodes[at].split_leaf(node_id, new_pane_id, along));
    if at < nodes.len() - 1 {
        lemma_split_first(head, node_id, new_pane_id, along, at);
        assert(split_first(nodes, node_id, new_pane_id, along) =~= goal);
    } else {
        assert(split_first(nodes, node_id, new_pane_id, along) =~= goal);
    }
}

proof fn lemma_first_showing(nodes: Seq<LayoutView>, pane_id: Seq<char>, at: int)
    requires
        0 <= at <= nodes.len(),
        forall|i: int| 0 <= i < at ==> !(#[trigger] nodes[i]).shows(pane_id),
        at < nodes.len() ==> nodes[at].shows(pane_id),
    ensures
        first_showing(nodes, pane_id) == at,
    decreases nodes.len(),
{
    if nodes.len() > 0 {
        let head = nodes.drop_last();
        if at == nodes.len() {
            assert(!nodes[nodes.len() - 1].shows(pane_id));
            assert forall|i: int| 0 <= i < head.len() implies !(#[trigger] head[i]).shows(
                pane_id,
            ) by {
                assert(head[i] == nodes[i]);
            }
            lemma_first_showing(head, pane_id, at - 1);
        } else {
            assert forall|i: int| 0 <= i < at implies !(#[trigger] head[i]).shows(pane_id) by {
                assert(head[i] == nodes[i]);
            }
            lemma_first_showing(head, pane_id, at);
        }
    }
}

proof fn lemma_all_wf(nodes: Seq<LayoutView>)
    ensures
        all_wf(nodes) <==> forall|i: int| 0 <= i < nodes.len() ==> (#[trigger] nodes[i]).wf(),
    decreases nodes.len(),
{
    if nodes.len() > 0 {
        let head = nodes.drop_last();
        lemma_all_wf(head);
        if all_wf(nodes) {
            assert forall|i: int| 0 <= i < nodes.len() implies (#[trigger] nodes[i]).wf() by {
                if i < head.len() {
                    assert(head[i] == nodes[i]);
                }
            }
        }
        if forall|i: int| 0 <= i < nodes.len() ==> (#[trigger] nodes[i]).wf() {
            assert forall|i: int| 0 <= i < head.len() implies (#[trigger] head[i]).wf() by {
                assert(head[i] == nodes[i]);
            }
            assert(nodes[nodes.len() - 1].wf());
        }
    }
}

/// The node id of the first leaf that shows a pane.
fn find_pane_node_id(node: &LayoutNode, pane_id: &str) -> (found: Option<String>)
    ensures
        match found {
            Some(id) => node_view(*node).node_of(pane_id@) == Some(id@),
            None => node_view(*node).node_of(pane_id@) is None,
        },
    decreases node,
{
    match node {
        LayoutNode::Pane { id, pane_id: shown } => {
            if same_text(shown.as_str(), pane_id) {
                Some(id.clone())
            } else {
                None
            }
        },
        LayoutNode::Split { children, .. } => {
            let ghost views = node_views(children@);
            proof {
                lemma_node_views(children@);
            }
            let mut i: usize = 0;
            assert(views.take(0) =~= Seq::<LayoutView>::empty());
            while i < children.len()
                invariant
                    i <= children@.len(),
                    *node matches LayoutNode::Split { children: c, .. } && c == *children,
                    views == node_views(children@),
                    views.len() == children@.len(),
                    forall|j: int|
                        0 <= j < children@.len() ==> #[trigger] views[j] == node_view(children@[j]),
                    node_of_first(views.take(i as int), pane_id@) is None,
                decreases children@.len() - i,
            {
                assert(views.take(i + 1).drop_last() =~= views.take(i as int));
                assert(views.take(i + 1).last() == node_view(children@[i as int]));
                match find_pane_node_id(&children[i], pane_id) {
                    Some(id) => {
                        proof {
                            lemma_node_of_prefix(views, pane_id@, i + 1);
                        }
                        return Some(id);
                    },
                    None => {},
                }
                i += 1;
            }
            assert(views.take(i as int) =~= views);
            None
        },
    }
}

proof fn lemma_node_of_prefix(nodes: Seq<LayoutView>, pane_id: Seq<char>, n: int)
    requires
        0 <= n <= nodes.len(),
        node_of_first(nodes.take(n), pane_id) is Some,
    ensures
        node_of_first(nodes, pane_id) == node_of_first(nodes.take(n), pane_id),
    decreases nodes.len() - n,
{
    if n == nodes.len() {
        assert(nodes.take(n) =~= nodes);
    } else {
        assert(nodes.take(n + 1).drop_last() =~= nodes.take(n));
        lemma_node_of_prefix(nodes, pane_id, n + 1);
    }
}

/// Whether a leaf has a node id.
fn has_leaf(node: &LayoutNode, node_id: &str) -> (found: bool)
    ensures
        found == node_view(*node).has_leaf(node_id@),
    decreases node,
{
    match node {
        LayoutNode::Pane { id, .. } => same_text(id.as_str(), node_id),
        LayoutNode::Split { children, .. } => {
            let ghost views = node_views(children@);
            proof {
                lemma_node_views(children@);
            }
            let mut i: usize = 0;
            while i < children.len()
                invariant
                    i <= children@.len(),
                    *node matches LayoutNode::Split { children: c, .. } && c == *children,
                    views == node_views(children@),
                    views.len() == children@.len(),
                    forall|j: int|
                        0 <= j < children@.len() ==> #[trigger] views[j] == node_view(children@[j]),
                    forall|j: int| 0 <= j < i ==> !(#[trigger] views[j]).has_leaf(node_id@),
                decreases children@.len() - i,
            {
                assert(views[i as int] == node_view(children@[i as int]));
                if has_leaf(&children[i], node_id) {
                    proof {
                        lemma_first_with_leaf(views, node_id@, i as int);
                    }
                    return true;
                }
                i += 1;
            }
            proof {
                lemma_first_with_leaf(views, node_id@, i as int);
            }
            false
        },
    }
}

/// Whether a leaf shows a pane.
pub fn contains_pane(node: &LayoutNode, pane_id: &str) -> (found: bool)
    ensures
        found == node_view(*node).shows(pane_id@),
    decreases node,
{
    match node {
        LayoutNode::Pane { pane_id: shown, .. } => {
            let found = same_text(shown.as_str(), pane_id);
            proof {
                let panes = node_view(*node).panes();
                assert(panes[0] == shown@);
            }
            found
        },
        LayoutNode::Split { children, .. } => {
            let ghost views = node_views(children@);
            proof {
                lemma_node_views(children@);
            }
            let mut i: usize = 0;
            while i < children.len()
                invariant
                    i <= children@.len(),
                    *node matches LayoutNode::Split { children: c, .. } && c == *children,
                    views == node_views(children@),
                    views.len() == children@.len(),
                    forall|j: int|
                        0 <= j < children@.len() ==> #[trigger] views[j] == node_view(children@[j]),
                    forall|j: int| 0 <= j < i ==> !(#[trigger] views[j]).shows(pane_id@),
                decreases children@.len() - i,
            {
                assert(views[i as int] == node_view(children@[i as int]));
                if contains_pane(&children[i], pane_id) {
                    proof {
                        lemma_panes_of(views, pane_id@);
                        assert(views[i as int].shows(pane_id@));
                    }
                    return true;
                }
                i += 1;
            }
            proof {
                lemma_panes_of(views, pane_id@);
            }
            false
        },
    }
}

/// A pane is among nodes when one of them shows it.
proof fn lemma_panes_of(nodes: Seq<LayoutView>, pane_id: Seq<char>)
    ensures
        panes_of(nodes).contains(pane_id) <==> exists|i: int|
            0 <= i < nodes.len() && (#[trigger] nodes[i]).shows(pane_id),
    decreases nodes.len(),
{
    if nodes.len() > 0 {
        let head = nodes.drop_last();
        lemma_panes_of(head, pane_id);
        let a = panes_of(head);
        let b = nodes.last().panes();
        if panes_of(nodes).contains(pane_id) {
            let k = choose|k: int| 0 <= k < (a + b).len() && (a + b)[k] == pane_id;
            if k < a.len() {
                assert(a[k] == pane_id);
                assert(a.contains(pane_id));
                let i = choose|i: int| 0 <= i < head.len() && (#[trigger] head[i]).shows(pane_id);
                assert(nodes[i] == head[i]);
            } else {
                assert(b[k - a.len()] == pane_id);
                assert(nodes[nodes.len() - 1].shows(pane_id));
            }
        }
        if exists|i: int| 0 <= i < nodes.len() && (#[trigger] nodes[i]).shows(pane_id) {
            let i = choose|i: int| 0 <= i < nodes.len() && (#[trigger] nodes[i]).shows(pane_id);
            if i < head.len() {
                assert(head[i].shows(pane_id));
                assert(a.contains(pane_id));
                let k = choose|k: int| 0 <= k < a.len() && a[k] == pane_id;
                assert((a + b)[k] == pane_id);
            } else {
                let k = choose|k: int| 0 <= k < b.len() && b[k] == pane_id;
                assert((a + b)[a.len() + k] == pane_id);
            }
        }
    } else {
        assert(panes_of(nodes) =~= Seq::<Seq<char>>::empty());
    }
}

/// A node with the first leaf of a node id replaced by a split.
fn split_node(node: LayoutNode, node_id: &str, new_pane_id: String, along: SplitDirection) -> (split:
    LayoutNode)
    requires
        node_view(node).has_leaf(node_id@),
    ensures
        node_view(split) == node_view(node).split_leaf(node_id@, new_pane_id@, along),
    decreases node,
{
    match node {
        LayoutNode::Pane { id, pane_id } => {
            let mut left_id = id.clone();
            left_id.append("-left");
            let mut right_id = id.clone();
            right_id.append("-right");
            let left = LayoutNode::Pane { id: left_id, pane_id };
            let right = LayoutNode::Pane { id: right_id, pane_id: new_pane_id };
            let mut children: Vec<LayoutNode> = Vec::new();
            children.push(left);
            children.push(right);
            let mut ratios: Vec<u32> = Vec::new();
            ratios.push(HALF);
            ratios.push(HALF);
            let split = LayoutNode::Split { id, direction: along, children, ratios };
            proof {
                lemma_node_views(children@);
                assert(node_views(children@) =~= seq![node_view(left), node_view(right)]);
                assert(ratios@ =~= seq![HALF, HALF]);
            }
            split
        },
        LayoutNode::Split { id, direction, children, ratios } => {
            let mut children = children;
            let ghost nodes = children@;
            let ghost views = node_views(nodes);
            proof {
                lemma_node_views(nodes);
            }
            let mut at: usize = 0;
            while at < children.len() && !has_leaf(&children[at], node_id)
                invariant
                    at <= children@.len(),
                    children@ == nodes,
                    views.len() == nodes.len(),
                    forall|j: int|
                        0 <= j < nodes.len() ==> #[trigger] views[j] == node_view(nodes[j]),
                    forall|j: int| 0 <= j < at ==> !(#[trigger] views[j]).has_leaf(node_id@),
                decreases children@.len() - at,
            {
                assert(views[at as int] == node_view(nodes[at as int]));
                at += 1;
            }
            proof {
                if at == nodes.len() {
                    lemma_first_with_leaf(views, node_id@, at as int);
                }
                assert(views[at as int] == node_view(nodes[at as int]));
            }
            let child = children.remove(at);
            assert(child == nodes[at as int]);
            let grown = split_node(child, node_id, new_pane_id, along);
            children.insert(at, grown);
            proof {
                lemma_split_first(views, node_id@, new_pane_id@, along, at as int);
                lemma_node_views(children@);
                assert(children@ =~= nodes.update(at as int, grown));
                assert(node_views(children@) =~= views.update(at as int, node_view(grown)));
            }
            LayoutNode::Split { id, direction, children, ratios }
        },
    }
}

/// What a removal leaves to be done.
#[derive(Debug, PartialEq, Eq)]
pub enum Removal {
    /// The tree is as it was.
    Unchanged,
    /// A split became its last child.
    Flattened,
    /// The split at the end of `path` (child indices from the root) lost a child, so its ratios
    /// are to be scaled to a sum of one.
    Shrunk { path: Vec<usize> },
}

impl Removal {
    /// Whether this is what removing a pane from a tree leaves to be done.
    pub open spec fn fits(&self, tree: LayoutView, pane_id: Seq<char>) -> bool {
        match *self {
            Removal::Unchanged => tree is Pane || !tree.shows(pane_id),
            Removal::Flattened => tree is Split && tree.shows(pane_id) && tree.shrunk_at(
                pane_id,
            ) is None,
            Removal::Shrunk { path } => tree is Split && tree.shows(pane_id) && tree.shrunk_at(
                pane_id,
            ) == Some(path@),
        }
    }
}

proof fn lemma_first_showing_is_found(nodes: Seq<LayoutView>, pane_id: Seq<char>)
    ensures
        0 <= first_showing(nodes, pane_id) <= nodes.len(),
        first_showing(nodes, pane_id) < nodes.len() ==> nodes[first_showing(
            nodes,
            pane_id,
        )].shows(pane_id),
        panes_of(nodes).contains(pane_id) <==> first_showing(nodes, pane_id) < nodes.len(),
    decreases nodes.len(),
{
    if nodes.len() > 0 {
        let head = nodes.drop_last();
        lemma_first_showing_is_found(head, pane_id);
        lemma_panes_of(head, pane_id);
        lemma_panes_of(nodes, pane_id);
        let at = first_showing(nodes, pane_id);
        if at < nodes.len() {
            if at < head.len() {
                assert(head[at] == nodes[at]);
            }
            assert(nodes[at].shows(pane_id));
        } else {
            assert forall|i: int| 0 <= i < nodes.len() implies !(#[trigger] nodes[i]).shows(
                pane_id,
            ) by {
                if i < head.len() {
                    assert(head[i] == nodes[i]);
                }
            }
        }
    } else {
        assert(panes_of(nodes) =~= Seq::<Seq<char>>::empty());
    }
}

/// A node with a pane removed from the first leaf that shows it.
fn remove_from_node(node: LayoutNode, pane_id: &str) -> (removed: (LayoutNode, Removal))
    requires
        node_view(node).wf(),
    ensures
        node_view(removed.0) == node_view(node).without(pane_id@),
        node_view(removed.0).wf(),
        removed.1.fits(node_view(node), pane_id@),
    decreases node,
{
    match node {
        LayoutNode::Pane { .. } => (node, Removal::Unchanged),
        LayoutNode::Split { id, direction, children, ratios } => {
            let mut children = children;
            let mut ratios = ratios;
            let ghost nodes = children@;
            let ghost views = node_views(nodes);
            let at = position_of(&children, pane_id);
            proof {
                lemma_node_views(nodes);
                lemma_all_wf(views);
                lemma_first_showing_is_found(views, pane_id@);
            }
            if at >= children.len() {
                return (LayoutNode::Split { id, direction, children, ratios }, Removal::Unchanged);
            }
            let child = children.remove(at);
            assert(views[at as int] == node_view(child));
            match child {
                LayoutNode::Split { .. } => {
                    assert(views[at as int] is Split);
                    let (rest, inner) = remove_from_node(child, pane_id);
                    children.insert(at, rest);
                    proof {
                        lemma_node_views(children@);
                        assert(children@ =~= nodes.update(at as int, rest));
                        assert(node_views(children@) =~= views.update(at as int, node_view(rest)));
                        lemma_all_wf(node_views(children@));
                    }
                    let removal = match inner {
                        Removal::Shrunk { path } => {
                            let mut path = path;
                            let ghost below = path@;
                            path.insert(0, at);
                            assert(path@ =~= seq![at] + below);
                            Removal::Shrunk { path }
                        },
                        inner => inner,
                    };
                    (LayoutNode::Split { id, direction, children, ratios }, removal)
                },
                LayoutNode::Pane { .. } => {
                    proof {
                        lemma_node_views(children@);
                        assert(node_views(children@) =~= views.remove(at as int));
                        lemma_all_wf(node_views(children@));
                    }
                    ratios.remove(at);
                    if children.len() == 1 {
                        let left = children.remove(0);
                        assert(node_view(left) == views.remove(at as int)[0]);
                        (left, Removal::Flattened)
                    } else {
                        let path: Vec<usize> = Vec::new();
                        assert(path@ =~= Seq::<usize>::empty());
                        (
                            LayoutNode::Split { id, direction, children, ratios },
                            Removal::Shrunk { path },
                        )
                    }
                },
            }
        },
    }
}

/// Where a resize applies: the split at the end of `path` (child indices from the root), the
/// ratio that grows, and the neighbour that gives the room, if there is one.
#[derive(Debug)]
pub struct ResizeTarget {
    pub path: Vec<usize>,
    pub index: usize,
    pub neighbour: Option<usize>,
}

/// What a [`ResizeTarget`] says.
#[verifier::ext_equal]
pub struct TargetView {
    pub path: Seq<usize>,
    pub index: usize,
    pub neighbour: Option<usize>,
}

impl View for ResizeTarget {
    type V = TargetView;

    open spec fn view(&self) -> TargetView {
        TargetView { path: self.path@, index: self.index, neighbour: self.neighbour }
    }
}

/// The neighbour that gives room to a child: the one before, or the one after for the first.
pub open spec fn neighbour_of(index: int, ratios: int) -> Option<usize> {
    if index > 0 {
        Some((index - 1) as usize)
    } else if index + 1 < ratios {
        Some((index + 1) as usize)
    } else {
        None
    }
}

impl LayoutView {
    /// Where resizing a pane along a direction applies: the outermost split of that direction on
    /// the way to the pane, in the first branch that has one.
    pub open spec fn resize_target(self, pane_id: Seq<char>, along: SplitDirection) -> Option<
        TargetView,
    >
        decreases self,
    {
        match self {
            LayoutView::Pane { .. } => None,
            LayoutView::Split { direction, children, ratios, .. } => if direction == along {
                let at = first_showing(children, pane_id);
                if at < children.len() {
                    Some(
                        TargetView {
                            path: Seq::empty(),
                            index: at as usize,
                            neighbour: neighbour_of(at, ratios.len() as int),
                        },
                    )
                } else {
                    None
                }
            } else {
                first_target(children, pane_id, along)
            },
        }
    }
}

/// Where resizing applies among nodes: in the first that has a split of the direction.
pub open spec fn first_target(
    nodes: Seq<LayoutView>,
    pane_id: Seq<char>,
    along: SplitDirection,
) -> Option<TargetView>
    decreases nodes,
{
    if nodes.len() == 0 {
        None
    } else {
        match first_target(nodes.drop_last(), pane_id, along) {
            Some(target) => Some(target),
            None => match nodes.last().resize_target(pane_id, along) {
                Some(target) => Some(
                    TargetView { path: seq![(nodes.len() - 1) as usize] + target.path, ..target },
                ),
                None => None,
            },
        }
    }
}

proof fn lemma_first_target_prefix(
    nodes: Seq<LayoutView>,
    pane_id: Seq<char>,
    along: SplitDirection,
    n: int,
)
    requires
        0 <= n <= nodes.len(),
        first_target(nodes.take(n), pane_id, along) is Some,
    ensures
        first_target(nodes, pane_id, along) == first_target(nodes.take(n), pane_id, along),
    decreases nodes.len() - n,
{
    if n == nodes.len() {
        assert(nodes.take(n) =~= nodes);
    } else {
        assert(nodes.take(n + 1).drop_last() =~= nodes.take(n));
        lemma_first_target_prefix(nodes, pane_id, along, n + 1);
    }
}

/// The first child that shows a pane, or the end.
fn position_of(children: &Vec<LayoutNode>, pane_id: &str) -> (at: usize)
    ensures
        at <= children@.len(),
        at == first_showing(node_views(children@), pane_id@),
{
    let ghost views = node_views(children@);
    proof {
        lemma_node_views(children@);
    }
    let mut at: usize = 0;
    while at < children.len() && !contains_pane(&children[at], pane_id)
        invariant
            at <= children@.len(),
            views == node_views(children@),
            views.len() == children@.len(),
            forall|j: int|
                0 <= j < children@.len() ==> #[trigger] views[j] == node_view(children@[j]),
            forall|j: int| 0 <= j < at ==> !(#[trigger] views[j]).shows(pane_id@),
        decreases children@.len() - at,
    {
        assert(views[at as int] == node_view(children@[at as int]));
        at += 1;
    }
    proof {
        if at < children@.len() {
            assert(views[at as int] == node_view(children@[at as int]));
        }
        lemma_first_showing(views, pane_id@, at as int);
    }
    at
}

fn find_resize_target(node: &LayoutNode, pane_id: &str, along: SplitDirection) -> (target: Option<
    ResizeTarget,
>)
    ensures
        match target {
            Some(t) => node_view(*node).resize_target(pane_id@, along) == Some(t@),
            None => node_view(*node).resize_target(pane_id@, along) is None,
        },
    decreases node,
{
    match node {
        LayoutNode::Pane { .. } => None,
        LayoutNode::Split { direction, children, ratios, .. } => {
            if *direction == along {
                let at = position_of(children, pane_id);
                proof {
                    lemma_node_views(children@);
                }
                if at < children.len() {
                    let neighbour = if at > 0 {
                        Some(at - 1)
                    } else if ratios.len() > 1 {
                        Some(1)
                    } else {
                        None
                    };
                    let target = ResizeTarget { path: Vec::new(), index: at, neighbour };
                    assert(target.path@ =~= Seq::<usize>::empty());
                    return Some(target);
                }
                None
            } else {
                let ghost views = node_views(children@);
                proof {
                    lemma_node_views(children@);
                }
                let mut i: usize = 0;
                assert(views.take(0) =~= Seq::<LayoutView>::empty());
                while i < children.len()
                    invariant
                        i <= children@.len(),
                        *node matches LayoutNode::Split { children: c, direction: d, .. } && c == *children
                            && d == *direction,
                        *direction != along,
                        views == node_views(children@),
                        views.len() == children@.len(),
                        forall|j: int|
                            0 <= j < children@.len() ==> #[trigger] views[j] == node_view(
                                children@[j],
                            ),
                        first_target(views.take(i as int), pane_id@, along) is None,
                    decreases children@.len() - i,
                {
                    assert(views.take(i + 1).drop_last() =~= views.take(i as int));
                    assert(views.take(i + 1).last() == node_view(children@[i as int]));
                    match find_resize_target(&children[i], pane_id, along) {
                        Some(inner) => {
                            let mut path = inner.path;
                            let ghost rest = path@;
                            path.insert(0, i);
                            assert(path@ =~= seq![i] + rest);
                            let target = ResizeTarget {
                                path,
                                index: inner.index,
                                neighbour: inner.neighbour,
                            };
                            proof {
                                assert(first_target(views.take(i + 1), pane_id@, along) == Some(
                                    target@,
                                ));
                                lemma_first_target_prefix(views, pane_id@, along, i + 1);
                            }
                            return Some(target);
                        },
                        None => {},
                    }
                    i += 1;
                }
                assert(views.take(i as int) =~= views);
                None
            }
        },
    }
}

/// What a list of ids says.
pub open spec fn text_views(texts: Seq<String>) -> Seq<Seq<char>> {
    texts.map_values(|t: String| t@)
}

fn collect_pane_ids(node: &LayoutNode, ids: &mut Vec<String>)
    ensures
        text_views(final(ids)@) == text_views(old(ids)@) + node_view(*node).panes(),
    decreases node,
{
    match node {
        LayoutNode::Pane { pane_id, .. } => {
            ids.push(pane_id.clone());
            assert(text_views(ids@) =~= text_views(old(ids)@) + seq![pane_id@]);
        },
        LayoutNode::Split { children, .. } => {
            let ghost views = node_views(children@);
            proof {
                lemma_node_views(children@);
            }
            let mut i: usize = 0;
            assert(views.take(0) =~= Seq::<LayoutView>::empty());
            assert(text_views(ids@) =~= text_views(old(ids)@) + panes_of(views.take(0)));
            while i < children.len()
                invariant
                    i <= children@.len(),
                    *node matches LayoutNode::Split { children: c, .. } && c == *children,
                    views == node_views(children@),
                    views.len() == children@.len(),
                    forall|j: int|
                        0 <= j < children@.len() ==> #[trigger] views[j] == node_view(children@[j]),
                    text_views(ids@) == text_views(old(ids)@) + panes_of(views.take(i as int)),
                decreases children@.len() - i,
            {
                assert(views.take(i + 1).drop_last() =~= views.take(i as int));
                assert(views.take(i + 1).last() == node_view(children@[i as int]));
                collect_pane_ids(&children[i], ids);
                assert(text_views(ids@) =~= text_views(old(ids)@) + panes_of(views.take(i + 1)));
                i += 1;
            }
            assert(views.take(i as int) =~= views);
        },
    }
}

/// What a list of ratio lists says.
pub open spec fn list_views(lists: Seq<Vec<u32>>) -> Seq<Seq<u32>> {
    lists.map_values(|l: Vec<u32>| l@)
}

fn collect_ratio_lists(node: &LayoutNode, lists: &mut Vec<Vec<u32>>)
    ensures
        list_views(final(lists)@) == list_views(old(lists)@) + node_view(*node).ratio_lists(),
    decreases node,
{
    match node {
        LayoutNode::Pane { .. } => {
            assert(list_views(lists@) =~= list_views(old(lists)@) + Seq::<Seq<u32>>::empty());
        },
        LayoutNode::Split { children, ratios, .. } => {
            let mut copy: Vec<u32> = Vec::new();
            let mut k: usize = 0;
            while k < ratios.len()
                invariant
                    k <= ratios@.len(),
                    copy@ == ratios@.take(k as int),
                decreases ratios@.len() - k,
            {
                copy.push(ratios[k]);
                assert(ratios@.take(k + 1) =~= ratios@.take(k as int).push(ratios@[k as int]));
                k += 1;
            }
            assert(ratios@.take(k as int) =~= ratios@);
            lists.push(copy);
            let ghost start = list_views(lists@);
            assert(start =~= list_views(old(lists)@) + seq![ratios@]);
            let ghost views = node_views(children@);
            proof {
                lemma_node_views(children@);
            }
            let mut i: usize = 0;
            assert(views.take(0) =~= Seq::<LayoutView>::empty());
            assert(list_views(lists@) =~= start + ratio_lists_of(views.take(0)));
            while i < children.len()
                invariant
                    i <= children@.len(),
                    *node matches LayoutNode::Split { children: c, .. } && c == *children,
                    views == node_views(children@),
                    views.len() == children@.len(),
                    forall|j: int|
                        0 <= j < children@.len() ==> #[trigger] views[j] == node_view(children@[j]),
                    list_views(lists@) == start + ratio_lists_of(views.take(i as int)),
                decreases children@.len() - i,
            {
                assert(views.take(i + 1).drop_last() =~= views.take(i as int));
                assert(views.take(i + 1).last() == node_view(children@[i as int]));
                collect_ratio_lists(&children[i], lists);
                assert(list_views(lists@) =~= start + ratio_lists_of(views.take(i + 1)));
                i += 1;
            }
            assert(views.take(i as int) =~= views);
            assert(list_views(lists@) =~= list_views(old(lists)@) + (seq![ratios@]
                + ratio_lists_of(views)));
        },
    }
}

/// The checksum of a text: over its UTF-8 bytes, each step multiplies by 16777619 and adds the
/// byte, in 32 bits.
pub open spec fn checksum(bytes: Seq<u8>) -> u32
    decreases bytes.len(),
{
    if bytes.len() == 0 {
        0
    } else {
        ((checksum(bytes.drop_last()) * 16777619 + bytes.last()) % 0x1_0000_0000) as u32
    }
}

/// The checksum of a text.
pub fn compute_checksum(data: &str) -> (sum: u32)
    ensures
        sum == checksum(encode_utf8(data@)),
{
    let bytes = data.as_bytes();
    let mut sum: u32 = 0;
    let mut i: usize = 0;
    assert(bytes@.take(0) =~= Seq::<u8>::empty());
    while i < bytes.len()
        invariant
            i <= bytes@.len(),
            sum == checksum(bytes@.take(i as int)),
        decreases bytes@.len() - i,
    {
        let byte = bytes[i];
        assert(bytes@.take(i + 1).drop_last() =~= bytes@.take(i as int));
        let wide: u64 = sum as u64 * 16777619 + byte as u64;
        sum = (wide % 0x1_0000_0000) as u32;
        i += 1;
    }
    assert(bytes@.take(i as int) =~= bytes@);
    sum
}

/// Append a node's lines, taking ratio texts from `next` on; the next text not taken.
fn serialize_node(node: &LayoutNode, texts: &Vec<String>, next: usize, buf: &mut String) -> (after:
    usize)
    requires
        next + node_view(*node).splits() <= texts@.len(),
    ensures
        after == next + node_view(*node).splits(),
        final(buf)@ == old(buf)@ + node_view(*node).lines(text_views(texts@).skip(next as int)),
    decreases node,
{
    match node {
        LayoutNode::Pane { id, pane_id } => {
            buf.append("P:");
            buf.append(id.as_str());
            buf.append(":");
            buf.append(pane_id.as_str());
            buf.append("\n");
            assert(buf@ =~= old(buf)@ + ("P:"@ + id@ + ":"@ + pane_id@ + "\n"@));
            next
        },
        LayoutNode::Split { id, direction, children, .. } => {
            buf.append("S:");
            buf.append(id.as_str());
            match direction {
                SplitDirection::LeftRight => buf.append(":H:"),
                SplitDirection::TopBottom => buf.append(":V:"),
            }
            buf.append(texts[next].as_str());
            buf.append("\n");
            let ghost all = text_views(texts@).skip(next as int);
            let ghost head = "S:"@ + id@ + (match *direction {
                SplitDirection::LeftRight => ":H:"@,
                SplitDirection::TopBottom => ":V:"@,
            }) + all[0] + "\n"@;
            let ghost start = buf@;
            assert(start =~= old(buf)@ + head);
            let ghost rest = all.skip(1);
            let ghost views = node_views(children@);
            proof {
                lemma_node_views(children@);
            }
            assert(next < texts.len());
            let mut after: usize = next + 1;
            let mut i: usize = 0;
            assert(views.take(0) =~= Seq::<LayoutView>::empty());
            assert(buf@ =~= start + lines_of(views.take(0), rest));
            while i < children.len()
                invariant
                    i <= children@.len(),
                    *node matches LayoutNode::Split { children: c, .. } && c == *children,
                    views == node_views(children@),
                    views.len() == children@.len(),
                    forall|j: int|
                        0 <= j < children@.len() ==> #[trigger] views[j] == node_view(children@[j]),
                    rest == text_views(texts@).skip(next as int).skip(1),
                    after == next + 1 + splits_of(views.take(i as int)),
                    next + 1 + splits_of(views) <= texts@.len(),
                    buf@ == start + lines_of(views.take(i as int), rest),
                decreases children@.len() - i,
            {
                assert(views.take(i + 1).drop_last() =~= views.take(i as int));
                assert(views.take(i + 1).last() == node_view(children@[i as int]));
                proof {
                    lemma_splits_grow(views, i + 1);
                    assert(text_views(texts@).skip(after as int) =~= rest.skip(
                        splits_of(views.take(i as int)) as int,
                    ));
                }
                after = serialize_node(&children[i], texts, after, buf);
                assert(buf@ =~= start + lines_of(views.take(i + 1), rest));
                i += 1;
            }
            assert(views.take(i as int) =~= views);
            assert(buf@ =~= old(buf)@ + (head + lines_of(views, rest)));
            after
        },
    }
}

proof fn lemma_splits_grow(nodes: Seq<LayoutView>, n: int)
    requires
        0 <= n <= nodes.len(),
    ensures
        splits_of(nodes.take(n)) <= splits_of(nodes),
    decreases nodes.len() - n,
{
    if n == nodes.len() {
        assert(nodes.take(n) =~= nodes);
    } else {
        assert(nodes.take(n + 1).drop_last() =~= nodes.take(n));
        lemma_splits_grow(nodes, n + 1);
    }
}

impl LayoutNode {
    /// What the node holds.
    pub open spec fn view(&self) -> LayoutView {
        node_view(*self)
    }

    /// The pane with an id, if a leaf shows it.
    pub fn find_pane(&self, pane_id: &str) -> (found: Option<String>)
        ensures
            found is Some <==> self@.shows(pane_id@),
            found matches Some(p) ==> p@ == pane_id@,
    {
        if contains_pane(self, pane_id) {
            Some(pane_id.to_owned())
        } else {
            None
        }
    }
}

impl LayoutTree {
    /// Every split has one ratio per child.
    pub open spec fn wf(&self) -> bool {
        node_view(self.root).wf()
    }

    /// A tree that shows no pane.
    pub fn empty() -> (tree: Self)
        ensures
            tree.wf(),
            tree.root@ == (LayoutView::Pane { id: Seq::empty(), pane_id: Seq::empty() }),
            tree.node_ids@ == Map::<Seq<char>, usize>::empty(),
    {
        LayoutTree {
            root: LayoutNode::Pane { id: String::new(), pane_id: String::new() },
            node_ids: TextMap::new(),
        }
    }

    /// A tree that shows one pane.
    pub fn with_pane(id: String, pane_id: String) -> (tree: Self)
        ensures
            tree.wf(),
            tree.root@ == (LayoutView::Pane { id: id@, pane_id: pane_id@ }),
            tree.node_ids@ == Map::<Seq<char>, usize>::empty(),
    {
        LayoutTree { root: LayoutNode::Pane { id, pane_id }, node_ids: TextMap::new() }
    }

    /// Split the leaf that shows a pane; the new pane comes second.
    pub fn split(&mut self, pane_id: &str, new_pane_id: String, direction: SplitDirection) -> (done:
        Result<(), LayoutError>)
        requires
            old(self).wf(),
        ensures
            final(self).wf(),
            final(self).node_ids == old(self).node_ids,
            match old(self).root@.node_of(pane_id@) {
                Some(node_id) => done is Ok && final(self).root@ == old(self).root@.split_leaf(
                    node_id,
                    new_pane_id@,
                    direction,
                ),
                None => {
                    &&& done matches Err(LayoutError::PaneNotFound(p)) && p@ == pane_id@
                    &&& final(self).root == old(self).root
                },
            },
    {
        match find_pane_node_id(&self.root, pane_id) {
            None => Err(LayoutError::PaneNotFound(pane_id.to_owned())),
            Some(node_id) => {
                proof {
                    lemma_node_of_is_a_leaf(self.root@, pane_id@);
                    lemma_split_keeps_wf(self.root@, node_id@, new_pane_id@, direction);
                }
                let mut root = LayoutNode::Pane { id: String::new(), pane_id: String::new() };
                std::mem::swap(&mut root, &mut self.root);
                self.root = split_node(root, node_id.as_str(), new_pane_id, direction);
                Ok(())
            },
        }
    }

    /// Remove a pane from the first leaf that shows it. A split loses the child that is this
    /// leaf, and a split left with a single child becomes that child. The answer says which
    /// ratios are left to be scaled.
    pub fn remove_pane(&mut self, pane_id: &str) -> (removal: Removal)
        requires
            old(self).wf(),
        ensures
            final(self).wf(),
            final(self).node_ids == old(self).node_ids,
            final(self).root@ == old(self).root@.without(pane_id@),
            removal.fits(old(self).root@, pane_id@),
    {
        let mut root = LayoutNode::Pane { id: String::new(), pane_id: String::new() };
        std::mem::swap(&mut root, &mut self.root);
        let (rest, removal) = remove_from_node(root, pane_id);
        self.root = rest;
        removal
    }

    /// Where resizing a pane along a direction applies, if anywhere.
    pub fn resize_pane(&self, pane_id: &str, direction: SplitDirection) -> (target: Option<
        ResizeTarget,
    >)
        ensures
            match target {
                Some(t) => self.root@.resize_target(pane_id@, direction) == Some(t@),
                None => self.root@.resize_target(pane_id@, direction) is None,
            },
    {
        find_resize_target(&self.root, pane_id, direction)
    }

    /// The panes at the leaves, from first to last.
    pub fn pane_ids(&self) -> (ids: Vec<String>)
        ensures
            text_views(ids@) == self.root@.panes(),
    {
        let mut ids: Vec<String> = Vec::new();
        collect_pane_ids(&self.root, &mut ids);
        assert(text_views(ids@) =~= self.root@.panes());
        ids
    }

    /// The ratio lists of the splits, a split before its children.
    pub fn ratio_lists(&self) -> (lists: Vec<Vec<u32>>)
        ensures
            list_views(lists@) == self.root@.ratio_lists(),
    {
        let mut lists: Vec<Vec<u32>> = Vec::new();
        collect_ratio_lists(&self.root, &mut lists);
        assert(list_views(lists@) =~= self.root@.ratio_lists());
        lists
    }

    /// The tree as text, followed by the checksum of that text on a line of its own. Ratios are
    /// printed by the caller: `ratio_texts` has one text per list of
    /// [`LayoutTree::ratio_lists`].
    pub fn serialize(&self, ratio_texts: &Vec<String>) -> (text: String)
        requires
            ratio_texts@.len() == self.root@.splits(),
        ensures
            ({
                let body = self.root@.lines(text_views(ratio_texts@));
                text@ == body + "\n"@ + crate::text::decimal_text(
                    checksum(encode_utf8(body)) as nat,
                )
            }),
    {
        let mut text = String::new();
        serialize_node(&self.root, ratio_texts, 0, &mut text);
        assert(text_views(ratio_texts@).skip(0) =~= text_views(ratio_texts@));
        let ghost body = self.root@.lines(text_views(ratio_texts@));
        assert(text@ =~= body);
        let sum = compute_checksum(text.as_str());
        text.append("\n");
        push_decimal(&mut text, sum as u64);
        text
    }
}

proof fn lemma_node_of_is_a_leaf(node: LayoutView, pane_id: Seq<char>)
    ensures
        node.node_of(pane_id) matches Some(id) ==> node.has_leaf(id),
    decreases node,
{
    match node {
        LayoutView::Pane { .. } => {},
        LayoutView::Split { children, .. } => {
            lemma_node_of_first_is_a_leaf(children, pane_id);
        },
    }
}

proof fn lemma_node_of_first_is_a_leaf(nodes: Seq<LayoutView>, pane_id: Seq<char>)
    ensures
        node_of_first(nodes, pane_id) matches Some(id) ==> 0 <= first_with_leaf(nodes, id)
            < nodes.len(),
    decreases nodes,
{
    if nodes.len() > 0 {
        lemma_node_of_first_is_a_leaf(nodes.drop_last(), pane_id);
        lemma_node_of_is_a_leaf(nodes.last(), pane_id);
        match node_of_first(nodes, pane_id) {
            Some(id) => {
                lemma_first_with_leaf_bounds(nodes.drop_last(), id);
            },
            None => {},
        }
    }
}

proof fn lemma_first_with_leaf_bounds(nodes: Seq<LayoutView>, node_id: Seq<char>)
    ensures
        0 <= first_with_leaf(nodes, node_id) <= nodes.len(),
    decreases nodes.len(),
{
    if nodes.len() > 0 {
        lemma_first_with_leaf_bounds(nodes.drop_last(), node_id);
    }
}

proof fn lemma_split_keeps_wf(
    node: LayoutView,
    node_id: Seq<char>,
    new_pane_id: Seq<char>,
    along: SplitDirection,
)
    requires
        node.wf(),
    ensures
        node.split_leaf(node_id, new_pane_id, along).wf(),
    decreases node,
{
    match node {
        LayoutView::Pane { .. } => {
            let split = node.split_leaf(node_id, new_pane_id, along);
            match split {
                LayoutView::Split { children, .. } => {
                    lemma_all_wf(children);
                },
                _ => {},
            }
        },
        LayoutView::Split { children, .. } => {
            lemma_split_first_keeps_wf(children, node_id, new_pane_id, along);
        },
    }
}

proof fn lemma_split_first_keeps_wf(
    nodes: Seq<LayoutView>,
    node_id: Seq<char>,
    new_pane_id: Seq<char>,
    along: SplitDirection,
)
    requires
        all_wf(nodes),
    ensures
        all_wf(split_first(nodes, node_id, new_pane_id, along)),
        split_first(nodes, node_id, new_pane_id, along).len() == nodes.len(),
    decreases nodes,
{
    if nodes.len() > 0 {
        let head = nodes.drop_last();
        lemma_split_first_keeps_wf(head, node_id, new_pane_id, along);
        lemma_split_keeps_wf(nodes.last(), node_id, new_pane_id, along);
        let out = split_first(nodes, node_id, new_pane_id, along);
        assert(out.drop_last() =~= head || out.drop_last() =~= split_first(
            head,
            node_id,
            new_pane_id,
            along,
        ));
    }
}

/// Where the leaf that [`LayoutView::node_of`] finds stands among the leaves.
proof fn lemma_node_of_stands(node: LayoutView, pane_id: Seq<char>) -> (at: int)
    requires
        node.node_of(pane_id) is Some,
    ensures
        node.leaf_ids().len() == node.panes().len(),
        0 <= at < node.panes().len(),
        node.panes()[at] == pane_id,
        node.leaf_ids()[at] == node.node_of(pane_id)->0,
    decreases node,
{
    lemma_leaves_pair_up(node);
    match node {
        LayoutView::Pane { .. } => 0,
        LayoutView::Split { children, .. } => lemma_node_of_first_stands(children, pane_id),
    }
}

proof fn lemma_node_of_first_stands(nodes: Seq<LayoutView>, pane_id: Seq<char>) -> (at: int)
    requires
        node_of_first(nodes, pane_id) is Some,
    ensures
        0 <= at < panes_of(nodes).len(),
        panes_of(nodes)[at] == pane_id,
        leaf_ids_of(nodes)[at] == node_of_first(nodes, pane_id)->0,
    decreases nodes,
{
    lemma_all_leaves_pair_up(nodes);
    let head = nodes.drop_last();
    lemma_all_leaves_pair_up(head);
    if node_of_first(head, pane_id) is Some {
        lemma_node_of_first_stands(head, pane_id)
    } else {
        panes_of(head).len() + lemma_node_of_stands(nodes.last(), pane_id)
    }
}

proof fn lemma_leaves_pair_up(node: LayoutView)
    ensures
        node.leaf_ids().len() == node.panes().len(),
    decreases node,
{
    match node {
        LayoutView::Pane { .. } => {},
        LayoutView::Split { children, .. } => {
            lemma_all_leaves_pair_up(children);
        },
    }
}

proof fn lemma_all_leaves_pair_up(nodes: Seq<LayoutView>)
    ensures
        leaf_ids_of(nodes).len() == panes_of(nodes).len(),
    decreases nodes,
{
    if nodes.len() > 0 {
        lemma_all_leaves_pair_up(nodes.drop_last());
        lemma_leaves_pair_up(nodes.last());
    }
}

/// Splitting keeps every pane where it is and adds exactly the new one, right behind the pane
/// whose leaf was split: where no two leaves have one node id, that is the pane asked for.
pub proof fn law_split_adds_one_pane(
    tree: LayoutView,
    pane_id: Seq<char>,
    new_pane_id: Seq<char>,
    along: SplitDirection,
)
    requires
        tree.node_of(pane_id) is Some,
    ensures
        exists|k: int|
            0 < k <= tree.panes().len() && #[trigger] tree.panes().insert(k, new_pane_id)
                == tree.split_leaf(tree.node_of(pane_id)->0, new_pane_id, along).panes() && (
            tree.leaf_ids().no_duplicates() ==> tree.panes()[k - 1] == pane_id),
{
    let node_id = tree.node_of(pane_id)->0;
    lemma_node_of_is_a_leaf(tree, pane_id);
    let k = lemma_split_panes(tree, node_id, new_pane_id, along);
    let at = lemma_node_of_stands(tree, pane_id);
    assert(tree.panes().insert(k, new_pane_id) == tree.split_leaf(
        node_id,
        new_pane_id,
        along,
    ).panes());
    if tree.leaf_ids().no_duplicates() {
        assert(tree.leaf_ids()[at] == tree.leaf_ids()[k - 1]);
    }
}

proof fn lemma_split_lone_panes(
    node: LayoutView,
    node_id: Seq<char>,
    new_pane_id: Seq<char>,
    along: SplitDirection,
)
    requires
        node is Pane,
    ensures
        node.panes().len() == 1,
        node.panes().insert(1, new_pane_id) == node.split_leaf(node_id, new_pane_id, along).panes(),
{
    match node {
        LayoutView::Pane { id, pane_id } => {
            let a = LayoutView::Pane { id: id + "-left"@, pane_id };
            let b = LayoutView::Pane { id: id + "-right"@, pane_id: new_pane_id };
            let children = seq![a, b];
            reveal_with_fuel(panes_of, 3);
            assert(children.drop_last() =~= seq![a]);
            assert(children.drop_last().drop_last() =~= Seq::<LayoutView>::empty());
            assert(node.panes().insert(1, new_pane_id) =~= seq![pane_id, new_pane_id]);
            assert(panes_of(children) =~= seq![pane_id, new_pane_id]);
        },
        _ => {},
    }
}

/// Where the new pane stands after a split: right behind the leaf that was split.
proof fn lemma_split_panes(
    node: LayoutView,
    node_id: Seq<char>,
    new_pane_id: Seq<char>,
    along: SplitDirection,
) -> (k: int)
    requires
        node.has_leaf(node_id),
    ensures
        node.leaf_ids().len() == node.panes().len(),
        0 < k <= node.panes().len(),
        node.leaf_ids()[k - 1] == node_id,
        node.panes().insert(k, new_pane_id) == node.split_leaf(node_id, new_pane_id, along).panes(),
    decreases node,
{
    lemma_leaves_pair_up(node);
    match node {
        LayoutView::Pane { .. } => {
            lemma_split_lone_panes(node, node_id, new_pane_id, along);
            1
        },
        LayoutView::Split { children, .. } => {
            lemma_split_first_panes(children, node_id, new_pane_id, along)
        },
    }
}

proof fn lemma_split_first_panes(
    nodes: Seq<LayoutView>,
    node_id: Seq<char>,
    new_pane_id: Seq<char>,
    along: SplitDirection,
) -> (k: int)
    requires
        first_with_leaf(nodes, node_id) < nodes.len(),
    ensures
        0 < k <= panes_of(nodes).len(),
        leaf_ids_of(nodes)[k - 1] == node_id,
        panes_of(nodes).insert(k, new_pane_id) == panes_of(
            split_first(nodes, node_id, new_pane_id, along),
        ),
    decreases nodes,
{
    lemma_first_with_leaf_bounds(nodes, node_id);
    let head = nodes.drop_last();
    let last = nodes.last();
    let out = split_first(nodes, node_id, new_pane_id, along);
    lemma_first_with_leaf_bounds(head, node_id);
    lemma_all_leaves_pair_up(head);
    if first_with_leaf(head, node_id) < nodes.len() - 1 {
        let k = lemma_split_first_panes(head, node_id, new_pane_id, along);
        assert(out.drop_last() =~= split_first(head, node_id, new_pane_id, along));
        assert(panes_of(nodes).insert(k, new_pane_id) =~= panes_of(head).insert(k, new_pane_id)
            + last.panes());
        k
    } else {
        let k = lemma_split_panes(last, node_id, new_pane_id, along);
        let n = panes_of(head).len() + k;
        assert(out.drop_last() =~= head);
        assert(panes_of(nodes).insert(n, new_pane_id) =~= panes_of(head) + last.panes().insert(
            k,
            new_pane_id,
        ));
        n
    }
}

proof fn lemma_panes_of_concat(a: Seq<LayoutView>, b: Seq<LayoutView>)
    ensures
        panes_of(a + b) == panes_of(a) + panes_of(b),
    decreases b.len(),
{
    if b.len() == 0 {
        assert(a + b =~= a);
        assert(panes_of(b) =~= Seq::<Seq<char>>::empty());
        assert(panes_of(a) + panes_of(b) =~= panes_of(a));
    } else {
        assert((a + b).drop_last() =~= a + b.drop_last());
        lemma_panes_of_concat(a, b.drop_last());
        assert(panes_of(a) + panes_of(b) =~= panes_of(a) + panes_of(b.drop_last())
            + b.last().panes());
    }
}

/// The panes of nodes around one of them.
proof fn lemma_panes_around(nodes: Seq<LayoutView>, at: int)
    requires
        0 <= at < nodes.len(),
    ensures
        panes_of(nodes) == panes_of(nodes.take(at)) + nodes[at].panes() + panes_of(
            nodes.skip(at + 1),
        ),
        panes_of(nodes.remove(at)) == panes_of(nodes.take(at)) + panes_of(nodes.skip(at + 1)),
{
    let before = nodes.take(at);
    let behind = nodes.skip(at + 1);
    let first = before.push(nodes[at]);
    assert(first.drop_last() =~= before);
    assert(nodes =~= first + behind);
    lemma_panes_of_concat(first, behind);
    assert(nodes.remove(at) =~= before + behind);
    lemma_panes_of_concat(before, behind);
}

/// Where the leaf that a removal takes stands among the leaves.
proof fn lemma_without_panes(tree: LayoutView, pane_id: Seq<char>) -> (k: int)
    requires
        tree is Split,
        tree.shows(pane_id),
    ensures
        0 <= k < tree.panes().len(),
        tree.panes()[k] == pane_id,
        tree.without(pane_id).panes() == tree.panes().remove(k),
    decreases tree,
{
    match tree {
        LayoutView::Split { children, ratios, .. } => {
            lemma_first_showing_is_found(children, pane_id);
            let at = first_showing(children, pane_id);
            let before = panes_of(children.take(at));
            let behind = panes_of(children.skip(at + 1));
            let rest = children.remove(at);
            lemma_panes_around(children, at);
            if children[at] is Split {
                let inner = lemma_without_panes(children[at], pane_id);
                let changed = children.update(at, children[at].without(pane_id));
                lemma_panes_around(changed, at);
                assert(changed.take(at) =~= children.take(at));
                assert(changed.skip(at + 1) =~= children.skip(at + 1));
                let k = before.len() + inner;
                assert(tree.panes().remove(k) =~= before + children[at].panes().remove(inner)
                    + behind);
                k
            } else {
                let k = before.len() as int;
                assert(children[at].panes().len() == 1);
                assert(children[at].panes()[0] == pane_id);
                assert(tree.panes().remove(k) =~= before + behind);
                if children.len() == 2 {
                    assert(rest.drop_last() =~= Seq::<LayoutView>::empty());
                    reveal_with_fuel(panes_of, 2);
                    assert(panes_of(rest) =~= rest[0].panes());
                }
                k
            }
        },
        _ => 0,
    }
}

/// Removing a pane from a tree of distinct panes takes this pane out and leaves every other one
/// where it is.
pub proof fn law_removal_takes_one_pane(tree: LayoutView, pane_id: Seq<char>)
    requires
        tree is Split,
        tree.panes().contains(pane_id),
        tree.panes().no_duplicates(),
    ensures
        tree.without(pane_id).panes() == tree.panes().remove(tree.panes().index_of(pane_id)),
{
    let k = lemma_without_panes(tree, pane_id);
    assert(tree.panes()[tree.panes().index_of(pane_id)] == pane_id);
}

/// A lone pane that is split, and whose new neighbour is then removed, is alone again.
pub proof fn law_removing_the_split_off_pane_restores_the_pane(
    id: Seq<char>,
    pane_id: Seq<char>,
    new_pane_id: Seq<char>,
    along: SplitDirection,
)
    requires
        pane_id != new_pane_id,
    ensures
        (LayoutView::Pane { id, pane_id }).split_leaf(id, new_pane_id, along).without(new_pane_id)
            == (LayoutView::Pane { id: id + "-left"@, pane_id }),
{
    let a = LayoutView::Pane { id: id + "-left"@, pane_id };
    let b = LayoutView::Pane { id: id + "-right"@, pane_id: new_pane_id };
    let children = seq![a, b];
    assert(a.panes()[0] == pane_id);
    assert(b.panes()[0] == new_pane_id);
    assert(!a.shows(new_pane_id));
    assert(b.shows(new_pane_id));
    assert(children[0] == a && children[1] == b);
    lemma_first_showing(children, new_pane_id, 1);
    assert(children.remove(1) =~= seq![a]);
}

/// The node at the end of a path: the places of children, from the root on.
pub open spec fn node_at(tree: LayoutView, path: Seq<int>) -> Option<LayoutView>
    decreases path.len(),
{
    if path.len() == 0 {
        Some(tree)
    } else {
        match tree {
            LayoutView::Pane { .. } => None,
            LayoutView::Split { children, .. } => if 0 <= path[0] < children.len() {
                node_at(children[path[0]], path.skip(1))
            } else {
                None
            },
        }
    }
}

/// Whether a path leads through the end of another one.
pub open spec fn leads_through(path: Seq<int>, end: Seq<int>) -> bool {
    end.len() <= path.len() && path.take(end.len() as int) == end
}

/// Whether two nodes are the same but for what stands below them.
pub open spec fn alike(one: LayoutView, two: LayoutView) -> bool {
    match (one, two) {
        (LayoutView::Pane { .. }, LayoutView::Pane { .. }) => one == two,
        (
            LayoutView::Split { id, direction, children, ratios },
            LayoutView::Split {
                id: other_id,
                direction: other_direction,
                children: other_children,
                ratios: other_ratios,
            },
        ) => id == other_id && direction == other_direction && children.len()
            == other_children.len() && ratios == other_ratios,
        _ => false,
    }
}

/// Whether a tree became another one only below the end of a path.
pub open spec fn same_but_at(before: LayoutView, after: LayoutView, path: Seq<int>) -> bool {
    forall|other: Seq<int>|
        (#[trigger] node_at(before, other)) is Some && !leads_through(other, path) ==> (node_at(
            after,
            other,
        ) matches Some(node) && alike(node_at(before, other)->0, node))
}

/// A change below a child is a change below it in the whole tree.
proof fn lemma_same_but_below(
    before: LayoutView,
    after: LayoutView,
    at: int,
    child_before: LayoutView,
    child_after: LayoutView,
    path: Seq<int>,
)
    requires
        same_but_at(child_before, child_after, path),
        before matches LayoutView::Split { id, direction, children, ratios } && 0 <= at
            < children.len() && children[at] == child_before && after == (LayoutView::Split {
            id,
            direction,
            children: children.update(at, child_after),
            ratios,
        }),
    ensures
        same_but_at(before, after, seq![at] + path),
        node_at(before, seq![at] + path) == node_at(child_before, path),
        node_at(after, seq![at] + path) == node_at(child_after, path),
{
    let whole = seq![at] + path;
    assert(whole.skip(1) =~= path);
    assert forall|other: Seq<int>|
        (#[trigger] node_at(before, other)) is Some && !leads_through(other, whole) implies (node_at(
        after,
        other,
    ) matches Some(node) && alike(node_at(before, other)->0, node)) by {
        if other.len() > 0 && other[0] == at {
            let rest = other.skip(1);
            if leads_through(rest, path) {
                assert(other.take(whole.len() as int) =~= whole) by {
                    assert forall|i: int| 0 <= i < whole.len() implies other.take(
                        whole.len() as int,
                    )[i] == whole[i] by {
                        if i > 0 {
                            assert(rest.take(path.len() as int)[i - 1] == path[i - 1]);
                        }
                    }
                }
            }
            assert(node_at(child_before, rest) is Some);
        }
    }
}

/// Whether a tree became another one by splitting the leaf at the end of a path: there stands now
/// a split along a direction, with the pane that was there first and the new pane behind it, each
/// with half the room. Every other node is as it was.
pub open spec fn is_split_at(
    before: LayoutView,
    after: LayoutView,
    path: Seq<int>,
    new_pane_id: Seq<char>,
    along: SplitDirection,
) -> bool {
    &&& node_at(before, path) matches Some(LayoutView::Pane { id, pane_id }) && node_at(after, path)
        == Some(
        LayoutView::Split {
            id,
            direction: along,
            children: seq![
                LayoutView::Pane { id: id + "-left"@, pane_id },
                LayoutView::Pane { id: id + "-right"@, pane_id: new_pane_id },
            ],
            ratios: seq![0x3f00_0000u32, 0x3f00_0000u32],
        },
    )
    &&& same_but_at(before, after, path)
}

proof fn lemma_first_with_leaf_has_it(nodes: Seq<LayoutView>, node_id: Seq<char>)
    ensures
        0 <= first_with_leaf(nodes, node_id) <= nodes.len(),
        first_with_leaf(nodes, node_id) < nodes.len() ==> nodes[first_with_leaf(
            nodes,
            node_id,
        )].has_leaf(node_id),
        forall|i: int|
            0 <= i < first_with_leaf(nodes, node_id) ==> !(#[trigger] nodes[i]).has_leaf(node_id),
    decreases nodes.len(),
{
    if nodes.len() > 0 {
        let head = nodes.drop_last();
        lemma_first_with_leaf_has_it(head, node_id);
        let at = first_with_leaf(nodes, node_id);
        assert forall|i: int| 0 <= i < at implies !(#[trigger] nodes[i]).has_leaf(node_id) by {
            if i < head.len() {
                assert(head[i] == nodes[i]);
            }
        }
        if at < head.len() {
            assert(head[at] == nodes[at]);
        }
    }
}

proof fn lemma_split_at(
    tree: LayoutView,
    node_id: Seq<char>,
    new_pane_id: Seq<char>,
    along: SplitDirection,
) -> (path: Seq<int>)
    requires
        tree.has_leaf(node_id),
    ensures
        is_split_at(
            tree,
            tree.split_leaf(node_id, new_pane_id, along),
            path,
            new_pane_id,
            along,
        ),
        node_at(tree, path) matches Some(LayoutView::Pane { id, .. }) && id == node_id,
    decreases tree,
{
    let after = tree.split_leaf(node_id, new_pane_id, along);
    match tree {
        LayoutView::Pane { .. } => {
            let path = Seq::<int>::empty();
            assert forall|other: Seq<int>| leads_through(other, path) by {
                assert(other.take(0) =~= path);
            }
            path
        },
        LayoutView::Split { children, .. } => {
            lemma_first_with_leaf_has_it(children, node_id);
            let at = first_with_leaf(children, node_id);
            lemma_split_first(children, node_id, new_pane_id, along, at);
            let child = children[at];
            let inner = lemma_split_at(child, node_id, new_pane_id, along);
            lemma_same_but_below(
                tree,
                after,
                at,
                child,
                child.split_leaf(node_id, new_pane_id, along),
                inner,
            );
            seq![at] + inner
        },
    }
}

/// Splitting a pane puts the new one beside it or below it, as was asked for, and leaves every
/// other split with its direction and its ratios and every other pane where it is. Where no two
/// leaves have one node id, the pane that is split is the one asked for.
pub proof fn law_split_goes_along_the_direction(
    tree: LayoutView,
    pane_id: Seq<char>,
    new_pane_id: Seq<char>,
    along: SplitDirection,
)
    requires
        tree.node_of(pane_id) is Some,
    ensures
        exists|path: Seq<int>|
            #[trigger] is_split_at(
                tree,
                tree.split_leaf(tree.node_of(pane_id)->0, new_pane_id, along),
                path,
                new_pane_id,
                along,
            ),
{
    lemma_node_of_is_a_leaf(tree, pane_id);
    let path = lemma_split_at(tree, tree.node_of(pane_id)->0, new_pane_id, along);
}

/// Whether a tree became another one by taking the child at a place out of the split at the end of
/// a path: the split stays with its direction and the other ratios, or, where it had two children,
/// the other child takes its place. Every other node is as it was.
pub open spec fn is_removed_at(
    before: LayoutView,
    after: LayoutView,
    path: Seq<int>,
    at: int,
    pane_id: Seq<char>,
) -> bool {
    &&& node_at(before, path) matches Some(LayoutView::Split { id, direction, children, ratios }) && 0
        <= at < children.len() && (children[at] matches LayoutView::Pane { pane_id: shown, .. }
        && shown == pane_id) && node_at(after, path) == Some(
        if children.len() == 2 {
            children[1 - at]
        } else {
            LayoutView::Split {
                id,
                direction,
                children: children.remove(at),
                ratios: ratios.remove(at),
            }
        },
    )
    &&& same_but_at(before, after, path)
}

proof fn lemma_removed_at(tree: LayoutView, pane_id: Seq<char>) -> (place: (Seq<int>, int))
    requires
        tree is Split,
        tree.shows(pane_id),
    ensures
        is_removed_at(tree, tree.without(pane_id), place.0, place.1, pane_id),
        match tree.shrunk_at(pane_id) {
            Some(shrunk) => node_at(tree, place.0) matches Some(LayoutView::Split { children, .. })
                && children.len() != 2 && shrunk == place.0.map_values(|step: int| step as usize),
            None => node_at(tree, place.0) matches Some(LayoutView::Split { children, .. })
                && children.len() == 2,
        },
    decreases tree,
{
    let after = tree.without(pane_id);
    match tree {
        LayoutView::Split { children, .. } => {
            lemma_first_showing_is_found(children, pane_id);
            let at = first_showing(children, pane_id);
            let child = children[at];
            if child is Split {
                let (inner, place) = lemma_removed_at(child, pane_id);
                lemma_same_but_below(tree, after, at, child, child.without(pane_id), inner);
                let path = seq![at] + inner;
                match child.shrunk_at(pane_id) {
                    Some(shrunk) => {
                        assert(seq![at as usize] + shrunk =~= path.map_values(
                            |step: int| step as usize,
                        ));
                    },
                    None => {},
                }
                (path, place)
            } else {
                let path = Seq::<int>::empty();
                assert forall|other: Seq<int>| leads_through(other, path) by {
                    assert(other.take(0) =~= path);
                }
                assert(child.panes().contains(pane_id));
                if children.len() == 2 {
                    assert(children.remove(at)[0] == children[1 - at]);
                }
                assert(path.map_values(|step: int| step as usize) =~= Seq::<usize>::empty());
                (path, at)
            }
        },
        _ => (Seq::empty(), 0),
    }
}

/// Removing a pane takes the leaf that shows it out of its split, and leaves every other split with
/// its direction and its ratios. Where the split keeps more than one child, its ratios are left to
/// be scaled; where a single child is left, that child takes its place.
pub proof fn law_removal_changes_one_split(tree: LayoutView, pane_id: Seq<char>)
    requires
        tree is Split,
        tree.shows(pane_id),
    ensures
        exists|path: Seq<int>, at: int|
            #[trigger] is_removed_at(tree, tree.without(pane_id), path, at, pane_id) && (
            node_at(tree, path) matches Some(LayoutView::Split { children, .. })
                && match tree.shrunk_at(pane_id) {
                Some(shrunk) => children.len() != 2 && shrunk == path.map_values(
                    |step: int| step as usize,
                ),
                None => children.len() == 2,
            }),
{
    let (path, at) = lemma_removed_at(tree, pane_id);
    assert(is_removed_at(tree, tree.without(pane_id), path, at, pane_id));
}

/// Whether every split has no more children than can be counted.
pub open spec fn is_countable(tree: LayoutView) -> bool {
    forall|path: Seq<int>|
        (#[trigger] node_at(tree, path)) matches Some(LayoutView::Split { children, .. })
            ==> children.len() <= usize::MAX
}

proof fn lemma_countable_child(tree: LayoutView, at: int)
    requires
        is_countable(tree),
        tree matches LayoutView::Split { children, .. } && 0 <= at < children.len(),
    ensures
        is_countable(tree->children[at]),
        tree->children.len() <= usize::MAX,
{
    let child = tree->children[at];
    assert(node_at(tree, Seq::empty()) == Some(tree));
    assert forall|path: Seq<int>|
        (#[trigger] node_at(child, path)) matches Some(LayoutView::Split { children, .. }) implies (
    node_at(child, path) matches Some(LayoutView::Split { children, .. }) && children.len()
        <= usize::MAX) by {
        let whole = seq![at] + path;
        assert(whole.skip(1) =~= path);
        assert(node_at(tree, whole) == node_at(child, path));
    }
}

/// Whether a split along a direction stands at the end of a path and shows a pane in a child.
pub open spec fn can_resize_at(
    tree: LayoutView,
    path: Seq<int>,
    pane_id: Seq<char>,
    along: SplitDirection,
) -> bool {
    node_at(tree, path) matches Some(LayoutView::Split { direction, children, .. }) && direction
        == along && exists|i: int|
        0 <= i < children.len() && (#[trigger] children[i]).shows(pane_id)
}

/// What a found target has to be.
pub open spec fn is_target(
    tree: LayoutView,
    target: TargetView,
    pane_id: Seq<char>,
    along: SplitDirection,
) -> bool {
    let path = target.path.map_values(|step: usize| step as int);
    &&& node_at(tree, path) matches Some(LayoutView::Split { direction, children, ratios, .. }) && {
        &&& direction == along
        &&& target.index < children.len()
        &&& children[target.index as int].shows(pane_id)
        &&& forall|i: int| 0 <= i < target.index ==> !(#[trigger] children[i]).shows(pane_id)
        &&& match target.neighbour {
            Some(neighbour) => if target.index > 0 {
                neighbour == target.index - 1
            } else {
                neighbour == 1 && ratios.len() > 1
            },
            None => target.index == 0 && ratios.len() <= 1,
        }
    }
    &&& forall|n: int|
        0 <= n < path.len() ==> !((#[trigger] node_at(tree, path.take(n))) matches Some(
            LayoutView::Split { direction, .. },
        ) && direction == along)
}

proof fn lemma_first_showing_is_first(nodes: Seq<LayoutView>, pane_id: Seq<char>)
    ensures
        forall|i: int|
            0 <= i < first_showing(nodes, pane_id) ==> !(#[trigger] nodes[i]).shows(pane_id),
    decreases nodes.len(),
{
    if nodes.len() > 0 {
        let head = nodes.drop_last();
        lemma_first_showing_is_first(head, pane_id);
        lemma_first_showing_is_found(head, pane_id);
        assert forall|i: int| 0 <= i < first_showing(nodes, pane_id) implies !(
        #[trigger] nodes[i]).shows(pane_id) by {
            if i < head.len() {
                assert(head[i] == nodes[i]);
            }
        }
    }
}

proof fn lemma_target(tree: LayoutView, pane_id: Seq<char>, along: SplitDirection, path: Seq<int>)
    requires
        is_countable(tree),
    ensures
        match tree.resize_target(pane_id, along) {
            Some(target) => is_target(tree, target, pane_id, along),
            None => !can_resize_at(tree, path, pane_id, along),
        },
    decreases tree, 1int,
{
    match tree {
        LayoutView::Pane { .. } => {},
        LayoutView::Split { direction, children, .. } => {
            assert(node_at(tree, Seq::empty()) == Some(tree));
            lemma_first_showing_is_found(children, pane_id);
            lemma_first_showing_is_first(children, pane_id);
            if direction == along {
                let at = first_showing(children, pane_id);
                if at < children.len() {
                    assert(Seq::<usize>::empty().map_values(|step: usize| step as int)
                        =~= Seq::<int>::empty());
                } else if can_resize_at(tree, path, pane_id, along) {
                    lemma_shown_below(tree, path, pane_id);
                }
            } else {
                assert(children.take(children.len() as int) =~= children);
                lemma_first_target(tree, children, pane_id, along, path);
            }
        },
    }
}

/// What a node below shows, the whole shows.
proof fn lemma_shown_below(tree: LayoutView, path: Seq<int>, pane_id: Seq<char>)
    requires
        node_at(tree, path) matches Some(LayoutView::Split { children, .. }) && exists|i: int|
            0 <= i < children.len() && (#[trigger] children[i]).shows(pane_id),
    ensures
        tree.shows(pane_id),
    decreases path.len(),
{
    match tree {
        LayoutView::Split { children, .. } => {
            lemma_panes_of(children, pane_id);
            if path.len() > 0 {
                lemma_shown_below(children[path[0]], path.skip(1), pane_id);
                assert(children[path[0]].shows(pane_id));
            }
        },
        _ => {},
    }
}

proof fn lemma_first_target(
    tree: LayoutView,
    nodes: Seq<LayoutView>,
    pane_id: Seq<char>,
    along: SplitDirection,
    path: Seq<int>,
)
    requires
        is_countable(tree),
        tree matches LayoutView::Split { direction, children, .. } && direction != along
            && nodes.len() <= children.len() && nodes == children.take(nodes.len() as int),
    ensures
        match first_target(nodes, pane_id, along) {
            Some(target) => is_target(tree, target, pane_id, along),
            None => path.len() > 0 && 0 <= path[0] < nodes.len() ==> !can_resize_at(
                tree,
                path,
                pane_id,
                along,
            ),
        },
    decreases tree, 0int, nodes.len(),
{
    if nodes.len() > 0 {
        let head = nodes.drop_last();
        let last = nodes.last();
        let at = nodes.len() - 1;
        assert(head =~= tree->children.take(head.len() as int));
        lemma_first_target(tree, head, pane_id, along, path);
        lemma_countable_child(tree, at);
        assert(tree->children[at] == last);
        lemma_target(last, pane_id, along, path.skip(1));
        if first_target(head, pane_id, along) is None {
            match last.resize_target(pane_id, along) {
                Some(inner) => {
                    let target = first_target(nodes, pane_id, along)->0;
                    let steps = target.path.map_values(|step: usize| step as int);
                    let inner_steps = inner.path.map_values(|step: usize| step as int);
                    assert(steps =~= seq![at] + inner_steps);
                    assert(steps.skip(1) =~= inner_steps);
                    assert forall|n: int| 0 <= n < steps.len() implies !((#[trigger] node_at(
                        tree,
                        steps.take(n),
                    )) matches Some(LayoutView::Split { direction, .. }) && direction == along) by {
                        if n > 0 {
                            assert(steps.take(n).skip(1) =~= inner_steps.take(n - 1));
                            assert(steps.take(n)[0] == at);
                            assert(node_at(tree, steps.take(n)) == node_at(
                                last,
                                inner_steps.take(n - 1),
                            ));
                        } else {
                            assert(node_at(tree, steps.take(n)) == Some(tree));
                        }
                    }
                },
                None => {},
            }
        }
    }
}

/// Resizing a pane applies to the outermost split along the direction on the way to it: to the
/// child that shows the pane, which takes its room from the child before it, or from the one behind
/// it where it is the first. It applies nowhere only where no split along the direction shows the
/// pane.
pub proof fn law_resize_finds_the_split(
    tree: LayoutView,
    pane_id: Seq<char>,
    along: SplitDirection,
    path: Seq<int>,
)
    requires
        is_countable(tree),
    ensures
        match tree.resize_target(pane_id, along) {
            Some(target) => is_target(tree, target, pane_id, along),
            None => !can_resize_at(tree, path, pane_id, along),
        },
{
    lemma_target(tree, pane_id, along, path);
}

/// What a tree shows is what stands at its leaves, and the node of a pane is a leaf that shows it.
pub proof fn law_panes_are_the_leaves(tree: LayoutView, path: Seq<int>, pane_id: Seq<char>)
    ensures
        node_at(tree, path) matches Some(LayoutView::Pane { pane_id: shown, .. }) ==> tree.shows(shown),
        tree.shows(pane_id) ==> exists|leaf: Seq<int>|
            (#[trigger] node_at(tree, leaf)) matches Some(LayoutView::Pane { pane_id: shown, .. })
                && shown == pane_id,
        tree.node_of(pane_id) is Some <==> tree.shows(pane_id),
        tree.node_of(pane_id) matches Some(node_id) ==> exists|leaf: Seq<int>|
            #[trigger] node_at(tree, leaf) == Some(LayoutView::Pane { id: node_id, pane_id }),
    decreases tree,
{
    match tree {
        LayoutView::Pane { id, pane_id: shown } => {
            assert(node_at(tree, Seq::empty()) == Some(tree));
            assert(tree.panes()[0] == shown);
        },
        LayoutView::Split { children, .. } => {
            if path.len() > 0 && 0 <= path[0] < children.len() {
                match node_at(tree, path) {
                    Some(LayoutView::Pane { pane_id: shown, .. }) => {
                        law_panes_are_the_leaves(children[path[0]], path.skip(1), pane_id);
                        lemma_panes_of(children, shown);
                        assert(children[path[0]].shows(shown));
                    },
                    _ => {},
                }
            }
            lemma_panes_of(children, pane_id);
            lemma_node_of_first_shows(children, pane_id);
            if tree.shows(pane_id) {
                let at = choose|at: int|
                    0 <= at < children.len() && (#[trigger] children[at]).shows(pane_id);
                law_panes_are_the_leaves(children[at], path, pane_id);
                let leaf = choose|leaf: Seq<int>|
                    (#[trigger] node_at(children[at], leaf)) matches Some(
                        LayoutView::Pane { pane_id: shown, .. },
                    ) && shown == pane_id;
                let whole = seq![at] + leaf;
                assert(whole.skip(1) =~= leaf);
                assert(node_at(tree, whole) == node_at(children[at], leaf));
            }
            match node_of_first(children, pane_id) {
                Some(node_id) => {
                    let at = choose|at: int|
                        0 <= at < children.len() && (#[trigger] children[at]).node_of(pane_id)
                            == Some(node_id);
                    law_panes_are_the_leaves(children[at], path, pane_id);
                    let leaf = choose|leaf: Seq<int>|
                        #[trigger] node_at(children[at], leaf) == Some(
                            LayoutView::Pane { id: node_id, pane_id },
                        );
                    let whole = seq![at] + leaf;
                    assert(whole.skip(1) =~= leaf);
                    assert(node_at(tree, whole) == node_at(children[at], leaf));
                },
                None => {
                    assert forall|at: int| 0 <= at < children.len() implies !(
                    #[trigger] children[at]).shows(pane_id) by {
                        law_panes_are_the_leaves(children[at], path, pane_id);
                    }
                },
            }
        },
    }
}

proof fn lemma_node_of_first_shows(nodes: Seq<LayoutView>, pane_id: Seq<char>)
    ensures
        match node_of_first(nodes, pane_id) {
            Some(node_id) => exists|at: int|
                0 <= at < nodes.len() && (#[trigger] nodes[at]).node_of(pane_id) == Some(node_id),
            None => forall|at: int|
                0 <= at < nodes.len() ==> (#[trigger] nodes[at]).node_of(pane_id) is None,
        },
    decreases nodes.len(),
{
    if nodes.len() > 0 {
        let head = nodes.drop_last();
        lemma_node_of_first_shows(head, pane_id);
        match node_of_first(head, pane_id) {
            Some(node_id) => {
                let at = choose|at: int|
                    0 <= at < head.len() && (#[trigger] head[at]).node_of(pane_id) == Some(node_id);
                assert(nodes[at].node_of(pane_id) == Some(node_id));
            },
            None => {
                assert(nodes[nodes.len() - 1] == nodes.last());
                assert forall|at: int| 0 <= at < head.len() implies (
                #[trigger] nodes[at]).node_of(pane_id) is None by {
                    assert(head[at] == nodes[at]);
                }
            },
        }
    }
}

/// The text of a tree: a line for each pane with its node and the pane, and a line for each split
/// with its node, `H` side by side or `V` one above the other, and its ratios, before those of its
/// children, which come in their order.
pub proof fn law_lines_follow_the_tree(tree: LayoutView, texts: Seq<Seq<char>>)
    requires
        texts.len() > 0,
    ensures
        tree matches LayoutView::Pane { id, pane_id } ==> tree.lines(texts) == "P:"@ + id + ":"@
            + pane_id + "\n"@,
        tree matches LayoutView::Split { id, direction, children, ratios } ==> {
            let mark = if direction == SplitDirection::LeftRight {
                ":H:"@
            } else {
                ":V:"@
            };
            &&& tree.lines(texts) == "S:"@ + id + mark + texts[0] + "\n"@ + lines_of(
                children,
                texts.skip(1),
            )
            &&& children.len() > 0 ==> lines_of(children, texts) == lines_of(
                children.drop_last(),
                texts,
            ) + children.last().lines(texts.skip(splits_of(children.drop_last()) as int))
            &&& tree.ratio_lists().len() == tree.splits()
            &&& tree.ratio_lists()[0] == ratios
        },
{
    lemma_ratio_lists_are_counted(tree);
}

proof fn lemma_ratio_lists_are_counted(tree: LayoutView)
    ensures
        tree.ratio_lists().len() == tree.splits(),
    decreases tree,
{
    match tree {
        LayoutView::Split { children, .. } => lemma_ratio_lists_of_are_counted(children),
        _ => {},
    }
}

proof fn lemma_ratio_lists_of_are_counted(nodes: Seq<LayoutView>)
    ensures
        ratio_lists_of(nodes).len() == splits_of(nodes),
    decreases nodes,
{
    if nodes.len() > 0 {
        lemma_ratio_lists_of_are_counted(nodes.drop_last());
        lemma_ratio_lists_are_counted(nodes.last());
    }
}

/// One byte more multiplies the checksum by 16777619 and adds the byte, in 32 bits.
pub proof fn law_checksum_takes_a_byte(bytes: Seq<u8>, byte: u8)
    ensures
        checksum(Seq::empty()) == 0,
        checksum(bytes.push(byte)) == (checksum(bytes) * 16_777_619 + byte) % 4_294_967_296,
{
    assert(bytes.push(byte).drop_last() =~= bytes);
}

} // verus!
