//! The provenance tree: the same trace as the flat list, each accepted node
//! hanging under the node whose branch discovered it.

use crate::models::{QueryResult, ResultView};
use crate::trace::{fanout_bounded, steps, Step, TraceNode};
use vstd::multiset::Multiset;
use vstd::prelude::*;
use vstd::seq_lib::lemma_multiset_commutative;

verus! {

/// A [`MemoryNode`] as plain mathematical values.
pub struct NodeView {
    pub memory: Option<ResultView>,
    pub children: Seq<NodeView>,
    pub layer: nat,
}

/// A [`MemoryTree`] as plain mathematical values.
pub struct TreeView {
    pub root: NodeView,
    pub total_nodes: nat,
}

/// A node of the tree. The root stands for the query itself: it holds no
/// memory and lies at layer 0.
#[derive(Debug, PartialEq, Eq)]
pub struct MemoryNode {
    pub memory: Option<QueryResult>,
    pub children: Vec<MemoryNode>,
    pub layer: usize,
}

/// The tree of one search, with the number of nodes below its root.
#[derive(Debug, PartialEq, Eq)]
pub struct MemoryTree {
    pub root: MemoryNode,
    pub total_nodes: usize,
}

/// The view of an optional result.
pub open spec fn optional_result(memory: Option<QueryResult>) -> Option<ResultView> {
    match memory {
        Some(result) => Some(result@),
        None => None,
    }
}

/// What a node is, children and all.
pub open spec fn node_view(node: MemoryNode) -> NodeView
    decreases node,
{
    NodeView {
        memory: optional_result(node.memory),
        children: Seq::new(
            node.children@.len(),
            |i: int|
                if 0 <= i < node.children@.len() {
                    node_view(node.children@[i])
                } else {
                    arbitrary()
                },
        ),
        layer: node.layer as nat,
    }
}

impl View for MemoryNode {
    type V = NodeView;

    open spec fn view(&self) -> NodeView {
        node_view(*self)
    }
}

impl View for MemoryTree {
    type V = TreeView;

    open spec fn view(&self) -> TreeView {
        TreeView { root: self.root@, total_nodes: self.total_nodes as nat }
    }
}

/// The views of a sequence of nodes, in order.
pub open spec fn node_views(nodes: Seq<MemoryNode>) -> Seq<NodeView> {
    nodes.map_values(|n: MemoryNode| n@)
}

/// Every node that names a parent names an earlier node of the trace.
pub open spec fn parents_precede(trace: Seq<Step>) -> bool {
    forall|i: int|
        0 <= i < trace.len() ==> ((#[trigger] trace[i]).parent matches Some(p) ==> 0 <= p < i)
}

/// The node at `at` with everything that was reached through it.
pub open spec fn subtree(trace: Seq<Step>, at: int) -> NodeView
    decreases trace.len() - at, 0nat,
{
    if 0 <= at < trace.len() {
        NodeView {
            memory: Some(trace[at].result),
            children: forest(trace, Some(at), at + 1),
            layer: trace[at].layer,
        }
    } else {
        NodeView { memory: None, children: Seq::empty(), layer: 0 }
    }
}

/// The subtrees of the nodes from `from` on whose parent is `parent`, in
/// the order of the trace.
pub open spec fn forest(trace: Seq<Step>, parent: Option<int>, from: int) -> Seq<NodeView>
    decreases trace.len() - from, 1nat,
{
    if 0 <= from < trace.len() {
        if trace[from].parent == parent {
            seq![subtree(trace, from)] + forest(trace, parent, from + 1)
        } else {
            forest(trace, parent, from + 1)
        }
    } else {
        Seq::empty()
    }
}

/// The tree of a trace: under a root without a memory the nodes of the
/// first layer, under each node the nodes reached from it, siblings in the
/// order they were accepted.
pub open spec fn tree_of(trace: Seq<Step>) -> TreeView {
    TreeView {
        root: NodeView { memory: None, children: forest(trace, None, 0), layer: 0 },
        total_nodes: trace.len(),
    }
}

/// The memories of a node and of all below it, each node before its
/// children, children from first to last.
pub open spec fn preorder(node: NodeView) -> Seq<ResultView>
    decreases node,
{
    match node.memory {
        Some(result) => seq![result] + preorder_all(node.children),
        None => preorder_all(node.children),
    }
}

/// The pre-order of each node in turn.
pub open spec fn preorder_all(nodes: Seq<NodeView>) -> Seq<ResultView>
    decreases nodes,
{
    if nodes.len() == 0 {
        Seq::empty()
    } else {
        preorder(nodes[0]) + preorder_all(nodes.drop_first())
    }
}

/// The results of a trace, in its order: the flat list.
pub open spec fn flat_of(trace: Seq<Step>) -> Seq<ResultView> {
    trace.map_values(|s: Step| s.result)
}

/// The children of a node's view are the views of its children.
pub proof fn lemma_node_children(node: MemoryNode)
    ensures
        node@.children == node_views(node.children@),
        node@.memory == optional_result(node.memory),
        node@.layer == node.layer,
{
    assert(node@.children =~= node_views(node.children@));
}

/// The nodes in reverse order.
fn reversed(mut nodes: Vec<MemoryNode>) -> (turned: Vec<MemoryNode>)
    ensures
        turned@ == nodes@.reverse(),
{
    let mut turned: Vec<MemoryNode> = Vec::new();
    let ghost whole = nodes@;
    while nodes.len() > 0
        invariant
            nodes.len() <= whole.len(),
            nodes@ == whole.take(nodes.len() as int),
            turned.len() + nodes.len() == whole.len(),
            forall|k: int| 0 <= k < turned.len() ==> turned@[k] == whole[whole.len() - 1 - k],
        decreases nodes.len(),
    {
        let ghost before = nodes@;
        let last = nodes.pop().unwrap();
        assert(last == whole[whole.len() - 1 - turned.len()]);
        assert(nodes@ =~= whole.take(nodes.len() as int));
        turned.push(last);
    }
    assert(turned@ =~= whole.reverse());
    turned
}

/// Builds the tree of a trace. Nodes are taken from the last to the first:
/// when a node's turn comes, all nodes reached from it have been built and
/// wait for it.
pub(crate) fn build_tree(nodes: &Vec<TraceNode>) -> (tree: MemoryTree)
    requires
        parents_precede(steps(nodes@)),
    ensures
        tree@ == tree_of(steps(nodes@)),
{
    let ghost trace = steps(nodes@);
    let count = nodes.len();
    let mut waiting: Vec<Vec<MemoryNode>> = Vec::new();
    let mut filled: usize = 0;
    while filled < count
        invariant
            filled <= count,
            count == nodes.len(),
            trace == steps(nodes@),
            waiting.len() == filled,
            forall|p: int|
                0 <= p < filled ==> node_views((#[trigger] waiting@[p])@).reverse() == forest(
                    trace,
                    Some(p),
                    count as int,
                ),
        decreases count - filled,
    {
        let empty: Vec<MemoryNode> = Vec::new();
        assert(node_views(empty@).reverse() =~= Seq::<NodeView>::empty());
        waiting.push(empty);
        filled += 1;
    }
    let mut roots: Vec<MemoryNode> = Vec::new();
    assert(node_views(roots@).reverse() =~= Seq::<NodeView>::empty());
    let mut at: usize = count;
    while at > 0
        invariant
            at <= count,
            count == nodes.len(),
            trace == steps(nodes@),
            parents_precede(trace),
            waiting.len() == at,
            forall|p: int|
                0 <= p < at ==> node_views((#[trigger] waiting@[p])@).reverse() == forest(
                    trace,
                    Some(p),
                    at as int,
                ),
            node_views(roots@).reverse() == forest(trace, None, at as int),
        decreases at,
    {
        at -= 1;
        let ghost held = waiting@;
        let below = waiting.pop().unwrap();
        assert(below == held[at as int]);
        assert(node_views(below@).reverse() == forest(trace, Some(at as int), at + 1));
        let children = reversed(below);
        assert(node_views(children@) =~= node_views(below@).reverse());
        let node = MemoryNode {
            memory: Some(nodes[at].result.clone()),
            children,
            layer: nodes[at].layer,
        };
        proof {
            lemma_node_children(node);
            assert(trace[at as int] == nodes@[at as int]@);
            assert(node@ == subtree(trace, at as int));
            assert forall|p: int| 0 <= p < at implies waiting@[p] == held[p] by {}
        }
        match nodes[at].parent {
            None => {
                let ghost before = node_views(roots@);
                roots.push(node);
                assert(node_views(roots@) =~= before.push(node@));
                assert(node_views(roots@).reverse() =~= seq![node@] + before.reverse());
                assert forall|p: int| 0 <= p < at implies node_views(
                    (#[trigger] waiting@[p])@,
                ).reverse() == forest(trace, Some(p), at as int) by {
                    assert(waiting@[p] == held[p]);
                }
            },
            Some(parent) => {
                assert(trace[at as int].parent == Some(parent as int));
                assert(parent < at);
                let ghost settled = waiting@;
                let ghost before = node_views(waiting@[parent as int]@);
                let mut siblings: Vec<MemoryNode> = Vec::new();
                std::mem::swap(&mut siblings, &mut waiting[parent]);
                siblings.push(node);
                std::mem::swap(&mut siblings, &mut waiting[parent]);
                assert(node_views(waiting@[parent as int]@) =~= before.push(node@));
                assert(node_views(waiting@[parent as int]@).reverse() =~= seq![node@]
                    + before.reverse());
                assert forall|p: int| 0 <= p < at implies node_views(
                    (#[trigger] waiting@[p])@,
                ).reverse() == forest(trace, Some(p), at as int) by {
                    if p != parent {
                        assert(waiting@[p] == settled[p]);
                        assert(settled[p] == held[p]);
                    } else {
                        assert(settled[p] == held[p]);
                    }
                }
            },
        }
    }
    let children = reversed(roots);
    assert(node_views(children@) =~= forest(trace, None, 0)) by {
        assert(node_views(children@) =~= node_views(roots@).reverse());
    }
    let root = MemoryNode { memory: None, children, layer: 0 };
    proof {
        lemma_node_children(root);
    }
    MemoryTree { root, total_nodes: count }
}

/// The pre-order of two rows of nodes side by side is the pre-order of the
/// first followed by that of the second.
pub proof fn lemma_preorder_all_concat(left: Seq<NodeView>, right: Seq<NodeView>)
    ensures
        preorder_all(left + right) == preorder_all(left) + preorder_all(right),
    decreases left.len(),
{
    if left.len() == 0 {
        assert(left + right =~= right);
        assert(preorder_all(left) + preorder_all(right) =~= preorder_all(right));
    } else {
        lemma_preorder_all_concat(left.drop_first(), right);
        assert((left + right).drop_first() =~= left.drop_first() + right);
        assert((left + right)[0] == left[0]);
        assert(preorder_all(left + right) =~= preorder(left[0]) + (preorder_all(left.drop_first())
            + preorder_all(right)));
        assert(preorder_all(left) + preorder_all(right) =~= preorder(left[0]) + (preorder_all(
            left.drop_first(),
        ) + preorder_all(right)));
    }
}

/// Whether the node at `at` hangs under the root or under a node before
/// `limit`.
pub open spec fn rooted_before(trace: Seq<Step>, at: int, limit: int) -> bool {
    match trace[at].parent {
        None => true,
        Some(p) => p < limit,
    }
}

/// The memories of the subtrees of all nodes from `from` on that hang under
/// the root or under a node before `limit`.
pub open spec fn cover(trace: Seq<Step>, limit: int, from: int) -> Multiset<ResultView>
    decreases trace.len() - from,
{
    if 0 <= from < trace.len() {
        if rooted_before(trace, from, limit) {
            preorder(subtree(trace, from)).to_multiset().add(cover(trace, limit, from + 1))
        } else {
            cover(trace, limit, from + 1)
        }
    } else {
        Multiset::empty()
    }
}

/// The pre-order of a row of one node is that node's pre-order.
proof fn lemma_preorder_single(node: NodeView)
    ensures
        preorder_all(seq![node]) == preorder(node),
{
    assert(seq![node].drop_first() =~= Seq::<NodeView>::empty());
    assert(preorder_all(Seq::<NodeView>::empty()) =~= Seq::<ResultView>::empty());
    assert(preorder_all(seq![node]) == preorder(seq![node][0]) + preorder_all(
        seq![node].drop_first(),
    ));
    assert(preorder(node) + Seq::<ResultView>::empty() =~= preorder(node));
}

/// The pre-order of a forest that starts with the subtree at `from`.
proof fn lemma_forest_head(trace: Seq<Step>, parent: Option<int>, from: int)
    requires
        0 <= from < trace.len(),
        trace[from].parent == parent,
    ensures
        preorder_all(forest(trace, parent, from)).to_multiset() == preorder(
            subtree(trace, from),
        ).to_multiset().add(preorder_all(forest(trace, parent, from + 1)).to_multiset()),
{
    let own = preorder(subtree(trace, from));
    let rest = forest(trace, parent, from + 1);
    lemma_preorder_all_concat(seq![subtree(trace, from)], rest);
    lemma_preorder_single(subtree(trace, from));
    lemma_multiset_commutative(own, preorder_all(rest));
}

/// Counting the subtrees under `limit` apart from the rest changes nothing.
proof fn lemma_cover_split(trace: Seq<Step>, limit: int, from: int)
    requires
        parents_precede(trace),
        0 <= limit < from,
    ensures
        cover(trace, limit + 1, from) == cover(trace, limit, from).add(
            preorder_all(forest(trace, Some(limit), from)).to_multiset(),
        ),
    decreases trace.len() - from,
{
    broadcast use vstd::seq_lib::group_to_multiset_ensures;

    let hanging = preorder_all(forest(trace, Some(limit), from)).to_multiset();
    if from < trace.len() {
        lemma_cover_split(trace, limit, from + 1);
        let own = preorder(subtree(trace, from)).to_multiset();
        let wide = cover(trace, limit + 1, from + 1);
        let narrow = cover(trace, limit, from + 1);
        let later = preorder_all(forest(trace, Some(limit), from + 1)).to_multiset();
        assert(wide == narrow.add(later));
        if trace[from].parent == Some(limit) {
            lemma_forest_head(trace, Some(limit), from);
            assert(rooted_before(trace, from, limit + 1));
            assert(!rooted_before(trace, from, limit));
            assert(cover(trace, limit + 1, from) == own.add(wide));
            assert(cover(trace, limit, from) == narrow);
            assert(hanging == own.add(later));
            assert(own.add(narrow.add(later)) =~= narrow.add(own.add(later)));
        } else {
            assert(forest(trace, Some(limit), from) == forest(trace, Some(limit), from + 1));
            assert(hanging == later);
            if rooted_before(trace, from, limit) {
                assert(rooted_before(trace, from, limit + 1));
                assert(cover(trace, limit + 1, from) == own.add(wide));
                assert(cover(trace, limit, from) == own.add(narrow));
                assert(own.add(narrow.add(later)) =~= own.add(narrow).add(later));
            } else {
                assert(!rooted_before(trace, from, limit + 1));
                assert(cover(trace, limit + 1, from) == wide);
                assert(cover(trace, limit, from) == narrow);
            }
        }
    } else {
        assert(forest(trace, Some(limit), from) =~= Seq::<NodeView>::empty());
        assert(preorder_all(forest(trace, Some(limit), from)) =~= Seq::<ResultView>::empty());
        assert(hanging =~= Multiset::empty());
        assert(cover(trace, limit, from) =~= Multiset::empty());
        assert(cover(trace, limit + 1, from) =~= Multiset::empty());
        assert(Multiset::<ResultView>::empty().add(Multiset::empty()) =~= Multiset::empty());
    }
}

/// The subtrees that start at or after `from` and hang no lower than
/// `from` hold exactly the memories of the trace from `from` on.
proof fn lemma_cover_suffix(trace: Seq<Step>, from: int)
    requires
        parents_precede(trace),
        0 <= from <= trace.len(),
    ensures
        cover(trace, from, from) == flat_of(trace).skip(from).to_multiset(),
    decreases trace.len() - from,
{
    broadcast use vstd::seq_lib::group_to_multiset_ensures;

    let flat = flat_of(trace);
    if from < trace.len() {
        lemma_cover_suffix(trace, from + 1);
        lemma_cover_split(trace, from, from + 1);
        let head = seq![trace[from].result];
        let below = preorder_all(forest(trace, Some(from), from + 1));
        let own = preorder(subtree(trace, from));
        let narrow = cover(trace, from, from + 1);
        assert(own =~= head + below);
        lemma_multiset_commutative(head, below);
        assert(own.to_multiset() == head.to_multiset().add(below.to_multiset()));
        assert(flat.skip(from) =~= head + flat.skip(from + 1));
        lemma_multiset_commutative(head, flat.skip(from + 1));
        assert(rooted_before(trace, from, from));
        assert(cover(trace, from, from) == own.to_multiset().add(narrow));
        assert(cover(trace, from + 1, from + 1) == narrow.add(below.to_multiset()));
        assert(head.to_multiset().add(below.to_multiset()).add(narrow) =~= head.to_multiset().add(
            narrow.add(below.to_multiset()),
        ));
    } else {
        assert(flat.skip(from) =~= Seq::<ResultView>::empty());
        assert(cover(trace, from, from) =~= Multiset::empty());
        assert(flat.skip(from).to_multiset() =~= Multiset::empty());
    }
}

/// Of the subtrees from `from` on, those that hang under the root are the
/// forest of the root.
proof fn lemma_cover_roots(trace: Seq<Step>, from: int)
    requires
        parents_precede(trace),
        0 <= from <= trace.len(),
    ensures
        cover(trace, 0, from) == preorder_all(forest(trace, None, from)).to_multiset(),
    decreases trace.len() - from,
{
    broadcast use vstd::seq_lib::group_to_multiset_ensures;

    if from < trace.len() {
        lemma_cover_roots(trace, from + 1);
        if trace[from].parent is None {
            lemma_forest_head(trace, None, from);
            assert(rooted_before(trace, from, 0));
        } else {
            assert(!rooted_before(trace, from, 0));
            assert(forest(trace, None, from) == forest(trace, None, from + 1));
        }
    } else {
        assert(forest(trace, None, from) =~= Seq::<NodeView>::empty());
        assert(preorder_all(forest(trace, None, from)) =~= Seq::<ResultView>::empty());
        assert(preorder_all(forest(trace, None, from)).to_multiset() =~= Multiset::empty());
    }
}

/// Tree and flat list agree. Walking the tree of a trace in pre-order,
/// the root left out, meets every accepted memory exactly as often as the
/// flat list holds it: the two are the same multiset.
pub proof fn lemma_tree_matches_flat(trace: Seq<Step>)
    requires
        parents_precede(trace),
    ensures
        preorder(tree_of(trace).root).to_multiset() == flat_of(trace).to_multiset(),
        tree_of(trace).total_nodes == flat_of(trace).len(),
{
    lemma_cover_suffix(trace, 0);
    lemma_cover_roots(trace, 0);
    assert(flat_of(trace).skip(0) =~= flat_of(trace));
}

/// Two sequences that hold the same items as often still do so after each
/// item was replaced by what `f` makes of it.
pub proof fn lemma_same_items_mapped<A, B>(left: Seq<A>, right: Seq<A>, f: spec_fn(A) -> B)
    requires
        left.to_multiset() == right.to_multiset(),
    ensures
        left.map_values(f).to_multiset() == right.map_values(f).to_multiset(),
    decreases left.len(),
{
    left.to_multiset_ensures();
    right.to_multiset_ensures();
    assert(left.len() == right.len());
    if left.len() == 0 {
        assert(left.map_values(f) =~= right.map_values(f));
    } else {
        let item = left.last();
        let shorter = left.drop_last();
        assert(left =~= shorter.push(item));
        shorter.to_multiset_ensures();
        assert(left.to_multiset() == shorter.to_multiset().insert(item));
        assert(left.to_multiset().count(item) > 0);
        assert(right.contains(item));
        let at = choose|at: int| 0 <= at < right.len() && right[at] == item;
        let others = right.remove(at);
        assert(others.to_multiset() == right.to_multiset().remove(item));
        assert(shorter.to_multiset() =~= left.to_multiset().remove(item));
        lemma_same_items_mapped(shorter, others, f);
        let mapped = others.map_values(f);
        assert(left.map_values(f) =~= shorter.map_values(f).push(f(item)));
        assert(right.map_values(f) =~= mapped.insert(at, f(item)));
        shorter.map_values(f).to_multiset_ensures();
        vstd::seq_lib::to_multiset_insert(mapped, at, f(item));
    }
}

/// The identifiers of some results, in order.
pub open spec fn ids_of(results: Seq<ResultView>) -> Seq<Seq<char>> {
    results.map_values(|r: ResultView| r.id)
}

/// Tree and flat list agree on identifiers: the pre-order walk of the tree,
/// the root left out, meets the identifiers of the flat list, each as often.
pub proof fn lemma_tree_matches_flat_ids(trace: Seq<Step>)
    requires
        parents_precede(trace),
    ensures
        ids_of(preorder(tree_of(trace).root)).to_multiset() == ids_of(flat_of(trace)).to_multiset(),
{
    lemma_tree_matches_flat(trace);
    lemma_same_items_mapped(
        preorder(tree_of(trace).root),
        flat_of(trace),
        |r: ResultView| r.id,
    );
}

/// The children of the node at `at` in the tree of a trace.
pub open spec fn subtree_children(trace: Seq<Step>, at: int) -> Seq<NodeView> {
    subtree(trace, at).children
}

/// From `from` on, no more nodes hang under `parent` than there are places
/// up to `until`, if none hangs under it from `until` on.
proof fn lemma_forest_len(trace: Seq<Step>, parent: int, from: int, until: int)
    requires
        0 <= from <= until,
        forall|j: int| until <= j < trace.len() ==> (#[trigger] trace[j]).parent != Some(parent),
    ensures
        forest(trace, Some(parent), from).len() <= until - from,
    decreases trace.len() - from,
{
    if from < trace.len() {
        if from < until {
            lemma_forest_len(trace, parent, from + 1, until);
        } else {
            lemma_forest_len(trace, parent, from + 1, until + 1);
        }
    }
}

/// Where the children of every node stand within `limit` places of each
/// other, the forest under a node holds at most `limit` subtrees.
pub proof fn lemma_children_in_window(trace: Seq<Step>, parent: int, from: int, limit: nat)
    requires
        fanout_bounded(trace, limit),
        0 <= from,
        forall|j: int|
            0 <= j < from && j < trace.len() ==> (#[trigger] trace[j]).parent != Some(parent),
    ensures
        forest(trace, Some(parent), from).len() <= limit,
    decreases trace.len() - from,
{
    if from < trace.len() {
        if trace[from].parent == Some(parent) {
            assert forall|j: int| from + limit <= j < trace.len() implies (#[trigger] trace[j]).parent
                != Some(parent) by {
                if trace[j].parent == Some(parent) {
                    assert(trace[from].parent == trace[j].parent);
                }
            }
            lemma_forest_len(trace, parent, from, from + limit);
        } else {
            lemma_children_in_window(trace, parent, from + 1, limit);
        }
    }
}

} // verus!
