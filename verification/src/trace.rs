//! The aggregator's trace: the accepted nodes of a search in the order they
//! were first seen, how offered candidates enter it, and what stays true of
//! it however a store answers.

use crate::models::{result_views, Memory, MemoryView, QueryResult, ResultView};
use crate::schedule::TreeSearchConfig;
use crate::tags::{shares_tag, tags_overlap};
use vstd::prelude::*;

verus! {

/// One accepted node of the trace, as plain mathematical values.
pub struct Step {
    pub result: ResultView,
    /// 1 for the neighbours of the query itself.
    pub layer: nat,
    /// Position in the trace of the node this one was reached from; none in
    /// the first layer.
    pub parent: Option<int>,
}

/// One accepted node: what was found, at which layer, and from which
/// earlier node of the trace.
#[derive(Debug, PartialEq, Eq)]
pub struct TraceNode {
    pub result: QueryResult,
    pub layer: usize,
    pub parent: Option<usize>,
}

/// A position as a mathematical integer.
pub open spec fn position(index: Option<usize>) -> Option<int> {
    match index {
        Some(i) => Some(i as int),
        None => None,
    }
}

/// A bound as a natural number.
pub open spec fn bound(limit: Option<usize>) -> Option<nat> {
    match limit {
        Some(n) => Some(n as nat),
        None => None,
    }
}

impl View for TraceNode {
    type V = Step;

    open spec fn view(&self) -> Step {
        Step { result: self.result@, layer: self.layer as nat, parent: position(self.parent) }
    }
}

/// The trace that a sequence of nodes stands for.
pub open spec fn steps(nodes: Seq<TraceNode>) -> Seq<Step> {
    nodes.map_values(|n: TraceNode| n@)
}

/// Whether a node with this identifier has been accepted.
pub open spec fn knows(trace: Seq<Step>, id: Seq<char>) -> bool {
    exists|i: int| 0 <= i < trace.len() && (#[trigger] trace[i]).result.id == id
}

/// The trace after `candidates` were offered in order, as found at `layer`
/// from `parent`: a candidate is accepted unless its identifier is known
/// already, and nothing more is accepted once the trace has reached `budget`.
pub open spec fn absorb(
    trace: Seq<Step>,
    candidates: Seq<ResultView>,
    parent: Option<int>,
    layer: nat,
    budget: Option<nat>,
) -> Seq<Step>
    decreases candidates.len(),
{
    if candidates.len() == 0 || (budget matches Some(most) && trace.len() >= most) {
        trace
    } else {
        let first = candidates[0];
        let grown = if knows(trace, first.id) {
            trace
        } else {
            trace.push(Step { result: first, layer, parent })
        };
        absorb(grown, candidates.drop_first(), parent, layer, budget)
    }
}

/// No identifier occurs twice.
pub open spec fn distinct_ids(trace: Seq<Step>) -> bool {
    forall|i: int, j: int|
        0 <= i < j < trace.len() ==> (#[trigger] trace[i]).result.id != (#[trigger] trace[j]).result.id
}

/// What one run of [`absorb`] does to a trace: it only appends, each new
/// node is one of the candidates that was unknown before, filed under the
/// given layer and parent, identifiers stay distinct, and a trace that was
/// within the budget stays within it.
pub proof fn lemma_absorb(
    trace: Seq<Step>,
    candidates: Seq<ResultView>,
    parent: Option<int>,
    layer: nat,
    budget: Option<nat>,
)
    ensures
        ({
            let out = absorb(trace, candidates, parent, layer, budget);
            &&& trace.len() <= out.len() <= trace.len() + candidates.len()
            &&& out.take(trace.len() as int) == trace
            &&& forall|i: int|
                trace.len() <= i < out.len() ==> {
                    &&& (#[trigger] out[i]).layer == layer
                    &&& out[i].parent == parent
                    &&& candidates.contains(out[i].result)
                    &&& !knows(trace, out[i].result.id)
                }
            &&& distinct_ids(trace) ==> distinct_ids(out)
            &&& budget matches Some(most) ==> out.len() <= most || out.len() == trace.len()
        }),
    decreases candidates.len(),
{
    let out = absorb(trace, candidates, parent, layer, budget);
    if candidates.len() == 0 || (budget matches Some(most) && trace.len() >= most) {
        assert(out.take(trace.len() as int) =~= trace);
    } else {
        let first = candidates[0];
        let rest = candidates.drop_first();
        let grown = if knows(trace, first.id) {
            trace
        } else {
            trace.push(Step { result: first, layer, parent })
        };
        lemma_absorb(grown, rest, parent, layer, budget);
        assert(out.take(trace.len() as int) =~= trace) by {
            assert(out.take(grown.len() as int) == grown);
            assert forall|k: int| 0 <= k < trace.len() implies out[k] == trace[k] by {
                assert(out.take(grown.len() as int)[k] == grown[k]);
            }
        }
        assert forall|i: int| trace.len() <= i < out.len() implies {
            &&& (#[trigger] out[i]).layer == layer
            &&& out[i].parent == parent
            &&& candidates.contains(out[i].result)
            &&& !knows(trace, out[i].result.id)
        } by {
            if i < grown.len() {
                assert(out.take(grown.len() as int)[i] == grown[i]);
                assert(candidates[0] == out[i].result);
            } else {
                let k = choose|k: int| 0 <= k < rest.len() && rest[k] == out[i].result;
                assert(candidates[k + 1] == out[i].result);
                if knows(trace, out[i].result.id) {
                    let w = choose|w: int|
                        0 <= w < trace.len() && (#[trigger] trace[w]).result.id == out[i].result.id;
                    assert(grown[w] == trace[w]);
                    assert(knows(grown, out[i].result.id));
                }
            }
        }
        if distinct_ids(trace) {
            assert(distinct_ids(grown)) by {
                assert forall|i: int, j: int| 0 <= i < j < grown.len() implies (#[trigger] grown[i]).result.id
                    != (#[trigger] grown[j]).result.id by {
                    if j == trace.len() {
                        assert(grown[i] == trace[i]);
                    }
                }
            }
        }
    }
}

/// Whether a node with this identifier is among `nodes`.
pub(crate) fn knows_id(nodes: &Vec<TraceNode>, id: &String) -> (known: bool)
    ensures
        known == knows(steps(nodes@), id@),
{
    let mut i: usize = 0;
    while i < nodes.len()
        invariant
            i <= nodes.len(),
            forall|k: int| 0 <= k < i ==> (#[trigger] steps(nodes@)[k]).result.id != id@,
        decreases nodes.len() - i,
    {
        if nodes[i].result.id == *id {
            assert(steps(nodes@)[i as int].result.id == id@);
            return true;
        }
        i += 1;
    }
    false
}

/// Offers `candidates` to the trace in order.
pub(crate) fn absorb_into(
    nodes: &mut Vec<TraceNode>,
    candidates: Vec<QueryResult>,
    parent: Option<usize>,
    layer: usize,
    budget: Option<usize>,
)
    ensures
        steps(final(nodes)@) == absorb(
            steps(old(nodes)@),
            result_views(candidates@),
            position(parent),
            layer as nat,
            bound(budget),
        ),
{
    let ghost start = steps(nodes@);
    let ghost offered = result_views(candidates@);
    let ghost whole = candidates@;
    assert(offered.skip(0) =~= offered);
    for candidate in it: candidates
        invariant
            it.seq() == whole,
            offered == result_views(whole),
            absorb(
                steps(nodes@),
                offered.skip(it.index() as int),
                position(parent),
                layer as nat,
                bound(budget),
            ) == absorb(start, offered, position(parent), layer as nat, bound(budget)),
    {
        let ghost before = steps(nodes@);
        let ghost rest = offered.skip(it.index() as int);
        assert(rest[0] == candidate@);
        assert(rest.drop_first() =~= offered.skip(it.index() + 1));
        let full = match budget {
            Some(most) => nodes.len() >= most,
            None => false,
        };
        if full {
            assert(absorb(before, rest.drop_first(), position(parent), layer as nat, bound(budget))
                == before);
        } else if !knows_id(nodes, &candidate.id) {
            nodes.push(TraceNode { result: candidate, layer, parent });
            assert(steps(nodes@) =~= before.push(
                Step { result: candidate@, layer: layer as nat, parent: position(parent) },
            ));
        }
    }
    assert(offered.skip(offered.len() as int) =~= Seq::<ResultView>::empty());
}

/// What the store said of one branch, the node it was asked for being known
/// by its place among the answers.
#[derive(Debug, PartialEq, Eq)]
pub enum BranchReply {
    /// The lookup or the query failed: the branch counts as empty.
    Failed,
    /// The store holds no memory of that identifier: the node stays a leaf.
    Missing,
    /// The memory the node resolved to, and what the query from its vector
    /// returned.
    Found { memory: Memory, related: Vec<QueryResult> },
}

/// A [`BranchReply`] as plain mathematical values.
pub enum ReplyView {
    Failed,
    Missing,
    Found { memory: MemoryView, related: Seq<ResultView> },
}

impl View for BranchReply {
    type V = ReplyView;

    open spec fn view(&self) -> ReplyView {
        match self {
            BranchReply::Failed => ReplyView::Failed,
            BranchReply::Missing => ReplyView::Missing,
            BranchReply::Found { memory, related } => ReplyView::Found {
                memory: memory@,
                related: result_views(related@),
            },
        }
    }
}

/// The views of a sequence of replies, in order.
pub open spec fn reply_views(replies: Seq<BranchReply>) -> Seq<ReplyView> {
    replies.map_values(|r: BranchReply| r@)
}

/// Whether a candidate may stay in the branch of a memory with `branch_tags`.
pub open spec fn passes(
    config: TreeSearchConfig,
    branch_tags: Seq<Seq<char>>,
    candidate: ResultView,
) -> bool {
    config.require_tag_overlap ==> shares_tag(candidate.tags, branch_tags)
}

/// [`passes`] as a predicate on candidates.
pub open spec fn passing(config: TreeSearchConfig, branch_tags: Seq<Seq<char>>) -> spec_fn(
    ResultView,
) -> bool {
    |candidate: ResultView| passes(config, branch_tags, candidate)
}

/// The first `most` items of `items`, or all of them if there are fewer.
pub open spec fn truncated<T>(items: Seq<T>, most: nat) -> Seq<T> {
    if most < items.len() {
        items.take(most as int)
    } else {
        items
    }
}

/// What one branch offers: of what the query returned, in its order, the
/// candidates that pass the tag filter, cut to the branch limit.
pub open spec fn selected(
    config: TreeSearchConfig,
    branch_tags: Seq<Seq<char>>,
    related: Seq<ResultView>,
) -> Seq<ResultView> {
    truncated(related.filter(passing(config, branch_tags)), config.branch_limit as nat)
}

/// What the branch behind `reply` offers: nothing unless a memory was found.
pub open spec fn branch_candidates(config: TreeSearchConfig, reply: ReplyView) -> Seq<ResultView> {
    match reply {
        ReplyView::Found { memory, related } => selected(config, memory.tags, related),
        _ => Seq::empty(),
    }
}

/// Every candidate a branch offers came back from its query and, where tag
/// overlap is required, shares a tag with the branch's memory; a branch
/// offers no more than the branch limit.
pub proof fn lemma_selected(
    config: TreeSearchConfig,
    branch_tags: Seq<Seq<char>>,
    related: Seq<ResultView>,
)
    ensures
        selected(config, branch_tags, related).len() <= config.branch_limit,
        selected(config, branch_tags, related).len() <= related.len(),
        forall|k: int|
            0 <= k < selected(config, branch_tags, related).len() ==> {
                let c = #[trigger] selected(config, branch_tags, related)[k];
                &&& related.contains(c)
                &&& passes(config, branch_tags, c)
            },
{
    let pred = passing(config, branch_tags);
    let kept = related.filter(pred);
    let out = selected(config, branch_tags, related);
    related.lemma_filter_len(pred);
    assert forall|k: int| 0 <= k < out.len() implies {
        let c = #[trigger] out[k];
        &&& related.contains(c)
        &&& passes(config, branch_tags, c)
    } by {
        assert(out[k] == kept[k]);
        related.lemma_filter_pred(pred, k);
        assert(kept.contains(kept[k]));
        related.lemma_filter_contains_rev(pred, kept[k]);
    }
}

/// Chooses what a branch offers from what its query returned.
pub fn select_branch(config: &TreeSearchConfig, memory: &Memory, related: Vec<QueryResult>) -> (kept:
    Vec<QueryResult>)
    ensures
        result_views(kept@) == selected(*config, memory@.tags, result_views(related@)),
{
    let mut kept: Vec<QueryResult> = Vec::new();
    let ghost whole = related@;
    let ghost offered = result_views(related@);
    let ghost pred = passing(*config, memory@.tags);
    assert(offered.take(0) =~= Seq::<ResultView>::empty());
    assert(Seq::<ResultView>::empty().filter(pred) =~= Seq::<ResultView>::empty()) by {
        Seq::<ResultView>::empty().lemma_filter_len(pred);
    }
    for candidate in it: related
        invariant
            it.seq() == whole,
            offered == result_views(whole),
            pred == passing(*config, memory@.tags),
            result_views(kept@) == offered.take(it.index() as int).filter(pred),
    {
        let ghost before = result_views(kept@);
        let ghost seen = offered.take(it.index() as int);
        assert(offered.take(it.index() + 1) =~= seen.push(candidate@));
        proof {
            seen.lemma_filter_push(candidate@, pred);
        }
        if !config.require_tag_overlap || tags_overlap(&candidate.tags, &memory.tags) {
            assert(pred(candidate@));
            kept.push(candidate);
            assert(result_views(kept@) =~= before.push(candidate@));
        } else {
            assert(!pred(candidate@));
        }
    }
    assert(offered.take(offered.len() as int) =~= offered);
    let ghost filtered = result_views(kept@);
    kept.truncate(config.branch_limit);
    assert(result_views(kept@) =~= truncated(filtered, config.branch_limit as nat));
    kept
}

/// The trace after the answers of one whole layer were merged, branch by
/// branch in the order of the nodes they were asked for, the first of which
/// stands at `first_parent`.
pub open spec fn absorb_layer(
    trace: Seq<Step>,
    replies: Seq<ReplyView>,
    first_parent: int,
    layer: nat,
    config: TreeSearchConfig,
) -> Seq<Step>
    decreases replies.len(),
{
    if replies.len() == 0 {
        trace
    } else {
        absorb_layer(
            absorb(
                trace,
                branch_candidates(config, replies[0]),
                Some(first_parent),
                layer,
                Some(config.max_nodes as nat),
            ),
            replies.drop_first(),
            first_parent + 1,
            layer,
            config,
        )
    }
}

/// What merging one layer does to a trace: it only appends; each new node
/// lies in the new layer, under one of the nodes asked for, and was offered
/// by that node's branch; parents come in the order they were asked;
/// identifiers stay distinct; and the trace does not grow past the budget.
pub proof fn lemma_absorb_layer(
    trace: Seq<Step>,
    replies: Seq<ReplyView>,
    first_parent: int,
    layer: nat,
    config: TreeSearchConfig,
)
    ensures
        ({
            let out = absorb_layer(trace, replies, first_parent, layer, config);
            &&& trace.len() <= out.len()
            &&& out.take(trace.len() as int) == trace
            &&& forall|i: int|
                trace.len() <= i < out.len() ==> {
                    &&& (#[trigger] out[i]).layer == layer
                    &&& out[i].parent matches Some(p)
                    &&& first_parent <= p < first_parent + replies.len()
                    &&& branch_candidates(config, replies[p - first_parent]).contains(out[i].result)
                    &&& !knows(trace, out[i].result.id)
                }
            &&& forall|i: int, j: int|
                trace.len() <= i <= j < out.len() ==> (#[trigger] out[i]).parent->0 <= (
                #[trigger] out[j]).parent->0
            &&& forall|i: int, j: int|
                trace.len() <= i <= j < out.len() && (#[trigger] out[i]).parent == (
                #[trigger] out[j]).parent ==> j - i < config.branch_limit
            &&& distinct_ids(trace) ==> distinct_ids(out)
            &&& out.len() <= config.max_nodes || out.len() == trace.len()
        }),
    decreases replies.len(),
{
    let out = absorb_layer(trace, replies, first_parent, layer, config);
    if replies.len() == 0 {
        assert(out.take(trace.len() as int) =~= trace);
    } else {
        let offered = branch_candidates(config, replies[0]);
        let mid = absorb(trace, offered, Some(first_parent), layer, Some(config.max_nodes as nat));
        let rest = replies.drop_first();
        lemma_absorb(trace, offered, Some(first_parent), layer, Some(config.max_nodes as nat));
        lemma_absorb_layer(mid, rest, first_parent + 1, layer, config);
        assert(offered.len() <= config.branch_limit) by {
            match replies[0] {
                ReplyView::Found { memory, related } => {
                    lemma_selected(config, memory.tags, related);
                },
                _ => {},
            }
        }
        assert forall|i: int, j: int|
            trace.len() <= i <= j < out.len() && (#[trigger] out[i]).parent == (
            #[trigger] out[j]).parent implies j - i < config.branch_limit by {
            if i < mid.len() {
                assert(out.take(mid.len() as int)[i] == mid[i]);
            }
            if j < mid.len() {
                assert(out.take(mid.len() as int)[j] == mid[j]);
            }
        }
        assert forall|k: int| 0 <= k < mid.len() implies out[k] == mid[k] by {
            assert(out.take(mid.len() as int)[k] == mid[k]);
        }
        assert(out.take(trace.len() as int) =~= trace) by {
            assert forall|k: int| 0 <= k < trace.len() implies out[k] == trace[k] by {
                assert(mid.take(trace.len() as int)[k] == trace[k]);
            }
        }
        assert forall|i: int| trace.len() <= i < out.len() implies {
            &&& (#[trigger] out[i]).layer == layer
            &&& out[i].parent matches Some(p)
            &&& first_parent <= p < first_parent + replies.len()
            &&& branch_candidates(config, replies[p - first_parent]).contains(out[i].result)
            &&& !knows(trace, out[i].result.id)
        } by {
            if i < mid.len() {
                assert(out[i] == mid[i]);
            } else {
                let p = out[i].parent->0;
                assert(rest[p - (first_parent + 1)] == replies[p - first_parent]);
                if knows(trace, out[i].result.id) {
                    let w = choose|w: int|
                        0 <= w < trace.len() && (#[trigger] trace[w]).result.id == out[i].result.id;
                    assert(mid.take(trace.len() as int)[w] == trace[w]);
                    assert(knows(mid, out[i].result.id));
                }
            }
        }
        assert forall|i: int, j: int| trace.len() <= i <= j < out.len() implies (#[trigger] out[i]).parent->0
            <= (#[trigger] out[j]).parent->0 by {
            if i < mid.len() {
                assert(out[i] == mid[i]);
            }
            if j < mid.len() {
                assert(out[j] == mid[j]);
            }
        }
    }
}

/// After candidates were offered, either the budget is used up or every
/// one of them is known, whether it was accepted now or before.
pub proof fn lemma_absorb_settles(
    trace: Seq<Step>,
    candidates: Seq<ResultView>,
    parent: Option<int>,
    layer: nat,
    budget: Option<nat>,
)
    ensures
        ({
            let out = absorb(trace, candidates, parent, layer, budget);
            (budget matches Some(most) && out.len() >= most) || forall|k: int|
                0 <= k < candidates.len() ==> knows(out, (#[trigger] candidates[k]).id)
        }),
    decreases candidates.len(),
{
    let out = absorb(trace, candidates, parent, layer, budget);
    if candidates.len() == 0 || (budget matches Some(most) && trace.len() >= most) {
    } else {
        let first = candidates[0];
        let rest = candidates.drop_first();
        let grown = if knows(trace, first.id) {
            trace
        } else {
            trace.push(Step { result: first, layer, parent })
        };
        lemma_absorb_settles(grown, rest, parent, layer, budget);
        lemma_absorb(grown, rest, parent, layer, budget);
        if !(budget matches Some(most) && out.len() >= most) {
            assert forall|k: int| 0 <= k < candidates.len() implies knows(
                out,
                (#[trigger] candidates[k]).id,
            ) by {
                if k == 0 {
                    assert(knows(grown, first.id)) by {
                        if !knows(trace, first.id) {
                            assert(grown[trace.len() as int].result.id == first.id);
                        }
                    }
                    let w = choose|w: int|
                        0 <= w < grown.len() && (#[trigger] grown[w]).result.id == first.id;
                    assert(out.take(grown.len() as int)[w] == grown[w]);
                    assert(out[w].result.id == first.id);
                } else {
                    assert(candidates[k] == rest[k - 1]);
                }
            }
        }
    }
}

/// The first offer wins. Where two branches of one layer offer the same
/// identifier, it is accepted under the branch that was asked for first: a
/// node accepted under one parent was offered by no branch before it.
pub proof fn lemma_first_offer_wins(
    trace: Seq<Step>,
    replies: Seq<ReplyView>,
    first_parent: int,
    layer: nat,
    config: TreeSearchConfig,
)
    ensures
        ({
            let out = absorb_layer(trace, replies, first_parent, layer, config);
            forall|i: int, q: int, k: int|
                #![trigger out[i], branch_candidates(config, replies[q - first_parent])[k]]
                trace.len() <= i < out.len() && first_parent <= q < out[i].parent->0 && 0 <= k
                    < branch_candidates(config, replies[q - first_parent]).len()
                    ==> branch_candidates(config, replies[q - first_parent])[k].id
                    != out[i].result.id
        }),
    decreases replies.len(),
{
    let out = absorb_layer(trace, replies, first_parent, layer, config);
    if replies.len() > 0 {
        let offered = branch_candidates(config, replies[0]);
        let budget = Some(config.max_nodes as nat);
        let mid = absorb(trace, offered, Some(first_parent), layer, budget);
        let rest = replies.drop_first();
        lemma_absorb(trace, offered, Some(first_parent), layer, budget);
        lemma_absorb_settles(trace, offered, Some(first_parent), layer, budget);
        lemma_absorb_layer(mid, rest, first_parent + 1, layer, config);
        lemma_first_offer_wins(mid, rest, first_parent + 1, layer, config);
        assert forall|i: int, q: int, k: int|
            #![trigger out[i], branch_candidates(config, replies[q - first_parent])[k]]
            trace.len() <= i < out.len() && first_parent <= q < out[i].parent->0 && 0 <= k
                < branch_candidates(config, replies[q - first_parent]).len() implies branch_candidates(
            config,
            replies[q - first_parent],
        )[k].id != out[i].result.id by {
            if i < mid.len() {
                assert(out.take(mid.len() as int)[i] == mid[i]);
            } else if q == first_parent {
                assert(!knows(mid, out[i].result.id));
                assert(out.len() > mid.len());
                assert(knows(mid, offered[k].id));
            } else {
                assert(rest[q - (first_parent + 1)] == replies[q - first_parent]);
                assert(branch_candidates(config, rest[q - (first_parent + 1)])[k].id
                    != out[i].result.id);
            }
        }
    }
}

/// The tags of the memories that nodes were expanded from, after the replies
/// of one more layer: what was known, and for each node that resolved to a
/// memory, that memory's tags.
pub open spec fn recorded(
    known: Map<int, Seq<Seq<char>>>,
    replies: Seq<ReplyView>,
    first_parent: int,
) -> Map<int, Seq<Seq<char>>> {
    Map::new(
        |p: int|
            known.dom().contains(p) || (first_parent <= p < first_parent + replies.len()
                && replies[p - first_parent] is Found),
        |p: int|
            if known.dom().contains(p) {
                known[p]
            } else {
                replies[p - first_parent]->memory.tags
            },
    )
}

/// Layers count from 1 up to `depth`; a node of the first layer has no
/// parent, any other was reached from an earlier node of the layer before.
pub open spec fn layered(trace: Seq<Step>, depth: nat) -> bool {
    forall|i: int|
        0 <= i < trace.len() ==> {
            &&& 1 <= (#[trigger] trace[i]).layer <= depth
            &&& match trace[i].parent {
                None => trace[i].layer == 1,
                Some(p) => 0 <= p < i && trace[p].layer + 1 == trace[i].layer,
            }
        }
}

/// Nodes stand in the order of their layers.
pub open spec fn breadth_first(trace: Seq<Step>) -> bool {
    forall|i: int, j: int|
        0 <= i <= j < trace.len() ==> (#[trigger] trace[i]).layer <= (#[trigger] trace[j]).layer
}

/// The nodes from `frontier` on are exactly those of the deepest layer.
pub open spec fn newest_from(trace: Seq<Step>, frontier: nat, depth: nat) -> bool {
    forall|i: int| 0 <= i < trace.len() ==> (i >= frontier <==> (#[trigger] trace[i]).layer == depth)
}

/// The trace holds no more than `max_nodes` nodes, unless the first layer
/// alone, which is accepted whole, holds more.
pub open spec fn within_budget(trace: Seq<Step>, max_nodes: nat) -> bool {
    trace.len() <= max_nodes || forall|i: int| 0 <= i < trace.len() ==> (#[trigger] trace[i]).layer == 1
}

/// Every node with a parent passed the tag filter against the memory that
/// its parent resolved to; only nodes before `frontier` have been resolved.
pub open spec fn tags_recorded(
    trace: Seq<Step>,
    frontier: nat,
    config: TreeSearchConfig,
    branch_tags: Map<int, Seq<Seq<char>>>,
) -> bool {
    &&& forall|p: int| branch_tags.dom().contains(p) ==> 0 <= p < frontier
    &&& forall|i: int|
        0 <= i < trace.len() ==> ((#[trigger] trace[i]).parent matches Some(p) ==> {
            &&& branch_tags.dom().contains(p)
            &&& passes(config, branch_tags[p], trace[i].result)
        })
}

/// No node has more than `limit` children: the nodes reached from one
/// node stand within `limit` places of each other.
pub open spec fn fanout_bounded(trace: Seq<Step>, limit: nat) -> bool {
    forall|i: int, j: int|
        0 <= i <= j < trace.len() && (#[trigger] trace[i]).parent is Some && trace[i].parent == (
        #[trigger] trace[j]).parent ==> j - i < limit
}

/// What holds of the trace of every search, after `depth` layers, the last
/// of which starts at `frontier`.
pub open spec fn orderly(
    trace: Seq<Step>,
    frontier: nat,
    depth: nat,
    config: TreeSearchConfig,
    branch_tags: Map<int, Seq<Seq<char>>>,
) -> bool {
    &&& frontier <= trace.len()
    &&& depth == 0 ==> trace.len() == 0
    &&& distinct_ids(trace)
    &&& layered(trace, depth)
    &&& breadth_first(trace)
    &&& newest_from(trace, frontier, depth)
    &&& within_budget(trace, config.max_nodes as nat)
    &&& fanout_bounded(trace, config.branch_limit as nat)
    &&& tags_recorded(trace, frontier, config, branch_tags)
}

/// The first layer, accepted whole into an empty trace, gives an orderly
/// trace of depth 1.
pub proof fn lemma_first_layer_orderly(results: Seq<ResultView>, config: TreeSearchConfig)
    ensures
        orderly(
            absorb(Seq::empty(), results, None, 1, None),
            0,
            1,
            config,
            Map::empty(),
        ),
{
    lemma_absorb(Seq::empty(), results, None, 1, None);
}

/// Merging the replies of one more layer into an orderly trace that is
/// still under its budget gives an orderly trace, one layer deeper, whose
/// newest layer starts where the old trace ended.
pub proof fn lemma_layer_orderly(
    trace: Seq<Step>,
    replies: Seq<ReplyView>,
    frontier: nat,
    depth: nat,
    config: TreeSearchConfig,
    known: Map<int, Seq<Seq<char>>>,
)
    requires
        orderly(trace, frontier, depth, config, known),
        depth >= 1,
        frontier + replies.len() == trace.len(),
        trace.len() <= config.max_nodes,
    ensures
        orderly(
            absorb_layer(trace, replies, frontier as int, depth + 1, config),
            trace.len(),
            depth + 1,
            config,
            recorded(known, replies, frontier as int),
        ),
{
    let out = absorb_layer(trace, replies, frontier as int, depth + 1, config);
    let tags = recorded(known, replies, frontier as int);
    lemma_absorb_layer(trace, replies, frontier as int, depth + 1, config);
    assert forall|k: int| 0 <= k < trace.len() implies out[k] == trace[k] by {
        assert(out.take(trace.len() as int)[k] == trace[k]);
    }
    assert forall|i: int| 0 <= i < out.len() implies {
        &&& 1 <= (#[trigger] out[i]).layer <= depth + 1
        &&& match out[i].parent {
            None => out[i].layer == 1,
            Some(p) => 0 <= p < i && out[p].layer + 1 == out[i].layer,
        }
    } by {
        if i < trace.len() {
            assert(out[i] == trace[i]);
            if let Some(p) = trace[i].parent {
                assert(out[p] == trace[p]);
            }
        } else {
            let p = out[i].parent->0;
            assert(out[p] == trace[p]);
        }
    }
    assert(breadth_first(out)) by {
        assert forall|i: int, j: int| 0 <= i <= j < out.len() implies (#[trigger] out[i]).layer <= (
        #[trigger] out[j]).layer by {
            if j < trace.len() {
                assert(out[i] == trace[i] && out[j] == trace[j]);
            } else if i < trace.len() {
                assert(out[i] == trace[i]);
            }
        }
    }
    assert(newest_from(out, trace.len(), depth + 1)) by {
        assert forall|i: int| 0 <= i < out.len() implies (i >= trace.len() <==> (#[trigger] out[i]).layer
            == depth + 1) by {
            if i < trace.len() {
                assert(out[i] == trace[i]);
            }
        }
    }
    assert(within_budget(out, config.max_nodes as nat)) by {
        if out.len() == trace.len() {
            assert(out =~= trace);
        }
    }
    assert(fanout_bounded(out, config.branch_limit as nat)) by {
        assert forall|i: int, j: int|
            0 <= i <= j < out.len() && (#[trigger] out[i]).parent is Some && out[i].parent == (
            #[trigger] out[j]).parent implies j - i < config.branch_limit by {
            if j < trace.len() {
                assert(out[i] == trace[i] && out[j] == trace[j]);
            } else if i < trace.len() {
                assert(out[i] == trace[i]);
                let p = trace[i].parent->0;
                assert(trace[p].layer + 1 == trace[i].layer);
            }
        }
    }
    assert(tags_recorded(out, trace.len(), config, tags)) by {
        assert forall|i: int| 0 <= i < out.len() implies ((#[trigger] out[i]).parent matches Some(p)
            ==> {
            &&& tags.dom().contains(p)
            &&& passes(config, tags[p], out[i].result)
        }) by {
            if i < trace.len() {
                assert(out[i] == trace[i]);
            } else {
                let p = out[i].parent->0;
                let reply = replies[p - frontier];
                assert(branch_candidates(config, reply).contains(out[i].result));
                match reply {
                    ReplyView::Found { memory, related } => {
                        lemma_selected(config, memory.tags, related);
                        assert(!known.dom().contains(p));
                    },
                    _ => {},
                }
            }
        }
    }
}

} // verus!
