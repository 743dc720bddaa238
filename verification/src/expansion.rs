//! The expansion engine: a neighbourhood of memories grown layer by layer
//! from a query vector, thresholds tightening with depth.
//!
//! The engine never talks to a store itself. It says what to ask
//! ([`Expansion::first_request`], [`Expansion::branch_request`]) and takes
//! the answers ([`Expansion::accept_first_layer`], [`Expansion::merge_layer`]).
//! Whoever drives it may put the questions of one layer concurrently: all
//! answers of a layer are merged in one step, in the order of the nodes
//! they were asked for, so the outcome does not depend on scheduling.

use crate::models::{result_views, Memory, MemoryView, QueryResult, ResultView};
use crate::schedule::{ints, TreeSearchConfig};
use crate::tags::shares_tag;
use crate::time_filter::TimeRange;
use crate::trace::{
    absorb, absorb_into, absorb_layer, lemma_absorb, lemma_first_layer_orderly,
    lemma_layer_orderly, orderly, recorded, reply_views, select_branch, steps, BranchReply,
    ReplyView, Step, TraceNode,
};
use crate::tree::{
    build_tree, flat_of, ids_of, lemma_children_in_window, lemma_tree_matches_flat,
    lemma_tree_matches_flat_ids, parents_precede, preorder, subtree_children, tree_of, MemoryTree,
};
use vstd::prelude::*;

verus! {

/// One question to the vector store: the nearest neighbours of `vector`, at
/// most `limit` of them, none less similar than `min_score`, all inside
/// `time_range`.
#[derive(Debug, PartialEq, Eq)]
pub struct SearchRequest {
    /// Components as bit patterns of single-precision numbers.
    pub vector: Vec<u32>,
    pub limit: usize,
    /// In millionths.
    pub min_score: i64,
    pub time_range: Option<TimeRange>,
}

/// A [`SearchRequest`] as plain mathematical values.
pub struct RequestView {
    pub vector: Seq<u32>,
    pub limit: usize,
    pub min_score: i64,
    pub time_range: Option<TimeRange>,
}

impl View for SearchRequest {
    type V = RequestView;

    open spec fn view(&self) -> RequestView {
        RequestView {
            vector: self.vector@,
            limit: self.limit,
            min_score: self.min_score,
            time_range: self.time_range,
        }
    }
}

/// The question that opens a search with these settings: the neighbours of
/// the query vector at the first threshold, as many as one branch may hold.
pub open spec fn opening_request(
    config: TreeSearchConfig,
    seed: Seq<u32>,
    time_range: Option<TimeRange>,
) -> RequestView {
    RequestView {
        vector: seed,
        limit: config.branch_limit,
        min_score: config.first_threshold,
        time_range,
    }
}

/// The question of a branch of the layer that follows `depth` merged
/// layers, for a node that resolved to `memory`: the neighbours of the
/// memory's own vector at that layer's threshold, twice as many as the
/// branch may hold.
pub open spec fn branch_question(
    config: TreeSearchConfig,
    depth: nat,
    time_range: Option<TimeRange>,
    memory: MemoryView,
) -> RequestView {
    RequestView {
        vector: memory.vector,
        limit: doubled(config.branch_limit),
        min_score: config.thresholds()[depth as int] as i64,
        time_range,
    }
}

/// How many neighbours a branch asks for: twice what it may hold, as far
/// as the machine can count.
pub open spec fn doubled(branch_limit: usize) -> usize {
    if 2 * branch_limit <= usize::MAX {
        (2 * branch_limit) as usize
    } else {
        usize::MAX
    }
}

/// How many layers a configuration allows at most.
pub open spec fn max_layers(config: TreeSearchConfig) -> nat {
    if config.thresholds().len() <= config.max_depth {
        config.thresholds().len()
    } else {
        config.max_depth as nat
    }
}

/// A search in progress, or finished: its settings, and the trace of what
/// it has accepted so far.
pub struct Expansion {
    config: TreeSearchConfig,
    time_range: Option<TimeRange>,
    thresholds: Vec<i64>,
    nodes: Vec<TraceNode>,
    frontier_start: usize,
    layers_done: usize,
    branch_tags: Ghost<Map<int, Seq<Seq<char>>>>,
}

impl Expansion {
    /// The settings of the search.
    pub closed spec fn config(&self) -> TreeSearchConfig {
        self.config
    }

    /// The time filter of the search.
    pub closed spec fn time_range(&self) -> Option<TimeRange> {
        self.time_range
    }

    /// The accepted nodes, in the order they were first seen.
    pub closed spec fn trace(&self) -> Seq<Step> {
        steps(self.nodes@)
    }

    /// How many layers have been merged.
    pub closed spec fn depth(&self) -> nat {
        self.layers_done as nat
    }

    /// Where in the trace the most recent layer starts.
    pub closed spec fn frontier_start(&self) -> nat {
        self.frontier_start as nat
    }

    /// For each node that was expanded from a memory the store found, the
    /// tags of that memory.
    pub closed spec fn branch_tags(&self) -> Map<int, Seq<Seq<char>>> {
        self.branch_tags@
    }

    /// The stored thresholds are those of the settings.
    pub closed spec fn coherent(&self) -> bool {
        ints(self.thresholds@) == self.config.thresholds()
    }

    /// The invariant of a search.
    pub open spec fn wf(&self) -> bool {
        &&& self.coherent()
        &&& self.depth() <= 1 || self.depth() <= max_layers(self.config())
        &&& orderly(
            self.trace(),
            self.frontier_start(),
            self.depth(),
            self.config(),
            self.branch_tags(),
        )
    }

    /// Whether another layer is due: the first layer has been merged, the
    /// settings allow a deeper one, the budget is not used up, and the last
    /// layer accepted something.
    pub open spec fn wants_layer_spec(&self) -> bool {
        &&& 1 <= self.depth() < max_layers(self.config())
        &&& self.trace().len() < self.config().max_nodes
        &&& self.frontier_start() < self.trace().len()
    }

    /// The identifiers of the nodes of the most recent layer, in order.
    pub open spec fn frontier_ids_spec(&self) -> Seq<Seq<char>> {
        self.trace().skip(self.frontier_start() as int).map_values(|s: Step| s.result.id)
    }

    /// A search that has asked nothing yet.
    pub fn begin(config: TreeSearchConfig, time_range: Option<TimeRange>) -> (search: Expansion)
        ensures
            search.wf(),
            search.config() == config,
            search.time_range() == time_range,
            search.trace() == Seq::<Step>::empty(),
            search.depth() == 0,
            search.branch_tags() == Map::<int, Seq<Seq<char>>>::empty(),
    {
        let thresholds = config.generate_thresholds();
        let search = Expansion {
            config,
            time_range,
            thresholds,
            nodes: Vec::new(),
            frontier_start: 0,
            layers_done: 0,
            branch_tags: Ghost(Map::empty()),
        };
        assert(search.trace() =~= Seq::<Step>::empty());
        search
    }

    /// The question that opens the search: the neighbours of the query
    /// vector at the first threshold, as many as one branch may hold.
    pub fn first_request(&self, seed: Vec<u32>) -> (request: SearchRequest)
        requires
            self.wf(),
        ensures
            request@ == opening_request(self.config(), seed@, self.time_range()),
            request.vector@ == seed@,
            request.limit == self.config().branch_limit,
            request.min_score == self.config().first_threshold,
            request.time_range == self.time_range(),
    {
        SearchRequest {
            vector: seed,
            limit: self.config.branch_limit,
            min_score: self.config.first_threshold,
            time_range: self.time_range,
        }
    }

    /// Takes the answer to the first question: every result is accepted as
    /// a node of layer 1, but for a repeated identifier.
    pub fn accept_first_layer(&mut self, results: Vec<QueryResult>)
        requires
            old(self).wf(),
            old(self).depth() == 0,
        ensures
            final(self).wf(),
            final(self).trace() == absorb(Seq::empty(), result_views(results@), None, 1, None),
            final(self).depth() == 1,
            final(self).frontier_start() == 0,
            final(self).config() == old(self).config(),
            final(self).time_range() == old(self).time_range(),
            final(self).branch_tags() == Map::<int, Seq<Seq<char>>>::empty(),
    {
        assert(steps(self.nodes@) =~= Seq::<Step>::empty());
        absorb_into(&mut self.nodes, results, None, 1, None);
        self.frontier_start = 0;
        self.layers_done = 1;
        self.branch_tags = Ghost(Map::empty());
        proof {
            lemma_first_layer_orderly(result_views(results@), self.config);
        }
    }

    /// Whether another layer is due.
    #[verifier::when_used_as_spec(wants_layer_spec)]
    pub fn wants_layer(&self) -> (due: bool)
        requires
            self.wf(),
        ensures
            due == self.wants_layer_spec(),
    {
        let allowed = if self.thresholds.len() <= self.config.max_depth {
            self.thresholds.len()
        } else {
            self.config.max_depth
        };
        assert(self.thresholds@.len() == ints(self.thresholds@).len());
        1 <= self.layers_done && self.layers_done < allowed && self.nodes.len()
            < self.config.max_nodes && self.frontier_start < self.nodes.len()
    }

    /// The identifiers to look up for the next layer: those of the nodes
    /// accepted in the most recent one, in order.
    pub fn frontier_ids(&self) -> (ids: Vec<String>)
        requires
            self.wf(),
        ensures
            ids.deep_view() == self.frontier_ids_spec(),
    {
        let mut ids: Vec<String> = Vec::new();
        let mut i: usize = self.frontier_start;
        let ghost wanted = self.frontier_ids_spec();
        while i < self.nodes.len()
            invariant
                self.frontier_start <= i <= self.nodes.len(),
                wanted == self.frontier_ids_spec(),
                ids.deep_view() == wanted.take(i - self.frontier_start),
            decreases self.nodes.len() - i,
        {
            let ghost before = ids.deep_view();
            ids.push(self.nodes[i].result.id.clone());
            assert(ids.deep_view() =~= before.push(self.nodes[i as int].result.id@));
            assert(wanted[i - self.frontier_start] == self.nodes[i as int].result.id@);
            assert(wanted.take(i + 1 - self.frontier_start) =~= before.push(
                self.nodes[i as int].result.id@,
            ));
            i += 1;
        }
        assert(wanted.take(wanted.len() as int) =~= wanted);
        ids
    }

    /// The question of one branch of the next layer, given what the lookup
    /// of its node returned: none where the store holds no such memory;
    /// else the neighbours of that memory's own vector at the next layer's
    /// threshold, twice as many as the branch may hold, since the tag filter
    /// may drop some.
    pub fn branch_request(&self, lookup: &Option<Memory>) -> (request: Option<SearchRequest>)
        requires
            self.wf(),
            self.wants_layer_spec(),
        ensures
            lookup is None <==> request is None,
            request matches Some(asked) ==> {
                &&& asked@ == branch_question(
                    self.config(),
                    self.depth(),
                    self.time_range(),
                    lookup->0@,
                )
                &&& asked.vector@ == lookup->0.vector@
                &&& asked.limit == doubled(self.config().branch_limit)
                &&& asked.min_score == self.config().thresholds()[self.depth() as int]
                &&& asked.time_range == self.time_range()
            },
    {
        match lookup {
            None => None,
            Some(memory) => {
                assert(self.thresholds@.len() == ints(self.thresholds@).len());
                assert(ints(self.thresholds@)[self.layers_done as int]
                    == self.thresholds@[self.layers_done as int]);
                let limit = match self.config.branch_limit.checked_mul(2) {
                    Some(twice) => twice,
                    None => usize::MAX,
                };
                Some(
                    SearchRequest {
                        vector: memory.vector.clone(),
                        limit,
                        min_score: self.thresholds[self.layers_done],
                        time_range: self.time_range,
                    },
                )
            },
        }
    }

    /// Merges the answers of one layer, `replies[k]` being the answer for
    /// the `k`-th identifier of [`Expansion::frontier_ids`]. Each branch
    /// offers what passes the tag filter, cut to the branch limit; offers
    /// are taken branch by branch, a known identifier is passed over, and
    /// nothing is taken once the budget is reached.
    pub fn merge_layer(&mut self, replies: Vec<BranchReply>)
        requires
            old(self).wf(),
            old(self).wants_layer_spec(),
            replies.len() == old(self).trace().len() - old(self).frontier_start(),
        ensures
            final(self).wf(),
            final(self).trace() == absorb_layer(
                old(self).trace(),
                reply_views(replies@),
                old(self).frontier_start() as int,
                old(self).depth() + 1,
                old(self).config(),
            ),
            final(self).depth() == old(self).depth() + 1,
            final(self).frontier_start() == old(self).trace().len(),
            final(self).config() == old(self).config(),
            final(self).time_range() == old(self).time_range(),
            final(self).branch_tags() == recorded(
                old(self).branch_tags(),
                reply_views(replies@),
                old(self).frontier_start() as int,
            ),
    {
        let layer: usize = self.layers_done + 1;
        let grown_from: usize = self.nodes.len();
        let first: usize = self.frontier_start;
        let budget: usize = self.config.max_nodes;
        let ghost start = steps(self.nodes@);
        let ghost known = self.branch_tags@;
        let ghost whole = replies@;
        let ghost answers = reply_views(replies@);
        let ghost config = self.config;
        let mut parent: usize = first;
        assert(answers.skip(0) =~= answers);
        for reply in it: replies
            invariant
                it.seq() == whole,
                answers == reply_views(whole),
                first + whole.len() == grown_from,
                parent == first + it.index(),
                absorb_layer(
                    steps(self.nodes@),
                    answers.skip(it.index() as int),
                    parent as int,
                    layer as nat,
                    config,
                ) == absorb_layer(start, answers, first as int, layer as nat, config),
                self.config == config,
                budget == config.max_nodes,
                self.time_range == old(self).time_range,
                self.thresholds == old(self).thresholds,
                self.frontier_start == first,
                self.layers_done == old(self).layers_done,
                self.branch_tags@ == known,
        {
            let ghost rest = answers.skip(it.index() as int);
            assert(rest[0] == reply@);
            assert(rest.drop_first() =~= answers.skip(it.index() + 1));
            match reply {
                BranchReply::Found { memory, related } => {
                    let candidates = select_branch(&self.config, &memory, related);
                    absorb_into(&mut self.nodes, candidates, Some(parent), layer, Some(budget));
                },
                _ => {},
            }
            parent = parent + 1;
        }
        assert(answers.skip(answers.len() as int) =~= Seq::<ReplyView>::empty());
        self.frontier_start = grown_from;
        self.layers_done = layer;
        self.branch_tags = Ghost(recorded(known, answers, first as int));
        proof {
            lemma_layer_orderly(start, answers, first as nat, old(self).depth(), config, known);
        }
    }

    /// The flat view of the search: every accepted result once, in the
    /// order the results were first seen.
    pub fn flat(&self) -> (candidates: Vec<QueryResult>)
        ensures
            result_views(candidates@) == flat_of(self.trace()),
    {
        let mut candidates: Vec<QueryResult> = Vec::new();
        let mut i: usize = 0;
        while i < self.nodes.len()
            invariant
                i <= self.nodes.len(),
                result_views(candidates@) == flat_of(self.trace()).take(i as int),
            decreases self.nodes.len() - i,
        {
            let ghost before = result_views(candidates@);
            candidates.push(self.nodes[i].result.clone());
            assert(result_views(candidates@) =~= before.push(self.nodes[i as int].result@));
            assert(flat_of(self.trace()).take(i + 1) =~= before.push(
                self.nodes[i as int].result@,
            ));
            i += 1;
        }
        assert(flat_of(self.trace()).take(self.nodes.len() as int) =~= flat_of(self.trace()));
        candidates
    }

    /// The tree view of the search: the nodes of the first layer under a
    /// root that holds no memory, every other node under the node whose
    /// branch discovered it. It holds the memories of the flat view, each
    /// as often.
    pub fn tree(&self) -> (tree: MemoryTree)
        requires
            self.wf(),
        ensures
            tree@ == tree_of(self.trace()),
            preorder(tree@.root).to_multiset() == flat_of(self.trace()).to_multiset(),
            tree.total_nodes == self.trace().len(),
    {
        assert(parents_precede(self.trace()));
        proof {
            lemma_tree_matches_flat(self.trace());
        }
        build_tree(&self.nodes)
    }

    /// No identifier is accepted twice: the flat view of a search never
    /// holds two results with the same identifier.
    pub proof fn lemma_no_identifier_twice(&self)
        requires
            self.wf(),
        ensures
            forall|i: int, j: int|
                0 <= i < j < flat_of(self.trace()).len() ==> (#[trigger] flat_of(self.trace())[i]).id
                    != (#[trigger] flat_of(self.trace())[j]).id,
    {
        assert forall|i: int, j: int| 0 <= i < j < flat_of(self.trace()).len() implies (
        #[trigger] flat_of(self.trace())[i]).id != (#[trigger] flat_of(self.trace())[j]).id by {
            assert(self.trace()[i].result.id != self.trace()[j].result.id);
        }
    }

    /// The budget holds beyond the first layer: a search that holds more
    /// than `max_nodes` nodes holds nothing but its first layer, which is
    /// accepted whole.
    pub proof fn lemma_budget(&self)
        requires
            self.wf(),
        ensures
            self.trace().len() <= self.config().max_nodes || forall|i: int|
                0 <= i < self.trace().len() ==> (#[trigger] self.trace()[i]).layer == 1,
    {
    }

    /// The budget holds: a search never holds more than `max_nodes` nodes,
    /// provided its first layer, which is accepted whole, did not by itself
    /// hold more.
    pub proof fn lemma_budget_kept(&self)
        requires
            self.wf(),
            forall|i: int|
                0 <= i < self.trace().len() && (#[trigger] self.trace()[i]).layer == 1 ==> i
                    < self.config().max_nodes,
        ensures
            self.trace().len() <= self.config().max_nodes,
    {
        if self.trace().len() > self.config().max_nodes {
            assert(self.trace()[self.config().max_nodes as int].layer == 1);
        }
    }

    /// The first layer holds no more nodes than the opening query returned,
    /// so a store that keeps to the limit it is given cannot break a budget
    /// of at least one branch's size.
    pub proof fn lemma_first_layer_size(results: Seq<ResultView>)
        ensures
            absorb(Seq::empty(), results, None, 1, None).len() <= results.len(),
    {
        lemma_absorb(Seq::empty(), results, None, 1, None);
    }

    /// Where tag overlap is required, every node beyond the first layer
    /// shares a tag with the memory that its parent resolved to when it was
    /// expanded.
    pub proof fn lemma_tags_overlap(&self, i: int)
        requires
            self.wf(),
            self.config().require_tag_overlap,
            0 <= i < self.trace().len(),
            self.trace()[i].layer >= 2,
        ensures
            self.trace()[i].parent is Some,
            self.branch_tags().dom().contains(self.trace()[i].parent->0),
            shares_tag(
                self.trace()[i].result.tags,
                self.branch_tags()[self.trace()[i].parent->0],
            ),
    {
    }

    /// Where tag overlap is required and the store is consistent, in that
    /// the memory a node resolves to carries the tags the node was found
    /// with, every node beyond the first layer shares a tag with its parent.
    pub proof fn lemma_children_share_parent_tags(&self, i: int)
        requires
            self.wf(),
            self.config().require_tag_overlap,
            forall|p: int|
                self.branch_tags().dom().contains(p) ==> #[trigger] self.branch_tags()[p]
                    == self.trace()[p].result.tags,
            0 <= i < self.trace().len(),
            self.trace()[i].layer >= 2,
        ensures
            self.trace()[i].parent matches Some(p) && 0 <= p < i && shares_tag(
                self.trace()[i].result.tags,
                self.trace()[p].result.tags,
            ),
    {
        self.lemma_tags_overlap(i);
    }

    /// No node has more children than one branch may hold: in the tree of
    /// a search, below the first layer, no more than `branch_limit` nodes
    /// hang under one node.
    pub proof fn lemma_fanout(&self, p: int)
        requires
            self.wf(),
            0 <= p < self.trace().len(),
        ensures
            subtree_children(self.trace(), p).len() <= self.config().branch_limit,
    {
        assert forall|j: int| 0 <= j < p + 1 && j < self.trace().len() implies (
        #[trigger] self.trace()[j]).parent != Some(p) by {}
        lemma_children_in_window(self.trace(), p, p + 1, self.config().branch_limit as nat);
    }

    /// A search comes to an end: each merge completes one more layer, and
    /// no layer is due beyond those the settings allow.
    pub proof fn lemma_layers_bounded(&self)
        requires
            self.wf(),
        ensures
            self.wants_layer_spec() ==> self.depth() < self.config().max_depth,
            self.depth() <= 1 || self.depth() <= self.config().max_depth,
    {
    }

    /// The tree of a search and its flat view hold the same identifiers,
    /// each as often.
    pub proof fn lemma_tree_and_flat_agree(&self)
        requires
            self.wf(),
        ensures
            preorder(tree_of(self.trace()).root).to_multiset() == flat_of(
                self.trace(),
            ).to_multiset(),
            ids_of(preorder(tree_of(self.trace()).root)).to_multiset() == ids_of(
                flat_of(self.trace()),
            ).to_multiset(),
    {
        assert(parents_precede(self.trace()));
        lemma_tree_matches_flat(self.trace());
        lemma_tree_matches_flat_ids(self.trace());
    }

    /// How many nodes have been accepted.
    pub fn total_nodes(&self) -> (count: usize)
        ensures
            count == self.trace().len(),
    {
        self.nodes.len()
    }

    /// How many layers have been merged.
    pub fn layers_completed(&self) -> (count: usize)
        ensures
            count == self.depth(),
    {
        self.layers_done
    }

    /// The accepted nodes with their layers and parents, in the order they
    /// were first seen.
    pub fn nodes(&self) -> (nodes: &Vec<TraceNode>)
        ensures
            steps(nodes@) == self.trace(),
    {
        &self.nodes
    }
}

} // verus!
