//! The vector store as the search sees it, and a search run against one
//! from the first question to the last merge.

use crate::expansion::{branch_question, max_layers, opening_request, Expansion, RequestView, SearchRequest};
use crate::models::{result_views, Memory, QueryResult, ResultView};
use crate::schedule::TreeSearchConfig;
use crate::time_filter::TimeRange;
use crate::trace::{absorb, absorb_layer, reply_views, truncated, BranchReply, ReplyView, Step};
use vstd::prelude::*;

verus! {

/// What the search needs of a store of memories. Nothing is assumed of an
/// implementation: whatever it returns, the search stays within its rules.
pub trait StorageBackend {
    /// Why a call failed.
    type Error;

    /// The memories nearest to `vector`, most similar first: at most
    /// `limit`, none below `min_score`, all inside `time_range`.
    fn search_by_vector(
        &self,
        vector: Vec<u32>,
        limit: usize,
        min_score: i64,
        time_range: Option<TimeRange>,
    ) -> Result<Vec<QueryResult>, Self::Error>;

    /// The memory with this identifier, if the store holds one.
    fn find_memory_by_id(&self, id: &str) -> Result<Option<Memory>, Self::Error>;
}

/// Whether a scored memory answers a query: it has a score, the score
/// reaches `min_score`, and its update time lies inside `time_range`.
pub open spec fn answers(hit: ResultView, min_score: i64, time_range: Option<TimeRange>) -> bool {
    &&& hit.score matches Some(score) && score >= min_score
    &&& time_range matches Some(range) ==> range.admits_spec(hit.updated_at)
}

/// [`answers`] as a predicate on scored memories.
pub open spec fn answering(min_score: i64, time_range: Option<TimeRange>) -> spec_fn(
    ResultView,
) -> bool {
    |hit: ResultView| answers(hit, min_score, time_range)
}

/// What a store returns for a query, given all its memories scored against
/// the query vector and ordered by score: those that reach the threshold
/// and lie inside the time filter, in their order, cut to the limit.
pub fn screen_hits(
    scored: Vec<QueryResult>,
    limit: usize,
    min_score: i64,
    time_range: Option<TimeRange>,
) -> (hits: Vec<QueryResult>)
    ensures
        result_views(hits@) == truncated(
            result_views(scored@).filter(answering(min_score, time_range)),
            limit as nat,
        ),
{
    let mut hits: Vec<QueryResult> = Vec::new();
    let ghost whole = scored@;
    let ghost offered = result_views(scored@);
    let ghost pred = answering(min_score, time_range);
    assert(offered.take(0) =~= Seq::<ResultView>::empty());
    assert(Seq::<ResultView>::empty().filter(pred) =~= Seq::<ResultView>::empty()) by {
        Seq::<ResultView>::empty().lemma_filter_len(pred);
    }
    for hit in it: scored
        invariant
            it.seq() == whole,
            offered == result_views(whole),
            pred == answering(min_score, time_range),
            result_views(hits@) == offered.take(it.index() as int).filter(pred),
    {
        let ghost before = result_views(hits@);
        let ghost seen = offered.take(it.index() as int);
        assert(offered.take(it.index() + 1) =~= seen.push(hit@));
        proof {
            seen.lemma_filter_push(hit@, pred);
        }
        let scored_enough = match hit.score {
            Some(score) => score >= min_score,
            None => false,
        };
        let in_time = match time_range {
            Some(range) => range.admits(hit.updated_at),
            None => true,
        };
        if scored_enough && in_time {
            assert(pred(hit@));
            hits.push(hit);
            assert(result_views(hits@) =~= before.push(hit@));
        } else {
            assert(!pred(hit@));
        }
    }
    assert(offered.take(offered.len() as int) =~= offered);
    let ghost filtered = result_views(hits@);
    hits.truncate(limit);
    assert(result_views(hits@) =~= truncated(filtered, limit as nat));
    hits
}

/// Asks the store for one branch of the next layer: looks the node up and,
/// if it resolves, queries from the memory's own vector. A failure of
/// either call is the branch's alone.
fn ask_branch<S: StorageBackend>(store: &S, search: &Expansion, id: &String) -> (reply:
    BranchReply)
    requires
        search.wf(),
        search.wants_layer_spec(),
    ensures
        branch_told(store, search.config(), search.depth(), search.time_range(), id@, reply),
{
    let resolved = resolve(store, id);
    match resolved {
        Err(_) => BranchReply::Failed,
        Ok(lookup) => {
            match search.branch_request(&lookup) {
                // nothing is asked from a node that resolves to nothing
                None => BranchReply::Missing,
                Some(request) => {
                    let answered = put_question(store, request);
                    match answered {
                        Err(_) => BranchReply::Failed,
                        Ok(related) => {
                            match lookup {
                                Some(memory) => BranchReply::Found { memory, related },
                                None => BranchReply::Missing,
                            }
                        },
                    }
                },
            }
        },
    }
}

/// Runs a whole search against `store`. It fails where the store fails the
/// opening question, with the store's fault, and nowhere else. Otherwise
/// each node of each layer is looked up and asked for its neighbours, and
/// the replies are merged layer by layer until no further layer is due. A
/// search whose opening question finds nothing ends with an empty trace.
pub fn expand<S: StorageBackend>(
    store: &S,
    seed: Vec<u32>,
    config: TreeSearchConfig,
    time_range: Option<TimeRange>,
) -> (outcome: Result<Expansion, S::Error>)
    ensures
        outcome matches Err(fault) ==> may_answer(
            store,
            opening_request(config, seed@, time_range),
            Err(fault),
        ),
        outcome matches Ok(search) ==> {
            &&& search.wf()
            &&& search.config() == config
            &&& search.time_range() == time_range
            &&& search.depth() >= 1
            &&& !search.wants_layer_spec()
            &&& explained(store, seed@, config, time_range, search)
        },
{
    let mut search = Expansion::begin(config, time_range);
    let opening = search.first_request(seed);
    let answered = put_question(store, opening);
    let first = match answered {
        Ok(results) => results,
        Err(error) => {
            return Err(error);
        },
    };
    let ghost opened = first;
    let ghost found = result_views(first@);
    search.accept_first_layer(first);
    let ghost mut history: Seq<Seq<BranchReply>> = Seq::empty();
    assert(layer_views(history) =~= Seq::<Seq<ReplyView>>::empty());
    while search.wants_layer()
        invariant
            search.wf(),
            search.config() == config,
            search.time_range() == time_range,
            search.depth() >= 1,
            found == result_views(opened@),
            explained_by(
                store,
                seed@,
                config,
                time_range,
                (search.trace(), search.frontier_start()),
                search.depth(),
                opened,
                history,
            ),
        decreases max_layers(config) - search.depth(),
    {
        let ids = search.frontier_ids();
        let mut replies: Vec<BranchReply> = Vec::new();
        let mut k: usize = 0;
        let ghost before = (search.trace(), search.frontier_start());
        assert(ids.deep_view().len() == ids.len());
        while k < ids.len()
            invariant
                k <= ids.len(),
                replies.len() == k,
                search.wf(),
                search.wants_layer_spec(),
                search.config() == config,
                search.time_range() == time_range,
                before == (search.trace(), search.frontier_start()),
                ids.deep_view() == search.frontier_ids_spec(),
                forall|j: int|
                    0 <= j < k ==> #[trigger] branch_told(
                        store,
                        config,
                        search.depth(),
                        time_range,
                        asked_id(before, j),
                        replies@[j],
                    ),
            decreases ids.len() - k,
        {
            let reply = ask_branch(store, &search, &ids[k]);
            assert(ids@[k as int]@ == ids.deep_view()[k as int]);
            assert(ids.deep_view()[k as int] == asked_id(before, k as int)) by {
                let tail = search.trace().skip(search.frontier_start() as int);
                assert(ids.deep_view().len() == tail.len());
                assert(search.frontier_ids_spec()[k as int] == tail[k as int].result.id);
                assert(tail[k as int] == search.trace()[search.frontier_start() + k]);
            }
            replies.push(reply);
            k += 1;
        }
        let ghost given = replies@;
        let ghost earlier = history;
        search.merge_layer(replies);
        proof {
            history = earlier.push(given);
            assert(layer_views(history).drop_last() =~= layer_views(earlier));
            assert(layer_views(history).last() == reply_views(given));
            assert forall|l: int| 0 <= l < history.len() implies {
                let state = replayed(config, found, layer_views(history).take(l));
                &&& (#[trigger] history[l]).len() == state.0.len() - state.1
                &&& forall|k: int|
                    0 <= k < history[l].len() ==> #[trigger] branch_told(
                        store,
                        config,
                        (l + 1) as nat,
                        time_range,
                        asked_id(state, k),
                        history[l][k],
                    )
            } by {
                if l < earlier.len() {
                    assert(layer_views(history).take(l) =~= layer_views(earlier).take(l));
                    assert(history[l] == earlier[l]);
                } else {
                    assert(layer_views(history).take(l) =~= layer_views(earlier));
                    assert(history[l] == given);
                }
            }
        }
    }
    assert(explained(store, seed@, config, time_range, search));
    Ok(search)
}

/// Whether `outcome` is something the store may return when it is put the
/// question `request`, going by what its implementation promises.
pub open spec fn may_answer<S: StorageBackend>(
    store: &S,
    request: RequestView,
    outcome: Result<Vec<QueryResult>, S::Error>,
) -> bool {
    exists|vector: Vec<u32>|
        vector@ == request.vector && #[trigger] call_ensures(
            S::search_by_vector,
            (store, vector, request.limit, request.min_score, request.time_range),
            outcome,
        )
}

/// Whether `outcome` is something the store may return when it is asked
/// for the memory with the identifier `id`.
pub open spec fn may_resolve<S: StorageBackend>(
    store: &S,
    id: Seq<char>,
    outcome: Result<Option<Memory>, S::Error>,
) -> bool {
    exists|name: &str|
        name@ == id && #[trigger] call_ensures(S::find_memory_by_id, (store, name), outcome)
}

/// Whether `reply` is what asking the store for the branch of the node
/// `id` comes to, in the layer that follows `depth` merged layers. A node
/// counts as missing where the store resolves it to nothing; as found, with
/// the memory it resolved to and what the store returned to that memory's
/// question; as failed where the lookup failed, or the question of the
/// memory it resolved to.
pub open spec fn branch_told<S: StorageBackend>(
    store: &S,
    config: TreeSearchConfig,
    depth: nat,
    time_range: Option<TimeRange>,
    id: Seq<char>,
    reply: BranchReply,
) -> bool {
    match reply {
        BranchReply::Missing => may_resolve(store, id, Ok(None)),
        BranchReply::Found { memory, related } => {
            &&& may_resolve(store, id, Ok(Some(memory)))
            &&& may_answer(store, branch_question(config, depth, time_range, memory@), Ok(related))
        },
        BranchReply::Failed => {
            ||| exists|fault: S::Error| #[trigger] may_resolve(store, id, Err(fault))
            ||| exists|memory: Memory, fault: S::Error|
                may_resolve(store, id, Ok(Some(memory))) && #[trigger] may_answer(
                    store,
                    branch_question(config, depth, time_range, memory@),
                    Err(fault),
                )
        },
    }
}

/// The views of the replies of each layer, layer by layer.
pub open spec fn layer_views(history: Seq<Seq<BranchReply>>) -> Seq<Seq<ReplyView>> {
    history.map_values(|replies: Seq<BranchReply>| reply_views(replies))
}

/// The trace of a search, and where its newest layer starts, after the
/// answer to the opening question was accepted and the replies of each
/// further layer were merged in turn.
pub open spec fn replayed(
    config: TreeSearchConfig,
    opening: Seq<ResultView>,
    layers: Seq<Seq<ReplyView>>,
) -> (Seq<Step>, nat)
    decreases layers.len(),
{
    if layers.len() == 0 {
        (absorb(Seq::empty(), opening, None, 1, None), 0)
    } else {
        let before = replayed(config, opening, layers.drop_last());
        (
            absorb_layer(before.0, layers.last(), before.1 as int, layers.len() + 1, config),
            before.0.len(),
        )
    }
}

/// The identifier of the `k`-th node of the newest layer.
pub open spec fn asked_id(state: (Seq<Step>, nat), k: int) -> Seq<char> {
    state.0[state.1 + k].result.id
}

/// Every reply of every layer is what asking the store for that branch
/// came to: one reply for each node of the layer before, in order, each
/// for the node's own identifier and at the layer's own threshold.
pub open spec fn layers_told<S: StorageBackend>(
    store: &S,
    config: TreeSearchConfig,
    time_range: Option<TimeRange>,
    opening: Seq<ResultView>,
    history: Seq<Seq<BranchReply>>,
) -> bool {
    forall|l: int|
        0 <= l < history.len() ==> {
            let before = replayed(config, opening, layer_views(history).take(l));
            &&& (#[trigger] history[l]).len() == before.0.len() - before.1
            &&& forall|k: int|
                0 <= k < history[l].len() ==> #[trigger] branch_told(
                    store,
                    config,
                    (l + 1) as nat,
                    time_range,
                    asked_id(before, k),
                    history[l][k],
                )
        }
}

/// Whether a search in the state given is explained by `opening` and
/// `history`: the store may return `opening` to the opening question; the
/// replies of `history` are what asking the store for each branch of each
/// further layer came to; and the trace is what accepting the one and
/// merging the others gives.
pub open spec fn explained_by<S: StorageBackend>(
    store: &S,
    seed: Seq<u32>,
    config: TreeSearchConfig,
    time_range: Option<TimeRange>,
    state: (Seq<Step>, nat),
    depth: nat,
    opening: Vec<QueryResult>,
    history: Seq<Seq<BranchReply>>,
) -> bool {
    &&& may_answer(store, opening_request(config, seed, time_range), Ok(opening))
    &&& depth == history.len() + 1
    &&& state == replayed(config, result_views(opening@), layer_views(history))
    &&& layers_told(store, config, time_range, result_views(opening@), history)
}

/// Whether a search in the state given is what the store's answers make
/// of it, whichever they were.
pub open spec fn explained<S: StorageBackend>(
    store: &S,
    seed: Seq<u32>,
    config: TreeSearchConfig,
    time_range: Option<TimeRange>,
    search: Expansion,
) -> bool {
    exists|opening: Vec<QueryResult>, history: Seq<Seq<BranchReply>>|
        #[trigger] explained_by(
            store,
            seed,
            config,
            time_range,
            (search.trace(), search.frontier_start()),
            search.depth(),
            opening,
            history,
        )
}

/// Asks the store for the memory with the identifier `id`.
fn resolve<S: StorageBackend>(store: &S, id: &String) -> (outcome: Result<Option<Memory>, S::Error>)
    ensures
        may_resolve(store, id@, outcome),
{
    let name = id.as_str();
    let outcome = store.find_memory_by_id(name);
    assert(call_ensures(S::find_memory_by_id, (store, name), outcome));
    outcome
}

/// Puts a question to the store.
fn put_question<S: StorageBackend>(store: &S, request: SearchRequest) -> (outcome: Result<
    Vec<QueryResult>,
    S::Error,
>)
    ensures
        may_answer(store, request@, outcome),
{
    let ghost vector = request.vector;
    let outcome = store.search_by_vector(
        request.vector,
        request.limit,
        request.min_score,
        request.time_range,
    );
    assert(call_ensures(
        S::search_by_vector,
        (store, vector, request.limit, request.min_score, request.time_range),
        outcome,
    ));
    outcome
}

} // verus!
