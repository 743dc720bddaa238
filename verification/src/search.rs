//! A search from the query vector to the candidates that go to the
//! reranker, and from the reranker's ranking to the final result.

use crate::expansion::{opening_request, Expansion};
use crate::models::{result_views, QueryResult};
use crate::rerank::{apply_rerank, documents_of, rerank_request, reranked, RerankItem, RerankRequest};
use crate::schedule::TreeSearchConfig;
use crate::store::{expand, explained, may_answer, StorageBackend};
use crate::time_filter::TimeRange;
use crate::tree::flat_of;
use vstd::prelude::*;

verus! {

/// How many nodes a search for `limit` results may accept: ten for each
/// result wanted, as far as the machine can count, and fifty where fewer
/// than ten results are wanted.
pub open spec fn node_budget_spec(limit: usize) -> usize {
    if limit < 10 {
        50
    } else if limit * 10 <= usize::MAX {
        (limit * 10) as usize
    } else {
        usize::MAX
    }
}

/// How many nodes a search for `limit` results may accept.
pub fn node_budget(limit: usize) -> (budget: usize)
    ensures
        budget == node_budget_spec(limit),
{
    if limit < 10 {
        50
    } else {
        match limit.checked_mul(10) {
            Some(budget) => budget,
            None => usize::MAX,
        }
    }
}

/// The settings of a search for `limit` results from `threshold` on.
pub fn search_config(threshold: i64, limit: usize) -> (config: TreeSearchConfig)
    ensures
        config == (TreeSearchConfig {
            first_threshold: threshold,
            max_depth: 5,
            max_nodes: node_budget_spec(limit),
            branch_limit: 5,
            require_tag_overlap: true,
        }),
{
    TreeSearchConfig::new(threshold, node_budget(limit))
}

/// What the expansion gathered: the finished search and, unless it found
/// nothing, what to submit to the reranker.
pub struct Gathered {
    pub search: Expansion,
    /// None where not even the first layer held a result: then there is
    /// nothing to rerank, and the search ends without a result, which is no
    /// fault.
    pub request: Option<RerankRequest>,
}

/// Gathers the candidates for `query`: expands from `query_vector` through
/// the store and prepares the reranker's input from the flat view. It fails
/// where the store fails the opening question, with its fault, nowhere else.
pub fn multi_layer_search<S: StorageBackend>(
    store: &S,
    query_vector: Vec<u32>,
    query: &str,
    limit: usize,
    threshold: i64,
    time_range: Option<TimeRange>,
) -> (outcome: Result<Gathered, S::Error>)
    ensures
        outcome matches Err(fault) ==> may_answer(
            store,
            opening_request(search_config_spec(threshold, limit), query_vector@, time_range),
            Err(fault),
        ),
        outcome matches Ok(gathered) ==> {
            &&& gathered.search.wf()
            &&& !gathered.search.wants_layer_spec()
            &&& gathered.search.time_range() == time_range
            &&& gathered.search.config() == search_config_spec(threshold, limit)
            &&& explained(
                store,
                query_vector@,
                search_config_spec(threshold, limit),
                time_range,
                gathered.search,
            )
            &&& gathered.request is None <==> gathered.search.trace().len() == 0
            &&& gathered.request matches Some(request) ==> {
                &&& request.query@ == query@
                &&& request.documents.deep_view() == documents_of(flat_of(gathered.search.trace()))
                &&& request.top_n == Some(limit)
            }
        },
{
    let config = search_config(threshold, limit);
    let search = match expand(store, query_vector, config, time_range) {
        Ok(search) => search,
        Err(fault) => {
            return Err(fault);
        },
    };
    if search.total_nodes() == 0 {
        return Ok(Gathered { search, request: None });
    }
    let candidates = search.flat();
    let request = rerank_request(query, &candidates, limit);
    Ok(Gathered { search, request: Some(request) })
}

impl Gathered {
    /// The final result of the search, given the reranker's ranking of the
    /// documents that were submitted.
    pub fn rank(&self, ranking: &Vec<RerankItem>) -> (ranked: Vec<QueryResult>)
        ensures
            result_views(ranked@) == reranked(flat_of(self.search.trace()), ranking@),
    {
        let candidates = self.search.flat();
        apply_rerank(&candidates, ranking)
    }
}

/// The settings of a search for `limit` results from `threshold` on: the
/// defaults, with the first threshold and the node budget set.
pub open spec fn search_config_spec(threshold: i64, limit: usize) -> TreeSearchConfig {
    TreeSearchConfig {
        first_threshold: threshold,
        max_depth: 5,
        max_nodes: node_budget_spec(limit),
        branch_limit: 5,
        require_tag_overlap: true,
    }
}

} // verus!
