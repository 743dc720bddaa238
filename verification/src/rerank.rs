//! Reranking: what is sent to the reranker, and what its ranking
//! makes of the candidates.

use crate::models::{result_views, QueryResult, ResultView};
use vstd::prelude::*;

verus! {

/// One line of a reranker's ranking: the position of a document in the
/// list that was submitted, and its relevance in millionths.
#[derive(Debug, Clone, Copy, PartialEq, Eq)]
pub struct RerankItem {
    pub index: usize,
    pub score: i64,
}

/// What is submitted to the reranker.
#[derive(Debug, PartialEq, Eq)]
pub struct RerankRequest {
    pub query: String,
    /// The text of each candidate, in the candidates' order.
    pub documents: Vec<String>,
    /// How many documents the ranking should keep.
    pub top_n: Option<usize>,
}

/// The texts of the candidates, in order.
pub open spec fn documents_of(candidates: Seq<ResultView>) -> Seq<Seq<char>> {
    candidates.map_values(|c: ResultView| c.content)
}

/// The candidate with its score replaced.
pub open spec fn rescored(candidate: ResultView, score: i64) -> ResultView {
    ResultView { score: Some(score), ..candidate }
}

/// The final result for a ranking: line by line in the ranking's order, the
/// candidate at the line's position with the line's relevance as its score.
/// A line that points outside the candidates contributes nothing.
pub open spec fn reranked(candidates: Seq<ResultView>, ranking: Seq<RerankItem>) -> Seq<ResultView>
    decreases ranking.len(),
{
    if ranking.len() == 0 {
        Seq::empty()
    } else {
        let line = ranking.last();
        let before = reranked(candidates, ranking.drop_last());
        if line.index < candidates.len() {
            before.push(rescored(candidates[line.index as int], line.score))
        } else {
            before
        }
    }
}

/// Whether `entry` is what some line of the ranking makes of the candidate
/// it points to.
pub open spec fn chosen_by(
    candidates: Seq<ResultView>,
    ranking: Seq<RerankItem>,
    entry: ResultView,
) -> bool {
    exists|line: int|
        0 <= line < ranking.len() && (#[trigger] ranking[line]).index < candidates.len() && entry
            == rescored(candidates[ranking[line].index as int], ranking[line].score)
}

/// The final result has at most one entry per line of the ranking, and
/// each entry is a candidate, changed in its score alone.
pub proof fn lemma_reranked(candidates: Seq<ResultView>, ranking: Seq<RerankItem>)
    ensures
        reranked(candidates, ranking).len() <= ranking.len(),
        forall|k: int|
            0 <= k < reranked(candidates, ranking).len() ==> chosen_by(
                candidates,
                ranking,
                #[trigger] reranked(candidates, ranking)[k],
            ),
    decreases ranking.len(),
{
    if ranking.len() > 0 {
        let shorter = ranking.drop_last();
        lemma_reranked(candidates, shorter);
        let out = reranked(candidates, ranking);
        let before = reranked(candidates, shorter);
        assert forall|k: int| 0 <= k < out.len() implies chosen_by(
            candidates,
            ranking,
            #[trigger] out[k],
        ) by {
            if k < before.len() {
                assert(chosen_by(candidates, shorter, before[k]));
                let line = choose|line: int|
                    0 <= line < shorter.len() && (#[trigger] shorter[line]).index
                        < candidates.len() && before[k] == rescored(
                        candidates[shorter[line].index as int],
                        shorter[line].score,
                    );
                assert(ranking[line] == shorter[line]);
                assert(out[k] == before[k]);
            } else {
                let line = ranking.len() - 1;
                assert(out[k] == rescored(
                    candidates[ranking[line].index as int],
                    ranking[line].score,
                ));
            }
        }
    }
}

/// What to submit to the reranker: the query as it was typed, the text of
/// every candidate, and the number of results wanted.
pub fn rerank_request(query: &str, candidates: &Vec<QueryResult>, limit: usize) -> (request:
    RerankRequest)
    ensures
        request.query@ == query@,
        request.documents.deep_view() == documents_of(result_views(candidates@)),
        request.top_n == Some(limit),
{
    let mut documents: Vec<String> = Vec::new();
    let ghost wanted = documents_of(result_views(candidates@));
    let mut i: usize = 0;
    while i < candidates.len()
        invariant
            i <= candidates.len(),
            wanted == documents_of(result_views(candidates@)),
            documents.deep_view() == wanted.take(i as int),
        decreases candidates.len() - i,
    {
        let ghost before = documents.deep_view();
        documents.push(candidates[i].content.clone());
        assert(documents.deep_view() =~= before.push(candidates[i as int].content@));
        assert(wanted.take(i + 1) =~= before.push(candidates[i as int].content@));
        i += 1;
    }
    assert(wanted.take(candidates.len() as int) =~= wanted);
    RerankRequest { query: query.to_owned(), documents, top_n: Some(limit) }
}

/// Applies the reranker's ranking: its order is final, its relevance
/// replaces each chosen candidate's score, and what it did not choose is
/// dropped. An empty ranking gives an empty result.
pub fn apply_rerank(candidates: &Vec<QueryResult>, ranking: &Vec<RerankItem>) -> (ranked: Vec<
    QueryResult,
>)
    ensures
        result_views(ranked@) == reranked(result_views(candidates@), ranking@),
{
    let mut ranked: Vec<QueryResult> = Vec::new();
    let mut line: usize = 0;
    assert(ranking@.take(0) =~= Seq::<RerankItem>::empty());
    while line < ranking.len()
        invariant
            line <= ranking.len(),
            result_views(ranked@) == reranked(result_views(candidates@), ranking@.take(line as int)),
        decreases ranking.len() - line,
    {
        let ghost before = result_views(ranked@);
        let item = ranking[line];
        assert(ranking@.take(line + 1).drop_last() =~= ranking@.take(line as int));
        assert(ranking@.take(line + 1).last() == item);
        if item.index < candidates.len() {
            let chosen = &candidates[item.index];
            let entry = QueryResult {
                id: chosen.id.clone(),
                content: chosen.content.clone(),
                tags: chosen.tags.clone(),
                updated_at: chosen.updated_at,
                score: Some(item.score),
            };
            assert(entry@ == rescored(chosen@, item.score));
            ranked.push(entry);
            assert(result_views(ranked@) =~= before.push(rescored(chosen@, item.score)));
        }
        line += 1;
    }
    assert(ranking@.take(ranking.len() as int) =~= ranking@);
    ranked
}

} // verus!
