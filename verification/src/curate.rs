//! Keeping a store tidy: what is decided when a text is about to duplicate
//! stored memories, and when memories are merged or rewritten.

use crate::models::{result_views, QueryResult, ResultView};
use crate::tags::{merge_tags, merged_tags};
use vstd::prelude::*;

verus! {

/// What the argument of the embed command turned out to be.
#[derive(Debug, Clone, Copy, PartialEq, Eq, Structural)]
pub enum InputKind {
    /// A directory: every markdown file below it is embedded.
    Directory,
    /// A single file.
    File,
    /// No path at all: the argument itself is the text.
    Text,
    /// A path to something that is neither file nor directory: nothing is
    /// embedded.
    Other,
}

/// What the argument of the embed command is, given what the file system
/// says of it read as a path.
pub open spec fn input_kind(exists: bool, is_dir: bool, is_file: bool) -> InputKind {
    if !exists {
        InputKind::Text
    } else if is_dir {
        InputKind::Directory
    } else if is_file {
        InputKind::File
    } else {
        InputKind::Other
    }
}

/// Tells what to embed, given what the file system says of the argument
/// read as a path.
pub fn classify_input(exists: bool, is_dir: bool, is_file: bool) -> (kind: InputKind)
    ensures
        kind == input_kind(exists, is_dir, is_file),
{
    if !exists {
        InputKind::Text
    } else if is_dir {
        InputKind::Directory
    } else if is_file {
        InputKind::File
    } else {
        InputKind::Other
    }
}

/// What to suggest to a user whose new text resembles stored memories.
#[derive(Debug, PartialEq, Eq)]
pub enum DuplicateAdvice {
    /// One memory is similar: update it.
    Update { id: String },
    /// Two are similar: merge them.
    Merge { first: String, second: String },
    /// More are similar: reorganize them.
    Reorganize,
}

/// [`DuplicateAdvice`] as plain mathematical values.
pub enum AdviceView {
    Update { id: Seq<char> },
    Merge { first: Seq<char>, second: Seq<char> },
    Reorganize,
}

impl View for DuplicateAdvice {
    type V = AdviceView;

    open spec fn view(&self) -> AdviceView {
        match self {
            DuplicateAdvice::Update { id } => AdviceView::Update { id: id@ },
            DuplicateAdvice::Merge { first, second } => AdviceView::Merge {
                first: first@,
                second: second@,
            },
            DuplicateAdvice::Reorganize => AdviceView::Reorganize,
        }
    }
}

/// The advice for these similar memories; none where there are none, and
/// the text may be stored.
pub open spec fn advice_for(similar: Seq<ResultView>) -> Option<AdviceView> {
    if similar.len() == 0 {
        None
    } else if similar.len() == 1 {
        Some(AdviceView::Update { id: similar[0].id })
    } else if similar.len() == 2 {
        Some(AdviceView::Merge { first: similar[0].id, second: similar[1].id })
    } else {
        Some(AdviceView::Reorganize)
    }
}

/// The view of an optional advice.
pub open spec fn optional_advice(advice: Option<DuplicateAdvice>) -> Option<AdviceView> {
    match advice {
        Some(advice) => Some(advice@),
        None => None,
    }
}

/// Decides what to tell a user whose new text resembles `similar`.
pub fn duplicate_advice(similar: &Vec<QueryResult>) -> (advice: Option<DuplicateAdvice>)
    ensures
        optional_advice(advice) == advice_for(result_views(similar@)),
{
    if similar.len() == 0 {
        None
    } else if similar.len() == 1 {
        Some(DuplicateAdvice::Update { id: similar[0].id.clone() })
    } else if similar.len() == 2 {
        Some(DuplicateAdvice::Merge { first: similar[0].id.clone(), second: similar[1].id.clone() })
    } else {
        Some(DuplicateAdvice::Reorganize)
    }
}

/// Why memories cannot be merged.
#[derive(Debug, Clone, Copy, PartialEq, Eq, Structural)]
pub enum MergeError {
    /// Fewer than two memories were named.
    TooFew,
}

impl MergeError {
    /// The message for the user.
    pub fn message(&self) -> (text: String)
        ensures
            text@ == "Need at least 2 memory IDs to merge"@,
    {
        "Need at least 2 memory IDs to merge".to_owned()
    }
}

/// Makes sure there is something to merge: at least two memories.
pub fn enough_to_merge(count: usize) -> (outcome: Result<(), MergeError>)
    ensures
        outcome == if count < 2 {
            Err::<(), MergeError>(MergeError::TooFew)
        } else {
            Ok::<(), MergeError>(())
        },
{
    if count < 2 {
        Err(MergeError::TooFew)
    } else {
        Ok(())
    }
}

/// The earliest of the moments, or the latest moment there is where there
/// are none.
pub open spec fn earliest(moments: Seq<i64>) -> i64
    decreases moments.len(),
{
    if moments.len() == 0 {
        i64::MAX
    } else {
        let before = earliest(moments.drop_last());
        if moments.last() < before {
            moments.last()
        } else {
            before
        }
    }
}

/// The earliest moment is none of the later ones, and it is one of the
/// moments given, if any were.
pub proof fn lemma_earliest(moments: Seq<i64>)
    ensures
        forall|i: int| 0 <= i < moments.len() ==> earliest(moments) <= #[trigger] moments[i],
        moments.len() > 0 ==> moments.contains(earliest(moments)),
    decreases moments.len(),
{
    if moments.len() > 0 {
        let shorter = moments.drop_last();
        lemma_earliest(shorter);
        assert forall|i: int| 0 <= i < moments.len() implies earliest(moments) <= #[trigger] moments[i] by {
            if i < shorter.len() {
                assert(shorter[i] == moments[i]);
            }
        }
        if moments.last() < earliest(shorter) {
            assert(moments[moments.len() - 1] == earliest(moments));
        } else if shorter.len() > 0 {
            let k = choose|k: int| 0 <= k < shorter.len() && shorter[k] == earliest(shorter);
            assert(moments[k] == earliest(moments));
        } else {
            assert(moments[0] == earliest(moments));
        }
    }
}

/// When a memory merged from memories created at these moments counts as
/// created: at the earliest of them.
pub fn oldest_created_at(created: &Vec<i64>) -> (oldest: i64)
    ensures
        oldest == earliest(created@),
{
    let mut oldest: i64 = i64::MAX;
    let mut i: usize = 0;
    assert(created@.take(0) =~= Seq::<i64>::empty());
    while i < created.len()
        invariant
            i <= created.len(),
            oldest == earliest(created@.take(i as int)),
        decreases created.len() - i,
    {
        assert(created@.take(i + 1).drop_last() =~= created@.take(i as int));
        assert(created@.take(i + 1).last() == created@[i as int]);
        if created[i] < oldest {
            oldest = created[i];
        }
        i += 1;
    }
    assert(created@.take(created.len() as int) =~= created@);
    oldest
}

/// The tags of all the lists put together: each tag once for the lists'
/// sake, in the order the tags are first met.
pub open spec fn gathered_tags(lists: Seq<Seq<Seq<char>>>) -> Seq<Seq<char>>
    decreases lists.len(),
{
    if lists.len() == 0 {
        Seq::empty()
    } else {
        merged_tags(gathered_tags(lists.drop_last()), lists.last())
    }
}

/// The tag lists as plain values.
pub open spec fn tag_lists(lists: Seq<Vec<String>>) -> Seq<Seq<Seq<char>>> {
    lists.map_values(|list: Vec<String>| list.deep_view())
}

/// Puts the tags of the memories to be merged together.
pub fn gather_tags(lists: &Vec<Vec<String>>) -> (tags: Vec<String>)
    ensures
        tags.deep_view() == gathered_tags(tag_lists(lists@)),
{
    let mut tags: Vec<String> = Vec::new();
    let mut i: usize = 0;
    assert(tag_lists(lists@).take(0) =~= Seq::<Seq<Seq<char>>>::empty());
    assert(tags.deep_view() =~= Seq::<Seq<char>>::empty());
    while i < lists.len()
        invariant
            i <= lists.len(),
            tags.deep_view() == gathered_tags(tag_lists(lists@).take(i as int)),
        decreases lists.len() - i,
    {
        assert(tag_lists(lists@).take(i + 1).drop_last() =~= tag_lists(lists@).take(i as int));
        assert(tag_lists(lists@).take(i + 1).last() == lists@[i as int].deep_view());
        tags = merge_tags(tags, &lists[i]);
        i += 1;
    }
    assert(tag_lists(lists@).take(lists.len() as int) =~= tag_lists(lists@));
    tags
}

/// The tags of a rewritten or merged memory: the ones the user gives, else
/// the ones at hand.
pub fn final_tags(given: Option<Vec<String>>, at_hand: Vec<String>) -> (tags: Vec<String>)
    ensures
        tags.deep_view() == match given {
            Some(list) => list.deep_view(),
            None => at_hand.deep_view(),
        },
{
    match given {
        Some(list) => list,
        None => at_hand,
    }
}

/// The tags of a section that is embedded: its own, and those of the user
/// that are new to it.
pub fn section_tags(own: Vec<String>, user: &Option<Vec<String>>) -> (tags: Vec<String>)
    ensures
        tags.deep_view() == match *user {
            Some(list) => merged_tags(own.deep_view(), list.deep_view()),
            None => own.deep_view(),
        },
{
    match user {
        Some(list) => merge_tags(own, list),
        None => own,
    }
}

} // verus!
