//! Tags: whether two memories have one in common, and how the tags of a
//! document and of its author are put together.

use vstd::prelude::*;

verus! {

/// Whether some tag of `ours` is also a tag of `theirs`.
pub open spec fn shares_tag(ours: Seq<Seq<char>>, theirs: Seq<Seq<char>>) -> bool {
    exists|i: int| 0 <= i < ours.len() && theirs.contains(#[trigger] ours[i])
}

/// Whether `tag` is one of `tags`.
pub fn has_tag(tags: &Vec<String>, tag: &String) -> (found: bool)
    ensures
        found == tags.deep_view().contains(tag@),
{
    let mut i: usize = 0;
    while i < tags.len()
        invariant
            i <= tags.len(),
            forall|k: int| 0 <= k < i ==> tags.deep_view()[k] != tag@,
        decreases tags.len() - i,
    {
        if tags[i] == *tag {
            assert(tags.deep_view()[i as int] == tag@);
            return true;
        }
        i += 1;
    }
    false
}

/// Whether the two tag lists have a tag in common.
pub fn tags_overlap(ours: &Vec<String>, theirs: &Vec<String>) -> (overlap: bool)
    ensures
        overlap == shares_tag(ours.deep_view(), theirs.deep_view()),
{
    let mut i: usize = 0;
    while i < ours.len()
        invariant
            i <= ours.len(),
            forall|k: int| 0 <= k < i ==> !theirs.deep_view().contains(#[trigger] ours.deep_view()[k]),
        decreases ours.len() - i,
    {
        if has_tag(theirs, &ours[i]) {
            assert(theirs.deep_view().contains(ours.deep_view()[i as int]));
            return true;
        }
        i += 1;
    }
    false
}

/// `base` followed by each tag of `extra` that the tags before it do not hold yet.
pub open spec fn merged_tags(base: Seq<Seq<char>>, extra: Seq<Seq<char>>) -> Seq<Seq<char>>
    decreases extra.len(),
{
    if extra.len() == 0 {
        base
    } else if base.contains(extra[0]) {
        merged_tags(base, extra.drop_first())
    } else {
        merged_tags(base.push(extra[0]), extra.drop_first())
    }
}

/// Adds to a section's own tags those of `extra` that are new to it, in
/// their order; a tag is never listed twice on `extra`'s account.
pub fn merge_tags(base: Vec<String>, extra: &Vec<String>) -> (tags: Vec<String>)
    ensures
        tags.deep_view() == merged_tags(base.deep_view(), extra.deep_view()),
{
    let mut tags = base;
    let mut i: usize = 0;
    assert(extra.deep_view().skip(0) =~= extra.deep_view());
    while i < extra.len()
        invariant
            i <= extra.len(),
            merged_tags(tags.deep_view(), extra.deep_view().skip(i as int)) == merged_tags(
                base.deep_view(),
                extra.deep_view(),
            ),
        decreases extra.len() - i,
    {
        let ghost before = tags.deep_view();
        let ghost rest = extra.deep_view().skip(i as int);
        assert(rest[0] == extra[i as int]@);
        assert(rest.drop_first() =~= extra.deep_view().skip(i + 1));
        if !has_tag(&tags, &extra[i]) {
            tags.push(extra[i].clone());
            assert(tags.deep_view() =~= before.push(extra[i as int]@));
        }
        i += 1;
    }
    assert(extra.deep_view().skip(i as int) =~= Seq::<Seq<char>>::empty());
    tags
}

} // verus!
