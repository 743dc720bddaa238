//! Text as it is handed to the embedding provider.

use crate::outside::push_char;
use vstd::prelude::*;

verus! {

/// Whether `c` is white space: one of the characters with the Unicode
/// property of that name, which are the tab, the line and page breaks, the
/// space, and the spaces and separators beyond the ASCII range.
pub open spec fn white_space(c: char) -> bool {
    let code = c as u32;
    ||| 0x09 <= code <= 0x0d
    ||| code == 0x20
    ||| code == 0x85
    ||| code == 0xa0
    ||| code == 0x1680
    ||| 0x2000 <= code <= 0x200a
    ||| code == 0x2028
    ||| code == 0x2029
    ||| code == 0x202f
    ||| code == 0x205f
    ||| code == 0x3000
}

/// Whether `c` is white space.
pub fn is_white_space(c: char) -> (white: bool)
    ensures
        white == white_space(c),
{
    let code: u32 = c as u32;
    (0x09 <= code && code <= 0x0d) || code == 0x20 || code == 0x85 || code == 0xa0 || code
        == 0x1680 || (0x2000 <= code && code <= 0x200a) || code == 0x2028 || code == 0x2029
        || code == 0x202f || code == 0x205f || code == 0x3000
}

/// `text` with its words kept and everything between them squeezed: every
/// character that is not white space stays, in order; one space stands
/// before a character that follows white space, unless nothing was kept
/// before it; white space itself is dropped. So words come out separated by
/// single spaces, with nothing before the first and after the last.
pub open spec fn squeezed(text: Seq<char>) -> Seq<char>
    decreases text.len(),
{
    if text.len() == 0 {
        Seq::empty()
    } else {
        let head = squeezed(text.drop_last());
        let c = text.last();
        if white_space(c) {
            head
        } else if head.len() > 0 && text.len() >= 2 && white_space(text[text.len() - 2]) {
            head.push(' ').push(c)
        } else {
            head.push(c)
        }
    }
}

/// Squeezing never lengthens a text, and shortens one that starts with
/// white space.
pub proof fn lemma_squeezed_len(text: Seq<char>)
    ensures
        squeezed(text).len() <= text.len(),
        text.len() > 0 && white_space(text[0]) ==> squeezed(text).len() < text.len(),
    decreases text.len(),
{
    if text.len() > 0 {
        let shorter = text.drop_last();
        lemma_squeezed_len(shorter);
        if text.len() >= 2 {
            assert(shorter[0] == text[0]);
            assert(shorter.last() == text[text.len() - 2]);
            if white_space(text[text.len() - 2]) && squeezed(shorter).len() > 0 {
                assert(squeezed(shorter) == squeezed(shorter.drop_last()));
                lemma_squeezed_len(shorter.drop_last());
            }
        }
    }
}

/// Brings a text into the form it is embedded in, so that texts that
/// differ in white space alone get the same embedding: words separated by
/// single spaces.
pub fn normalize_for_embedding(text: &str) -> (normal: String)
    ensures
        normal@ == squeezed(text@),
{
    let mut kept = String::new();
    let mut after_space = false;
    let ghost whole = text@;
    assert(whole.take(0) =~= Seq::<char>::empty());
    for c in it: text.chars()
        invariant
            it.seq() == whole,
            kept@ == squeezed(whole.take(it.index() as int)),
            after_space == (it.index() > 0 && white_space(whole[it.index() - 1])),
    {
        let ghost seen = whole.take(it.index() + 1);
        assert(seen.drop_last() =~= whole.take(it.index() as int));
        assert(seen.last() == c);
        assert(it.index() > 0 ==> seen[seen.len() - 2] == whole[it.index() - 1]);
        if is_white_space(c) {
            after_space = true;
        } else {
            if after_space && !kept.as_str().is_empty() {
                push_char(&mut kept, ' ');
            }
            push_char(&mut kept, c);
            after_space = false;
        }
    }
    assert(whole.take(whole.len() as int) =~= whole);
    kept
}

} // verus!
