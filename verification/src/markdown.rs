//! Documents: how a markdown text falls into the sections that are
//! embedded, and what its front matter says of them.

use crate::models::{MemoMetadata, MemoSection, SectionView};
use crate::outside::{
    pattern_capture, pattern_compiles, pattern_matches, push_char, regex_captures, regex_compiles,
    regex_is_match,
};
use crate::text::{is_white_space, white_space};
use vstd::prelude::*;

verus! {

/// What is cut from the ends of a text: white space, or one character.
#[derive(Debug, Clone, Copy, PartialEq, Eq)]
pub enum Margin {
    WhiteSpace,
    Only(char),
}

impl Margin {
    /// Whether `c` belongs to the margin.
    pub open spec fn holds(&self, c: char) -> bool {
        match self {
            Margin::WhiteSpace => white_space(c),
            Margin::Only(only) => c == *only,
        }
    }

    /// Whether `c` belongs to the margin.
    fn has(&self, c: char) -> (inside: bool)
        ensures
            inside == self.holds(c),
    {
        match self {
            Margin::WhiteSpace => is_white_space(c),
            Margin::Only(only) => c == *only,
        }
    }
}

/// `text` without the margin at its start.
pub open spec fn strip_start(text: Seq<char>, margin: Margin) -> Seq<char>
    decreases text.len(),
{
    if text.len() > 0 && margin.holds(text[0]) {
        strip_start(text.drop_first(), margin)
    } else {
        text
    }
}

/// `text` without the margin at its end.
pub open spec fn strip_end(text: Seq<char>, margin: Margin) -> Seq<char>
    decreases text.len(),
{
    if text.len() > 0 && margin.holds(text.last()) {
        strip_end(text.drop_last(), margin)
    } else {
        text
    }
}

/// `text` without the margin at both ends.
pub open spec fn stripped(text: Seq<char>, margin: Margin) -> Seq<char> {
    strip_end(strip_start(text, margin), margin)
}

/// `text` without white space at both ends.
pub open spec fn trimmed(text: Seq<char>) -> Seq<char> {
    stripped(text, Margin::WhiteSpace)
}

/// The pieces of `text` between the occurrences of `separator`: one more
/// than there are separators, empty pieces included.
pub open spec fn split_on(text: Seq<char>, separator: char) -> Seq<Seq<char>>
    decreases text.len(),
{
    if text.len() == 0 {
        seq![Seq::empty()]
    } else {
        let before = split_on(text.drop_last(), separator);
        if text.last() == separator {
            before.push(Seq::empty())
        } else {
            before.drop_last().push(before.last().push(text.last()))
        }
    }
}

/// There is always a piece, if only an empty one.
pub proof fn lemma_split_has_piece(text: Seq<char>, separator: char)
    ensures
        split_on(text, separator).len() >= 1,
    decreases text.len(),
{
    if text.len() > 0 {
        lemma_split_has_piece(text.drop_last(), separator);
    }
}

/// A line without the carriage return that may end it.
pub open spec fn without_return(line: Seq<char>) -> Seq<char> {
    if line.len() > 0 && line.last() == '\r' {
        line.drop_last()
    } else {
        line
    }
}

/// The lines of `text`. A line ends with a line feed, or with a carriage
/// return and a line feed, neither of which belongs to it; what follows the
/// last line feed is a line too, unless it is empty.
pub open spec fn lines_of(text: Seq<char>) -> Seq<Seq<char>> {
    let pieces = split_on(text, '\n');
    let ended = pieces.drop_last().map_values(|line: Seq<char>| without_return(line));
    if pieces.last().len() > 0 {
        ended.push(pieces.last())
    } else {
        ended
    }
}

/// The texts that rows of characters stand for.
pub open spec fn texts(rows: Seq<Vec<char>>) -> Seq<Seq<char>> {
    rows.map_values(|row: Vec<char>| row@)
}

/// The characters of a text.
fn chars_of(text: &str) -> (chars: Vec<char>)
    ensures
        chars@ == text@,
{
    let mut chars: Vec<char> = Vec::new();
    let ghost whole = text@;
    for c in it: text.chars()
        invariant
            it.seq() == whole,
            chars@ == whole.take(it.index() as int),
    {
        chars.push(c);
        assert(chars@ =~= whole.take(it.index() + 1));
    }
    assert(whole.take(whole.len() as int) =~= whole);
    chars
}

/// The text made of these characters.
fn text_of(chars: &Vec<char>) -> (text: String)
    ensures
        text@ == chars@,
{
    let mut text = String::new();
    let mut i: usize = 0;
    while i < chars.len()
        invariant
            i <= chars.len(),
            text@ == chars@.take(i as int),
        decreases chars.len() - i,
    {
        push_char(&mut text, chars[i]);
        assert(text@ =~= chars@.take(i + 1));
        i += 1;
    }
    assert(chars@.take(chars.len() as int) =~= chars@);
    text
}

/// The characters from `from` up to `until`.
fn slice_of(chars: &Vec<char>, from: usize, until: usize) -> (part: Vec<char>)
    requires
        from <= until <= chars.len(),
    ensures
        part@ == chars@.subrange(from as int, until as int),
{
    let mut part: Vec<char> = Vec::new();
    let mut i: usize = from;
    while i < until
        invariant
            from <= i <= until <= chars.len(),
            part@ == chars@.subrange(from as int, i as int),
        decreases until - i,
    {
        part.push(chars[i]);
        assert(part@ =~= chars@.subrange(from as int, i + 1));
        i += 1;
    }
    part
}

/// Cuts the margin from both ends.
fn strip(chars: &Vec<char>, margin: Margin) -> (kept: Vec<char>)
    ensures
        kept@ == stripped(chars@, margin),
{
    let mut from: usize = 0;
    assert(chars@.subrange(0, chars.len() as int) =~= chars@);
    while from < chars.len() && margin.has(chars[from])
        invariant
            from <= chars.len(),
            strip_start(chars@.subrange(from as int, chars.len() as int), margin) == strip_start(
                chars@,
                margin,
            ),
        decreases chars.len() - from,
    {
        let ghost rest = chars@.subrange(from as int, chars.len() as int);
        assert(rest[0] == chars@[from as int]);
        assert(rest.drop_first() =~= chars@.subrange(from + 1, chars.len() as int));
        from += 1;
    }
    let ghost started = chars@.subrange(from as int, chars.len() as int);
    assert(strip_start(chars@, margin) == started) by {
        if from < chars.len() {
            assert(started[0] == chars@[from as int]);
        }
    }
    let mut until: usize = chars.len();
    while until > from && margin.has(chars[until - 1])
        invariant
            from <= until <= chars.len(),
            strip_end(chars@.subrange(from as int, until as int), margin) == strip_end(
                started,
                margin,
            ),
        decreases until,
    {
        let ghost rest = chars@.subrange(from as int, until as int);
        assert(rest.last() == chars@[until - 1]);
        assert(rest.drop_last() =~= chars@.subrange(from as int, until - 1));
        until -= 1;
    }
    proof {
        let rest = chars@.subrange(from as int, until as int);
        if until > from {
            assert(rest.last() == chars@[until - 1]);
        }
        assert(strip_end(started, margin) == rest);
    }
    slice_of(chars, from, until)
}

/// Cuts a text at each separator.
fn split(chars: &Vec<char>, separator: char) -> (pieces: Vec<Vec<char>>)
    ensures
        texts(pieces@) == split_on(chars@, separator),
{
    let mut pieces: Vec<Vec<char>> = Vec::new();
    let mut current: Vec<char> = Vec::new();
    let mut i: usize = 0;
    assert(chars@.take(0) =~= Seq::<char>::empty());
    assert(texts(pieces@).push(current@) =~= seq![Seq::<char>::empty()]);
    while i < chars.len()
        invariant
            i <= chars.len(),
            texts(pieces@).push(current@) == split_on(chars@.take(i as int), separator),
        decreases chars.len() - i,
    {
        let ghost seen = chars@.take(i + 1);
        let ghost done = texts(pieces@);
        let ghost open = current@;
        assert(seen.drop_last() =~= chars@.take(i as int));
        assert(seen.last() == chars@[i as int]);
        assert(done.push(open).last() == open);
        assert(done.push(open).drop_last() =~= done);
        if chars[i] == separator {
            pieces.push(current);
            current = Vec::new();
            assert(texts(pieces@) =~= done.push(open));
        } else {
            current.push(chars[i]);
        }
        i += 1;
    }
    assert(chars@.take(chars.len() as int) =~= chars@);
    let ghost done = texts(pieces@);
    pieces.push(current);
    assert(texts(pieces@) =~= done.push(current@));
    pieces
}

/// Cuts a text into its lines.
fn lines(chars: &Vec<char>) -> (found: Vec<Vec<char>>)
    ensures
        texts(found@) == lines_of(chars@),
{
    let mut pieces = split(chars, '\n');
    proof {
        lemma_split_has_piece(chars@, '\n');
    }
    let ghost all = texts(pieces@);
    let last = pieces.pop().unwrap();
    assert(last@ == all.last());
    assert(texts(pieces@) =~= all.drop_last());
    let mut found: Vec<Vec<char>> = Vec::new();
    let ghost ended = all.drop_last().map_values(|line: Seq<char>| without_return(line));
    let mut i: usize = 0;
    while i < pieces.len()
        invariant
            i <= pieces.len(),
            texts(pieces@) == all.drop_last(),
            ended == all.drop_last().map_values(|line: Seq<char>| without_return(line)),
            texts(found@) == ended.take(i as int),
        decreases pieces.len() - i,
    {
        let ghost before = texts(found@);
        let piece = &pieces[i];
        assert(piece@ == all.drop_last()[i as int]);
        let line = if piece.len() > 0 && piece[piece.len() - 1] == '\r' {
            slice_of(piece, 0, piece.len() - 1)
        } else {
            slice_of(piece, 0, piece.len())
        };
        assert(line@ =~= without_return(piece@));
        found.push(line);
        assert(texts(found@) =~= before.push(without_return(piece@)));
        assert(ended.take(i + 1) =~= before.push(without_return(piece@)));
        i += 1;
    }
    assert(ended.take(pieces.len() as int) =~= ended);
    if last.len() > 0 {
        let ghost before = texts(found@);
        found.push(last);
        assert(texts(found@) =~= before.push(all.last()));
    }
    found
}

/// Why a document could not be read.
#[derive(Debug, Clone, Copy, PartialEq, Eq, Structural)]
pub enum MarkdownError {
    /// One of the two patterns that documents are read by is no regular
    /// expression.
    InvalidPattern,
}

/// The pattern of a front matter: a line of three dashes, one line of
/// content, another line of three dashes.
pub open spec fn front_pattern() -> Seq<char> {
    "^---\\s*\\n(.*?)\\n---\\s*\\n"@
}

/// The pattern of a heading that starts a section: two or three hash
/// signs, white space, a title.
pub open spec fn heading_pattern() -> Seq<char> {
    "^(#{2,3})\\s+(.+)$"@
}

/// What a line of the front matter starts with when it lists tags.
pub open spec fn tag_key() -> Seq<char> {
    seq!['t', 'a', 'g', 's', ':']
}

/// Whether `text` starts with `prefix`.
pub open spec fn starts_with(text: Seq<char>, prefix: Seq<char>) -> bool {
    prefix.len() <= text.len() && text.take(prefix.len() as int) == prefix
}

/// Whether a tag list is written in brackets.
pub open spec fn bracketed(text: Seq<char>) -> bool {
    text.len() > 0 && text[0] == '[' && text.last() == ']'
}

/// The tag that one piece of a tag list stands for: the piece without the
/// white space around it and, in a bracketed list, without the quotes
/// around that.
pub open spec fn tag_of(piece: Seq<char>, quoted: bool) -> Seq<char> {
    if quoted {
        stripped(stripped(trimmed(piece), Margin::Only('"')), Margin::Only('\''))
    } else {
        trimmed(piece)
    }
}

/// The tags of the pieces, in order; a piece that stands for no tag is
/// passed over.
pub open spec fn kept_tags(pieces: Seq<Seq<char>>, quoted: bool) -> Seq<Seq<char>>
    decreases pieces.len(),
{
    if pieces.len() == 0 {
        Seq::empty()
    } else {
        let before = kept_tags(pieces.drop_last(), quoted);
        let tag = tag_of(pieces.last(), quoted);
        if tag.len() > 0 {
            before.push(tag)
        } else {
            before
        }
    }
}

/// The tags of a list `tag1, tag2` or `[tag1, "tag2"]`.
pub open spec fn tag_list(text: Seq<char>) -> Seq<Seq<char>> {
    if bracketed(text) {
        kept_tags(split_on(text.subrange(1, text.len() - 1), ','), true)
    } else {
        kept_tags(split_on(text, ','), false)
    }
}

/// The tags that a line of the front matter lists, if it lists any.
pub open spec fn line_tags(line: Seq<char>) -> Option<Seq<Seq<char>>> {
    let content = trimmed(line);
    if starts_with(content, tag_key()) {
        Some(tag_list(trimmed(content.skip(5))))
    } else {
        None
    }
}

/// The tags of a front matter: those of its last line that lists tags.
pub open spec fn header_tags(lines: Seq<Seq<char>>) -> Seq<Seq<char>>
    decreases lines.len(),
{
    if lines.len() == 0 {
        Seq::empty()
    } else {
        match line_tags(lines.last()) {
            Some(tags) => tags,
            None => header_tags(lines.drop_last()),
        }
    }
}

/// The tags of a document and its text behind the front matter; a document
/// without front matter has no tags and is all text.
pub open spec fn front_matter(content: Seq<char>) -> (Seq<Seq<char>>, Seq<char>) {
    match pattern_capture(front_pattern(), content) {
        Some((group, rest)) => (
            header_tags(
                lines_of(
                    match group {
                        Some(header) => header,
                        None => Seq::empty(),
                    },
                ),
            ),
            rest,
        ),
        None => (Seq::empty(), content),
    }
}

/// Sections in the making: those that are complete, and the text gathered
/// for the next.
pub struct Draft {
    pub done: Seq<Seq<char>>,
    pub current: Seq<char>,
}

/// The sections of a draft once the text gathered last, if any, has
/// become a section too.
pub open spec fn closed(draft: Draft) -> Seq<Seq<char>> {
    if draft.current.len() > 0 {
        draft.done.push(trimmed(draft.current))
    } else {
        draft.done
    }
}

/// The draft after these lines, `headings` telling which of them are
/// headings: a heading closes the section before it and is itself dropped;
/// any other line joins the text being gathered, a line feed between it and
/// what was gathered before.
pub open spec fn drafted(lines: Seq<Seq<char>>, headings: Seq<bool>) -> Draft
    decreases lines.len(),
{
    if lines.len() == 0 || headings.len() != lines.len() {
        Draft { done: Seq::empty(), current: Seq::empty() }
    } else {
        let before = drafted(lines.drop_last(), headings.drop_last());
        let line = lines.last();
        if headings.last() {
            Draft { done: closed(before), current: Seq::empty() }
        } else if before.current.len() > 0 {
            Draft { done: before.done, current: before.current.push('\n') + line }
        } else {
            Draft { done: before.done, current: line }
        }
    }
}

/// Which of the lines are headings.
pub open spec fn headings_of(lines: Seq<Seq<char>>) -> Seq<bool> {
    lines.map_values(|line: Seq<char>| pattern_matches(heading_pattern(), line))
}

/// Makes a section of a text, with the given tags.
pub open spec fn with_tags(tags: Seq<Seq<char>>) -> spec_fn(Seq<char>) -> SectionView {
    |text: Seq<char>| SectionView { content: text, tags }
}

/// The sections of a document, each with the document's tags.
pub open spec fn sections_of(content: Seq<char>) -> Result<Seq<SectionView>, MarkdownError> {
    if !pattern_compiles(front_pattern()) || !pattern_compiles(heading_pattern()) {
        Err(MarkdownError::InvalidPattern)
    } else {
        let (tags, body) = front_matter(content);
        Ok(
            closed(drafted(lines_of(body), headings_of(lines_of(body)))).map_values(
                with_tags(tags),
            ),
        )
    }
}

/// The views of some sections, in order.
pub open spec fn section_views(sections: Seq<MemoSection>) -> Seq<SectionView> {
    sections.map_values(|s: MemoSection| s@)
}

/// Whether the characters start with those of `prefix`.
fn has_prefix(chars: &Vec<char>, prefix: &Vec<char>) -> (found: bool)
    ensures
        found == starts_with(chars@, prefix@),
{
    if prefix.len() > chars.len() {
        return false;
    }
    let mut i: usize = 0;
    while i < prefix.len()
        invariant
            i <= prefix.len() <= chars.len(),
            chars@.take(i as int) == prefix@.take(i as int),
        decreases prefix.len() - i,
    {
        if chars[i] != prefix[i] {
            assert(chars@.take(prefix.len() as int)[i as int] != prefix@[i as int]);
            return false;
        }
        assert(chars@.take(i + 1) =~= chars@.take(i as int).push(chars@[i as int]));
        assert(prefix@.take(i + 1) =~= prefix@.take(i as int).push(prefix@[i as int]));
        i += 1;
    }
    assert(prefix@.take(prefix.len() as int) =~= prefix@);
    true
}

/// Reads a tag list, written `tag1, tag2` or `[tag1, "tag2"]`.
pub fn read_tag_list(text: &Vec<char>) -> (tags: Vec<String>)
    ensures
        tags.deep_view() == tag_list(text@),
{
    let quoted = text.len() > 0 && text[0] == '[' && text[text.len() - 1] == ']';
    let pieces = if quoted {
        split(&slice_of(text, 1, text.len() - 1), ',')
    } else {
        split(text, ',')
    };
    let mut tags: Vec<String> = Vec::new();
    let mut i: usize = 0;
    assert(texts(pieces@).take(0) =~= Seq::<Seq<char>>::empty());
    while i < pieces.len()
        invariant
            i <= pieces.len(),
            tags.deep_view() == kept_tags(texts(pieces@).take(i as int), quoted),
        decreases pieces.len() - i,
    {
        let ghost before = tags.deep_view();
        let ghost seen = texts(pieces@).take(i + 1);
        assert(seen.drop_last() =~= texts(pieces@).take(i as int));
        assert(seen.last() == pieces@[i as int]@);
        let bare = strip(&pieces[i], Margin::WhiteSpace);
        let tag = if quoted {
            strip(&strip(&bare, Margin::Only('"')), Margin::Only('\''))
        } else {
            bare
        };
        assert(tag@ == tag_of(pieces@[i as int]@, quoted));
        if tag.len() > 0 {
            tags.push(text_of(&tag));
            assert(tags.deep_view() =~= before.push(tag@));
        }
        i += 1;
    }
    assert(texts(pieces@).take(pieces.len() as int) =~= texts(pieces@));
    tags
}

/// Reads the tags off the lines of a front matter: those of the last
/// line that starts with `tags:`.
pub fn read_header_tags(header: &str) -> (tags: Vec<String>)
    ensures
        tags.deep_view() == header_tags(lines_of(header@)),
{
    let rows = lines(&chars_of(header));
    let mut key: Vec<char> = Vec::new();
    key.push('t');
    key.push('a');
    key.push('g');
    key.push('s');
    key.push(':');
    assert(key@ =~= tag_key());
    let mut tags: Vec<String> = Vec::new();
    let mut i: usize = 0;
    assert(texts(rows@).take(0) =~= Seq::<Seq<char>>::empty());
    while i < rows.len()
        invariant
            i <= rows.len(),
            key@ == tag_key(),
            tags.deep_view() == header_tags(texts(rows@).take(i as int)),
        decreases rows.len() - i,
    {
        let ghost seen = texts(rows@).take(i + 1);
        assert(seen.drop_last() =~= texts(rows@).take(i as int));
        assert(seen.last() == rows@[i as int]@);
        let content = strip(&rows[i], Margin::WhiteSpace);
        if has_prefix(&content, &key) {
            let list = strip(&slice_of(&content, 5, content.len()), Margin::WhiteSpace);
            assert(content@.subrange(5, content.len() as int) =~= content@.skip(5));
            tags = read_tag_list(&list);
        }
        i += 1;
    }
    assert(texts(rows@).take(rows.len() as int) =~= texts(rows@));
    tags
}

/// Splits a document into what its front matter says and the text behind
/// it. A document that does not open with a front matter is all text.
pub fn extract_frontmatter(content: &str) -> (outcome: Result<(MemoMetadata, String), MarkdownError>)
    ensures
        !pattern_compiles(front_pattern()) ==> outcome == Err::<
            (MemoMetadata, String),
            MarkdownError,
        >(MarkdownError::InvalidPattern),
        pattern_compiles(front_pattern()) ==> outcome is Ok && (outcome->Ok_0.0@, outcome->Ok_0.1@)
            == front_matter(content@),
{
    if !regex_compiles("^---\\s*\\n(.*?)\\n---\\s*\\n") {
        return Err(MarkdownError::InvalidPattern);
    }
    match regex_captures("^---\\s*\\n(.*?)\\n---\\s*\\n", content) {
        Some((group, rest)) => {
            let tags = match group {
                Some(header) => read_header_tags(header.as_str()),
                None => read_header_tags(""),
            };
            proof {
                reveal_strlit("");
                assert(""@ =~= Seq::<char>::empty());
            }
            Ok((MemoMetadata { tags }, rest))
        },
        None => Ok((MemoMetadata { tags: Vec::new() }, content.to_owned())),
    }
}

/// Appends a row of characters.
fn append(text: &mut Vec<char>, row: &Vec<char>)
    ensures
        final(text)@ == old(text)@ + row@,
{
    let ghost start = text@;
    let mut i: usize = 0;
    assert(row@.take(0) =~= Seq::<char>::empty());
    assert(start + Seq::<char>::empty() =~= start);
    while i < row.len()
        invariant
            i <= row.len(),
            text@ == start + row@.take(i as int),
        decreases row.len() - i,
    {
        text.push(row[i]);
        assert(text@ =~= start + row@.take(i + 1));
        i += 1;
    }
    assert(row@.take(row.len() as int) =~= row@);
}

/// Puts lines together into sections, `headings` telling which lines are
/// headings; every section gets a copy of `metadata`. Where the two lists
/// differ in length there are no sections.
pub fn assemble_sections(
    lines: &Vec<Vec<char>>,
    headings: &Vec<bool>,
    metadata: &MemoMetadata,
) -> (sections: Vec<MemoSection>)
    ensures
        section_views(sections@) == closed(drafted(texts(lines@), headings@)).map_values(
            with_tags(metadata@),
        ),
{
    let mut sections: Vec<MemoSection> = Vec::new();
    let ghost tags = metadata@;
    let ghost as_section = with_tags(tags);
    if lines.len() != headings.len() {
        assert(section_views(sections@) =~= Seq::<Seq<char>>::empty().map_values(as_section));
        return sections;
    }
    let mut current: Vec<char> = Vec::new();
    let mut i: usize = 0;
    assert(texts(lines@).take(0) =~= Seq::<Seq<char>>::empty());
    assert(section_views(sections@) =~= Seq::<Seq<char>>::empty().map_values(as_section));
    while i < lines.len()
        invariant
            i <= lines.len(),
            lines.len() == headings.len(),
            metadata@ == tags,
            as_section == with_tags(tags),
            current@ == drafted(texts(lines@).take(i as int), headings@.take(i as int)).current,
            section_views(sections@) == drafted(
                texts(lines@).take(i as int),
                headings@.take(i as int),
            ).done.map_values(as_section),
        decreases lines.len() - i,
    {
        let ghost before = drafted(texts(lines@).take(i as int), headings@.take(i as int));
        let ghost seen = texts(lines@).take(i + 1);
        let ghost made = section_views(sections@);
        assert(seen.drop_last() =~= texts(lines@).take(i as int));
        assert(seen.last() == lines@[i as int]@);
        assert(headings@.take(i + 1).drop_last() =~= headings@.take(i as int));
        assert(headings@.take(i + 1).last() == headings@[i as int]);
        if headings[i] {
            if current.len() > 0 {
                let text = text_of(&strip(&current, Margin::WhiteSpace));
                sections.push(MemoSection { content: text, metadata: metadata.clone() });
                assert(section_views(sections@) =~= made.push(
                    SectionView { content: trimmed(before.current), tags },
                ));
                assert(closed(before).map_values(as_section) =~= before.done.map_values(
                    as_section,
                ).push(as_section(trimmed(before.current))));
            }
            current = Vec::new();
        } else {
            if current.len() > 0 {
                current.push('\n');
            }
            append(&mut current, &lines[i]);
            assert(before.current.len() == 0 ==> current@ =~= lines@[i as int]@);
        }
        i += 1;
    }
    assert(texts(lines@).take(lines.len() as int) =~= texts(lines@));
    assert(headings@.take(lines.len() as int) =~= headings@);
    let ghost last = drafted(texts(lines@), headings@);
    if current.len() > 0 {
        let ghost made = section_views(sections@);
        let text = text_of(&strip(&current, Margin::WhiteSpace));
        sections.push(MemoSection { content: text, metadata: metadata.clone() });
        assert(section_views(sections@) =~= made.push(
            SectionView { content: trimmed(last.current), tags },
        ));
        assert(closed(last).map_values(as_section) =~= last.done.map_values(as_section).push(
            as_section(trimmed(last.current)),
        ));
    }
    sections
}

/// Splits a document into sections: the text under each heading of the
/// second or third level, and the text before the first such heading. Every
/// section carries the tags of the document's front matter; a section
/// without text is none.
pub fn extract_sections(content: &str) -> (outcome: Result<Vec<MemoSection>, MarkdownError>)
    ensures
        match outcome {
            Ok(sections) => Ok::<Seq<SectionView>, MarkdownError>(section_views(sections@))
                == sections_of(content@),
            Err(fault) => Err::<Seq<SectionView>, MarkdownError>(fault) == sections_of(content@),
        },
{
    let (metadata, body) = match extract_frontmatter(content) {
        Ok(parts) => parts,
        Err(fault) => {
            return Err(fault);
        },
    };
    if !regex_compiles("^(#{2,3})\\s+(.+)$") {
        return Err(MarkdownError::InvalidPattern);
    }
    let rows = lines(&chars_of(body.as_str()));
    let mut headings: Vec<bool> = Vec::new();
    let mut i: usize = 0;
    while i < rows.len()
        invariant
            i <= rows.len(),
            pattern_compiles(heading_pattern()),
            headings@ == headings_of(texts(rows@)).take(i as int),
        decreases rows.len() - i,
    {
        let line = text_of(&rows[i]);
        headings.push(regex_is_match("^(#{2,3})\\s+(.+)$", line.as_str()));
        assert(headings@ =~= headings_of(texts(rows@)).take(i + 1));
        i += 1;
    }
    assert(headings_of(texts(rows@)).take(rows.len() as int) =~= headings_of(texts(rows@)));
    Ok(assemble_sections(&rows, &headings, &metadata))
}

} // verus!
