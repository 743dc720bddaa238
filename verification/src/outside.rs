//! Everything this library takes on trust: the calls into `chrono`, `uuid`,
//! `dirs` and `regex`, and a few functions of the standard library on text
//! and paths. Each executable function here has a body that Verus does not
//! read; what its contract says is believed, not proved.

use vstd::prelude::*;

verus! {

/// What `chrono` reads from `text` as a date with a time of day written in
/// `format`, as milliseconds since the epoch, the reading taken as UTC;
/// none where `chrono` does not accept `text` under `format`.
pub uninterp spec fn datetime_millis(text: Seq<char>, format: Seq<char>) -> Option<i64>;

/// What `chrono` reads from `text` as a date written in `format`, taken at
/// the given time of day in UTC, as milliseconds since the epoch. The outer
/// option is none where `chrono` does not accept `text` under `format`, the
/// inner one where it does not accept the time of day.
pub uninterp spec fn date_millis(
    text: Seq<char>,
    format: Seq<char>,
    hour: u32,
    minute: u32,
    second: u32,
) -> Option<Option<i64>>;

/// Calls `chrono::NaiveDateTime::parse_from_str` and turns what it read
/// into milliseconds through `and_utc` and `timestamp_millis`. Claimed: the
/// outcome depends on the two texts alone. `chrono` rejects by an error, not
/// by a panic; the error's content is dropped.
#[verifier::external_body]
pub(crate) fn read_datetime_millis(text: &str, format: &str) -> (millis: Option<i64>)
    ensures
        millis == datetime_millis(text@, format@),
{
    match chrono::NaiveDateTime::parse_from_str(text, format) {
        Ok(moment) => Some(moment.and_utc().timestamp_millis()),
        Err(_) => None,
    }
}

/// Calls `chrono::NaiveDate::parse_from_str`, attaches the time of day with
/// `and_hms_opt` and turns the result into milliseconds through `and_utc`
/// and `timestamp_millis`. Claimed: the outcome depends on the arguments
/// alone. Both steps reject by a value, not by a panic.
#[verifier::external_body]
pub(crate) fn read_date_millis(text: &str, format: &str, hour: u32, minute: u32, second: u32) -> (millis:
    Option<Option<i64>>)
    ensures
        millis == date_millis(text@, format@, hour, minute, second),
{
    match chrono::NaiveDate::parse_from_str(text, format) {
        Ok(day) => Some(
            day.and_hms_opt(hour, minute, second).map(|moment| moment.and_utc().timestamp_millis()),
        ),
        Err(_) => None,
    }
}

/// Calls `chrono::Utc::now` and gives the moment as milliseconds since the
/// epoch. Nothing is claimed of the value. The call panics on a machine
/// whose clock stands before the epoch.
#[verifier::external_body]
pub(crate) fn current_millis() -> i64 {
    chrono::Utc::now().timestamp_millis()
}

/// Calls `uuid::Uuid::new_v4` and gives the identifier in its usual
/// hyphenated spelling. Nothing is claimed of the value: it is random. The
/// call panics where the system cannot supply random bytes.
#[verifier::external_body]
pub(crate) fn fresh_identifier() -> String {
    uuid::Uuid::new_v4().to_string()
}

/// Calls `dirs::home_dir` and gives the path as text. Nothing is claimed of
/// the value: it depends on the user and the machine.
#[verifier::external_body]
pub(crate) fn home_directory() -> Option<String> {
    dirs::home_dir().map(|path| path.to_string_lossy().into_owned())
}

/// Calls `std::path::Path::join` and gives the path as text. Nothing is
/// claimed of the value: the separator is the platform's.
#[verifier::external_body]
pub(crate) fn join_path(base: &str, part: &str) -> String {
    std::path::Path::new(base).join(part).to_string_lossy().into_owned()
}

/// Whether `pattern` occurs in `text` as a run of consecutive characters.
pub open spec fn has_substring(text: Seq<char>, pattern: Seq<char>) -> bool {
    exists|start: int|
        0 <= start <= text.len() - pattern.len() && #[trigger] text.subrange(
            start,
            start + pattern.len(),
        ) == pattern
}

/// Calls `str::contains` with a string as the pattern. Claimed: it finds
/// exactly the occurrences of the pattern as a substring.
#[verifier::external_body]
pub(crate) fn contains_text(text: &str, pattern: &str) -> (found: bool)
    ensures
        found == has_substring(text@, pattern@),
{
    text.contains(pattern)
}

/// `text` with every character in lower case, as the standard library's
/// Unicode tables have it.
pub uninterp spec fn lowercase(text: Seq<char>) -> Seq<char>;

/// Calls `str::to_lowercase`. Claimed: the outcome depends on the text
/// alone.
#[verifier::external_body]
pub(crate) fn to_lowercase(text: &str) -> (lowered: String)
    ensures
        lowered@ == lowercase(text@),
{
    text.to_lowercase()
}

/// Calls `String::push`. Claimed: the character is appended and nothing
/// else changes.
#[verifier::external_body]
pub(crate) fn push_char(text: &mut String, c: char)
    ensures
        final(text)@ == old(text)@.push(c),
{
    text.push(c)
}

/// Whether `regex` accepts `pattern` as a regular expression.
pub uninterp spec fn pattern_compiles(pattern: Seq<char>) -> bool;

/// Whether the regular expression `pattern` matches somewhere in `text`.
pub uninterp spec fn pattern_matches(pattern: Seq<char>, text: Seq<char>) -> bool;

/// What the first match of the regular expression `pattern` in `text`
/// captures, if there is a match: the text of its first group, where that
/// group took part in the match, and all of `text` behind the end of the
/// match.
pub uninterp spec fn pattern_capture(pattern: Seq<char>, text: Seq<char>) -> Option<
    (Option<Seq<char>>, Seq<char>),
>;

/// Calls `regex::Regex::new` and tells whether it succeeded. Claimed: the
/// outcome depends on the pattern alone.
#[verifier::external_body]
pub(crate) fn regex_compiles(pattern: &str) -> (accepted: bool)
    ensures
        accepted == pattern_compiles(pattern@),
{
    regex::Regex::new(pattern).is_ok()
}

/// Calls `regex::Regex::is_match` on the expression that `regex::Regex::new`
/// makes of `pattern`. Claimed: the outcome depends on the two texts alone.
#[verifier::external_body]
pub(crate) fn regex_is_match(pattern: &str, text: &str) -> (found: bool)
    requires
        pattern_compiles(pattern@),
    ensures
        found == pattern_matches(pattern@, text@),
{
    match regex::Regex::new(pattern) {
        Ok(expression) => expression.is_match(text),
        Err(_) => false,
    }
}

/// Calls `regex::Regex::captures` on the expression that `regex::Regex::new`
/// makes of `pattern`, and hands out the first group and what lies behind
/// the whole match (`Captures::get` with 1 and with 0, `Match::as_str` and
/// `Match::end`). Claimed: the outcome depends on the two texts alone. The
/// end of a match is a place where `text` may be cut.
#[verifier::external_body]
pub(crate) fn regex_captures(pattern: &str, text: &str) -> (found: Option<(Option<String>, String)>)
    requires
        pattern_compiles(pattern@),
    ensures
        captured(found) == pattern_capture(pattern@, text@),
{
    let captures = regex::Regex::new(pattern).ok()?.captures(text)?;
    let whole = captures.get(0)?;
    Some((captures.get(1).map(|m| m.as_str().to_string()), text[whole.end()..].to_string()))
}

/// What a capture holds, as plain values.
pub open spec fn captured(found: Option<(Option<String>, String)>) -> Option<
    (Option<Seq<char>>, Seq<char>),
> {
    match found {
        Some((group, rest)) => Some(
            (
                match group {
                    Some(text) => Some(text@),
                    None => None,
                },
                rest@,
            ),
        ),
        None => None,
    }
}

} // verus!
