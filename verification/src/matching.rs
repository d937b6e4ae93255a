//! The `regex` calls that match log lines against the patterns.
use crate::patterns::{
    header_groups, header_name, is_frame_text, jest_error_groups, jest_header_groups,
    jest_line_groups, line_number_groups, panic_groups, pytest_groups, running_groups, time_rest,
    without_styles, ANSI_RE, JEST_AT_RE, JEST_ERROR_RE, JEST_FAIL_RE, JEST_LINE_RE, LINE_NUMBER_RE,
    PYTEST_FAILED_RE, RUST_FAILURE_HEADER_RE, RUST_PANIC_RE, RUST_RUNNING_RE, TIMESTAMP_RE,
};
use regex::Regex;
use vstd::prelude::*;

verus! {

/// The patterns that log lines are matched against.
pub open spec fn is_log_pattern(pattern: Seq<char>) -> bool {
    ||| pattern == ANSI_RE@
    ||| pattern == TIMESTAMP_RE@
    ||| pattern == PYTEST_FAILED_RE@
    ||| pattern == LINE_NUMBER_RE@
    ||| pattern == JEST_FAIL_RE@
    ||| pattern == JEST_ERROR_RE@
    ||| pattern == JEST_AT_RE@
    ||| pattern == JEST_LINE_RE@
    ||| pattern == RUST_FAILURE_HEADER_RE@
    ||| pattern == RUST_PANIC_RE@
    ||| pattern == RUST_RUNNING_RE@
}

/// A compiled regular expression.
#[verifier::external_type_specification]
#[verifier::external_body]
pub struct ExRegex(regex::Regex);

/// The pattern that a regular expression was compiled from: what `Regex::as_str` gives.
pub uninterp spec fn source_of(re: Regex) -> Seq<char>;

/// The groups of the leftmost match of `pattern` in `text`, the whole match first: what
/// `Regex::captures` gives. A group that took no part in the match is `None`.
pub uninterp spec fn captures_of(pattern: Seq<char>, text: Seq<char>) -> Option<
    Seq<Option<Seq<char>>>,
>;

// ---------------------------------------------------------------------------
// Outside calls
// ---------------------------------------------------------------------------

/// `Regex::new`, on one of the patterns. All of these are valid, so it succeeds; the
/// expression remembers its pattern.
#[verifier::external_body]
pub(crate) fn compile(pattern: &str) -> (re: Regex)
    requires
        is_log_pattern(pattern@),
    ensures
        source_of(re) == pattern@,
{
    Regex::new(pattern).unwrap()
}

/// `Regex::captures`: the groups of the leftmost match. They depend on the pattern and the text
/// alone. For the patterns that are searched with it, each clause says what the match is.
#[verifier::external_body]
pub(crate) fn captures(re: &Regex, text: &str) -> (groups: Option<Vec<Option<String>>>)
    ensures
        groups.deep_view() == captures_of(source_of(*re), text@),
        source_of(*re) == PYTEST_FAILED_RE@ ==> groups.deep_view() == pytest_groups(text@),
        source_of(*re) == LINE_NUMBER_RE@ ==> groups.deep_view() == line_number_groups(text@),
        source_of(*re) == JEST_FAIL_RE@ ==> groups.deep_view() == jest_header_groups(text@),
        source_of(*re) == JEST_ERROR_RE@ ==> groups.deep_view() == jest_error_groups(text@),
        source_of(*re) == JEST_LINE_RE@ ==> groups.deep_view() == jest_line_groups(text@),
        source_of(*re) == RUST_FAILURE_HEADER_RE@ ==> groups.deep_view() == header_groups(text@),
        source_of(*re) == RUST_PANIC_RE@ ==> groups.deep_view() == panic_groups(text@),
        source_of(*re) == RUST_RUNNING_RE@ ==> groups.deep_view() == running_groups(text@),
{
    re.captures(text).map(
        |found| found.iter().map(|group| group.map(|part| part.as_str().to_string())).collect(),
    )
}

/// `Regex::is_match`: whether there is a match, so whether `Regex::captures` gives one. For the
/// patterns that are only asked for a match, each clause says when there is one.
#[verifier::external_body]
pub(crate) fn is_match(re: &Regex, text: &str) -> (yes: bool)
    ensures
        yes == (captures_of(source_of(*re), text@) is Some),
        source_of(*re) == JEST_AT_RE@ ==> yes == is_frame_text(text@),
        source_of(*re) == RUST_FAILURE_HEADER_RE@ ==> yes == (header_name(text@) is Some),
{
    re.is_match(text)
}

/// `Regex::find` of the time at the start of a line, as the part of the text behind the match. The
/// pattern holds at the start of the text only; `\d` is a decimal digit and `\s` white space of
/// Unicode.
#[verifier::external_body]
pub(crate) fn find_rest<'a>(re: &Regex, text: &'a str) -> (rest: Option<&'a str>)
    requires
        source_of(*re) == TIMESTAMP_RE@,
    ensures
        rest.deep_view() == time_rest(text@),
{
    re.find(text).map(|found| &text[found.end()..])
}

/// `Regex::replace_all` of the style sequences of a terminal by nothing: all of them go, from the
/// left to the right, and everything else stays.
#[verifier::external_body]
pub(crate) fn remove_all(re: &Regex, text: &str) -> (result: String)
    requires
        source_of(*re) == ANSI_RE@,
    ensures
        result@ == without_styles(text@),
{
    re.replace_all(text, "").into_owned()
}

/// The text of the group `i` of a match, if it took part in it.
pub open spec fn group_of(groups: Seq<Option<Seq<char>>>, i: int) -> Option<Seq<char>> {
    if 0 <= i < groups.len() {
        groups[i]
    } else {
        None
    }
}

/// The text of a group.
pub fn group(groups: &Vec<Option<String>>, i: usize) -> (text: Option<String>)
    ensures
        text.deep_view() == group_of(groups.deep_view(), i as int),
{
    if i < groups.len() {
        match &groups[i] {
            Some(text) => Some(text.clone()),
            None => None,
        }
    } else {
        None
    }
}

/// The text of the first group of a match, if there is a match and the group took part in it.
pub open spec fn first_of(found: Option<Seq<Option<Seq<char>>>>) -> Option<Seq<char>> {
    match found {
        Some(groups) => group_of(groups, 1),
        None => None,
    }
}

/// The text of the first group of a match.
pub fn take_first(found: &Option<Vec<Option<String>>>) -> (text: Option<String>)
    ensures
        text.deep_view() == first_of(found.deep_view()),
{
    match found {
        Some(groups) => group(groups, 1),
        None => None,
    }
}

} // verus!
