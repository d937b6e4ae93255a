//! The patterns that log lines are matched against, and what they match. A match is given by its
//! groups, the whole match first; a group that takes no part in a match is `None`.
use crate::matching::captures_of;
use crate::number::is_digit;
use crate::seqs::{lemma_next_where, next_where};
use crate::text::{is_space, lemma_found_from, mentions, occurs_at};
use vstd::prelude::*;

verus! {

/// Colour and style sequences of a terminal.
pub const ANSI_RE: &'static str = r"\x1b\[[0-9;]*m";

/// The time at the start of a log line.
pub const TIMESTAMP_RE: &'static str = r"^\d{4}-\d{2}-\d{2}T\d{2}:\d{2}:\d{2}\.\d+Z\s?";

/// A failed test in the short summary of pytest: outcome, test path, error.
pub const PYTEST_FAILED_RE: &'static str = r"(FAILED|ERROR)\s+([^\s]+)\s+-\s+(.*)$";

/// A line number between colons.
pub const LINE_NUMBER_RE: &'static str = r":(\d+):";

/// The header of a failed test file of Jest: browser, if any, and file.
pub const JEST_FAIL_RE: &'static str =
    r"FAIL\s+(?:browser:\s*(\S+)\s+)?(\S+\.(?:tsx?|jsx?|mjs|cjs))";

/// The name of a failed test of Jest.
pub const JEST_ERROR_RE: &'static str = r"●\s+(.+)$";

/// A frame of a JavaScript stack trace.
pub const JEST_AT_RE: &'static str = r"^\s+at\s+";

/// The line number of a JavaScript stack frame.
pub const JEST_LINE_RE: &'static str = r"[:/](\d+):\d+\)?$";

/// The header of the output of a failed Rust test.
pub const RUST_FAILURE_HEADER_RE: &'static str = r"^---- (.+?) stdout ----$";

/// A panic of a Rust test: thread, file, line.
pub const RUST_PANIC_RE: &'static str =
    r"^thread '(.+?)' (?:\(\d+\) )?panicked at (.+?):(\d+):\d+:$";

/// The announcement of a Rust test binary.
pub const RUST_RUNNING_RE: &'static str = r"Running\s+(.+?)\s+\(target/";

/// A decimal digit.
pub const DIGIT_RE: &'static str = r"\d";

/// The groups of a match.
pub type Groups = Seq<Option<Seq<char>>>;

// ---------------------------------------------------------------------------
// Times, styles and headers
// ---------------------------------------------------------------------------

/// Whether `\d` matches `c`: the digits `0` to `9`, and beyond ASCII what the class `\d` holds.
pub open spec fn is_decimal(c: char) -> bool {
    if (c as u32) < 128 {
        is_digit(c)
    } else {
        captures_of(DIGIT_RE@, seq![c]) is Some
    }
}

/// Holds of the characters that `\d` does not match.
pub open spec fn not_decimal() -> spec_fn(char) -> bool {
    |c: char| !is_decimal(c)
}

/// Whether `\d` matches the characters of `s` from `from` up to `to`.
pub open spec fn decimals_at(s: Seq<char>, from: int, to: int) -> bool {
    forall|i: int| from <= i < to ==> is_decimal(#[trigger] s[i])
}

/// Whether `s` starts with a date, a `T`, a time of day and a dot.
pub open spec fn opens_with_time(s: Seq<char>) -> bool {
    &&& s.len() >= 20
    &&& decimals_at(s, 0, 4) && s[4] == '-'
    &&& decimals_at(s, 5, 7) && s[7] == '-'
    &&& decimals_at(s, 8, 10) && s[10] == 'T'
    &&& decimals_at(s, 11, 13) && s[13] == ':'
    &&& decimals_at(s, 14, 16) && s[16] == ':'
    &&& decimals_at(s, 17, 19) && s[19] == '.'
}

/// Where the time at the start of `s` ends, if there is one: behind the `Z` that follows the digits
/// of the fraction.
pub open spec fn time_end(s: Seq<char>) -> Option<int> {
    let z = next_where(s, not_decimal(), 20);
    if opens_with_time(s) && 20 < z < s.len() && s[z] == 'Z' {
        Some(z + 1)
    } else {
        None
    }
}

/// What follows the time at the start of `line`, and one white space character behind it.
pub open spec fn time_rest(line: Seq<char>) -> Option<Seq<char>> {
    match time_end(line) {
        Some(k) => if k < line.len() && is_space(line[k]) {
            Some(line.skip(k + 1))
        } else {
            Some(line.skip(k))
        },
        None => None,
    }
}

/// Holds of the characters that end the numbers of a style sequence.
pub open spec fn ends_style() -> spec_fn(char) -> bool {
    |c: char| !is_digit(c) && c != ';'
}

/// The length of the style sequence at the start of `s`, if there is one: an escape, a bracket,
/// numbers with semicolons, and an `m`.
pub open spec fn style_length(s: Seq<char>) -> Option<int> {
    let m = next_where(s, ends_style(), 2);
    if s.len() > 2 && s[0] == '\x1b' && s[1] == '[' && m < s.len() && s[m] == 'm' {
        Some(m + 1)
    } else {
        None
    }
}

/// `s` without its style sequences.
pub open spec fn without_styles(s: Seq<char>) -> Seq<char>
    decreases s.len(),
{
    if s.len() == 0 {
        seq![]
    } else {
        match style_length(s) {
            Some(k) => {
                proof {
                    lemma_style_length(s);
                }
                without_styles(s.skip(k))
            },
            None => seq![s[0]] + without_styles(s.drop_first()),
        }
    }
}

/// A style sequence is not empty and lies within the text.
pub proof fn lemma_style_length(s: Seq<char>)
    ensures
        style_length(s) matches Some(k) ==> 2 < k <= s.len(),
{
    if s.len() > 2 {
        lemma_next_where(s, ends_style(), 2);
    }
}

/// The name in the header of the output of a failed Rust test: what stands between the dashes, all
/// in one line.
pub open spec fn header_name(text: Seq<char>) -> Option<Seq<char>> {
    let from = "---- "@.len() as int;
    let to = text.len() - " stdout ----"@.len();
    if "---- "@.is_prefix_of(text) && " stdout ----"@.is_suffix_of(text) && from < to
        && !text.subrange(from, to).contains('\n') {
        Some(text.subrange(from, to))
    } else {
        None
    }
}

/// The groups of a match in the header of the output of a failed Rust test.
pub open spec fn header_groups(text: Seq<char>) -> Option<Seq<Option<Seq<char>>>> {
    match header_name(text) {
        Some(name) => Some(seq![Some(text), Some(name)]),
        None => None,
    }
}

// ---------------------------------------------------------------------------
// Runs of characters
// ---------------------------------------------------------------------------

/// Holds of white space.
pub open spec fn spaces() -> spec_fn(char) -> bool {
    |c: char| is_space(c)
}

/// Holds of what is not white space.
pub open spec fn not_spaces() -> spec_fn(char) -> bool {
    |c: char| !is_space(c)
}

/// Where the white space from `i` on ends.
pub open spec fn space_end(s: Seq<char>, i: int) -> int {
    next_where(s, not_spaces(), i)
}

/// Where the text without white space from `i` on ends.
pub open spec fn word_end(s: Seq<char>, i: int) -> int {
    next_where(s, spaces(), i)
}

/// Where the digits from `i` on end.
pub open spec fn decimals_end(s: Seq<char>, i: int) -> int {
    next_where(s, not_decimal(), i)
}

/// Where the digits before `i` start.
pub open spec fn decimals_start(s: Seq<char>, i: int) -> int
    decreases i,
{
    if 0 < i <= s.len() && is_decimal(s[i - 1]) {
        decimals_start(s, i - 1)
    } else {
        i
    }
}

/// The leftmost match at or after `i`, where `at` gives the match that starts at a position.
pub open spec fn leftmost(s: Seq<char>, at: spec_fn(int) -> Option<Groups>, i: int) -> Option<
    Groups,
>
    decreases s.len() - i,
{
    if i < 0 || i >= s.len() {
        None
    } else {
        match at(i) {
            Some(groups) => Some(groups),
            None => leftmost(s, at, i + 1),
        }
    }
}

// ---------------------------------------------------------------------------
// pytest
// ---------------------------------------------------------------------------

/// The match of [`PYTEST_FAILED_RE`] that starts with `word` at `p`: white space, a path, a hyphen
/// between white space, and the rest of the text, all in one line.
pub open spec fn pytest_with(s: Seq<char>, word: Seq<char>, p: int) -> Option<Groups> {
    let w = p + word.len();
    let a = space_end(s, w);
    let b = word_end(s, a);
    let c = space_end(s, b);
    let d = space_end(s, c + 1);
    if occurs_at(s, word, p) && w < a < b < c < s.len() && s[c] == '-' && c + 1 < d && !s.skip(
        d,
    ).contains('\n') {
        Some(seq![Some(s.skip(p)), Some(word), Some(s.subrange(a, b)), Some(s.skip(d))])
    } else {
        None
    }
}

/// The match of [`PYTEST_FAILED_RE`] that starts at `p`.
pub open spec fn pytest_at(s: Seq<char>, p: int) -> Option<Groups> {
    match pytest_with(s, "FAILED"@, p) {
        Some(groups) => Some(groups),
        None => pytest_with(s, "ERROR"@, p),
    }
}

/// The match of [`PYTEST_FAILED_RE`].
pub open spec fn pytest_groups(s: Seq<char>) -> Option<Groups> {
    leftmost(s, |p: int| pytest_at(s, p), 0)
}

/// The match of [`LINE_NUMBER_RE`] that starts at `p`: digits between colons.
pub open spec fn line_number_at(s: Seq<char>, p: int) -> Option<Groups> {
    let q = decimals_end(s, p + 1);
    if s[p] == ':' && p + 1 < q < s.len() && s[q] == ':' {
        Some(seq![Some(s.subrange(p, q + 1)), Some(s.subrange(p + 1, q))])
    } else {
        None
    }
}

/// The match of [`LINE_NUMBER_RE`].
pub open spec fn line_number_groups(s: Seq<char>) -> Option<Groups> {
    leftmost(s, |p: int| line_number_at(s, p), 0)
}

// ---------------------------------------------------------------------------
// Jest
// ---------------------------------------------------------------------------

/// Where the extension of a test file that starts with the dot at `d` ends.
pub open spec fn extension_end(s: Seq<char>, d: int) -> Option<int> {
    if occurs_at(s, ".tsx"@, d) || occurs_at(s, ".jsx"@, d) || occurs_at(s, ".mjs"@, d)
        || occurs_at(s, ".cjs"@, d) {
        Some(d + 4)
    } else if occurs_at(s, ".ts"@, d) || occurs_at(s, ".js"@, d) {
        Some(d + 3)
    } else {
        None
    }
}

/// Where a test file that starts at `k` ends, if the dot of its extension stands at `d` or before:
/// behind the last such extension.
pub open spec fn file_end_before(s: Seq<char>, k: int, d: int) -> Option<int>
    decreases d,
{
    if d <= k || d <= 0 {
        None
    } else {
        match extension_end(s, d) {
            Some(end) => Some(end),
            None => file_end_before(s, k, d - 1),
        }
    }
}

/// Where the test file that starts at `k` ends, if one does.
pub open spec fn file_end(s: Seq<char>, k: int) -> Option<int> {
    file_end_before(s, k, word_end(s, k) - 1)
}

/// The match of [`JEST_FAIL_RE`] that starts at `p` and names a browser.
pub open spec fn browser_header_at(s: Seq<char>, p: int) -> Option<Groups> {
    let k = space_end(s, p + 4);
    let m = space_end(s, k + 8);
    let r = word_end(s, m);
    let t = space_end(s, r);
    if occurs_at(s, "FAIL"@, p) && p + 4 < k && occurs_at(s, "browser:"@, k) && m < r < t {
        match file_end(s, t) {
            Some(end) => Some(
                seq![Some(s.subrange(p, end)), Some(s.subrange(m, r)), Some(s.subrange(t, end))],
            ),
            None => None,
        }
    } else {
        None
    }
}

/// The match of [`JEST_FAIL_RE`] that starts at `p` and names no browser.
pub open spec fn plain_header_at(s: Seq<char>, p: int) -> Option<Groups> {
    let k = space_end(s, p + 4);
    if occurs_at(s, "FAIL"@, p) && p + 4 < k {
        match file_end(s, k) {
            Some(end) => Some(seq![Some(s.subrange(p, end)), None, Some(s.subrange(k, end))]),
            None => None,
        }
    } else {
        None
    }
}

/// The match of [`JEST_FAIL_RE`] that starts at `p`: with a browser, if there can be one.
pub open spec fn jest_header_at(s: Seq<char>, p: int) -> Option<Groups> {
    match browser_header_at(s, p) {
        Some(groups) => Some(groups),
        None => plain_header_at(s, p),
    }
}

/// The match of [`JEST_FAIL_RE`].
pub open spec fn jest_header_groups(s: Seq<char>) -> Option<Groups> {
    leftmost(s, |p: int| jest_header_at(s, p), 0)
}

/// The match of [`JEST_ERROR_RE`] that starts at `p`: the rest of the text behind the white space,
/// all in one line. Of nothing but white space the last character is the rest.
pub open spec fn jest_error_at(s: Seq<char>, p: int) -> Option<Groups> {
    let k = space_end(s, p + 1);
    let from = if k < s.len() {
        k
    } else {
        s.len() - 1
    };
    if s[p] == '●' && p + 1 < k && p + 1 < from && !s.skip(from).contains('\n') {
        Some(seq![Some(s.skip(p)), Some(s.skip(from))])
    } else {
        None
    }
}

/// The match of [`JEST_ERROR_RE`].
pub open spec fn jest_error_groups(s: Seq<char>) -> Option<Groups> {
    leftmost(s, |p: int| jest_error_at(s, p), 0)
}

/// Whether [`JEST_AT_RE`] matches: the text starts with `at` between white space.
pub open spec fn is_frame_text(s: Seq<char>) -> bool {
    let k = space_end(s, 0);
    0 < k && occurs_at(s, "at"@, k) && k + 2 < s.len() && is_space(s[k + 2])
}

/// The match of [`JEST_LINE_RE`] that starts at `p`: two numbers up to the end of the text, or up to
/// a bracket there.
pub open spec fn jest_line_at(s: Seq<char>, p: int) -> Option<Groups> {
    let q = decimals_end(s, p + 1);
    let r = decimals_end(s, q + 1);
    if (s[p] == ':' || s[p] == '/') && p + 1 < q < s.len() && s[q] == ':' && q + 1 < r && (r
        == s.len() || r + 1 == s.len() && s[r] == ')') {
        Some(seq![Some(s.skip(p)), Some(s.subrange(p + 1, q))])
    } else {
        None
    }
}

/// The match of [`JEST_LINE_RE`].
pub open spec fn jest_line_groups(s: Seq<char>) -> Option<Groups> {
    leftmost(s, |p: int| jest_line_at(s, p), 0)
}

// ---------------------------------------------------------------------------
// Rust
// ---------------------------------------------------------------------------

/// Where the line and column at the end of a panic report start, at the colon before them, and where
/// the line ends: two numbers between colons.
pub open spec fn panic_tail(s: Seq<char>) -> Option<(int, int)> {
    let z = s.len() - 1;
    let y = decimals_start(s, z);
    let x = decimals_start(s, y - 1);
    if z > 0 && s[z] == ':' && 1 < y < z && s[y - 1] == ':' && 0 < x < y - 1 && s[x - 1] == ':' {
        Some((x - 1, y - 1))
    } else {
        None
    }
}

/// Where the word `panicked` stands behind the name of the thread that ends at `e`: behind the
/// number of the thread, if there is one.
pub open spec fn panicked_from(s: Seq<char>, e: int) -> int {
    let a = e + 2;
    let c = decimals_end(s, a + 1);
    if occurs_at(s, "("@, a) && a + 1 < c && occurs_at(s, ") "@, c) {
        c + 2
    } else {
        a
    }
}

/// The match of [`RUST_PANIC_RE`] in which the name of the thread ends at `e` or behind it: at the
/// first place that fits.
pub open spec fn panic_from(s: Seq<char>, e: int) -> Option<Groups>
    decreases s.len() - e,
{
    let name = "thread '"@.len() as int;
    let file = panicked_from(s, e) + "panicked at "@.len();
    if e <= name || e >= s.len() || s[e - 1] == '\n' {
        None
    } else {
        match panic_tail(s) {
            Some((colon, end)) if occurs_at(s, "' "@, e) && occurs_at(
                s,
                "panicked at "@,
                panicked_from(s, e),
            ) && file < colon && !s.subrange(file, colon).contains('\n') => Some(
                seq![
                    Some(s),
                    Some(s.subrange(name, e)),
                    Some(s.subrange(file, colon)),
                    Some(s.subrange(colon + 1, end)),
                ],
            ),
            _ => panic_from(s, e + 1),
        }
    }
}

/// The match of [`RUST_PANIC_RE`].
pub open spec fn panic_groups(s: Seq<char>) -> Option<Groups> {
    if "thread '"@.is_prefix_of(s) {
        panic_from(s, "thread '"@.len() as int + 1)
    } else {
        None
    }
}

/// Where the name of a test binary that starts at `j` ends, looked for from `g` on: at the first
/// white space that leads to its directory, in the same line.
pub open spec fn binary_end(s: Seq<char>, j: int, g: int) -> Option<int>
    decreases s.len() - g,
{
    if g < 0 || g >= s.len() {
        None
    } else if j < g && is_space(s[g]) && occurs_at(s, "(target/"@, space_end(s, g)) {
        Some(g)
    } else if s[g] == '\n' {
        None
    } else {
        binary_end(s, j, g + 1)
    }
}

/// The match of [`RUST_RUNNING_RE`] that starts at `p`, with the name of the test binary at `j` or
/// before: as far behind as it can start.
pub open spec fn running_from(s: Seq<char>, p: int, j: int) -> Option<Groups>
    decreases j,
{
    if p < 0 || j <= p + 7 {
        None
    } else {
        match binary_end(s, j, j) {
            Some(g) => Some(
                seq![Some(s.subrange(p, space_end(s, g) + 8)), Some(s.subrange(j, g))],
            ),
            None => running_from(s, p, j - 1),
        }
    }
}

/// The match of [`RUST_RUNNING_RE`] that starts at `p`.
pub open spec fn running_at(s: Seq<char>, p: int) -> Option<Groups> {
    if occurs_at(s, "Running"@, p) {
        running_from(s, p, space_end(s, p + 7))
    } else {
        None
    }
}

/// The match of [`RUST_RUNNING_RE`].
pub open spec fn running_groups(s: Seq<char>) -> Option<Groups> {
    leftmost(s, |p: int| running_at(s, p), 0)
}

// ---------------------------------------------------------------------------
// What a match says of a text
// ---------------------------------------------------------------------------

/// Whether `s` holds no white space.
pub open spec fn is_unspaced(s: Seq<char>) -> bool {
    forall|i: int| 0 <= i < s.len() ==> !is_space(#[trigger] s[i])
}

/// Whether `file` ends with `extension` and has something before it.
pub open spec fn has_extension(file: Seq<char>, extension: Seq<char>) -> bool {
    file.len() > extension.len() && extension.is_suffix_of(file)
}

/// Whether `file` can be the name of a test file of Jest: no white space, and an extension of
/// TypeScript or JavaScript.
pub open spec fn is_test_file(file: Seq<char>) -> bool {
    &&& is_unspaced(file)
    &&& {
        ||| has_extension(file, ".ts"@)
        ||| has_extension(file, ".tsx"@)
        ||| has_extension(file, ".js"@)
        ||| has_extension(file, ".jsx"@)
        ||| has_extension(file, ".mjs"@)
        ||| has_extension(file, ".cjs"@)
    }
}

/// The leftmost match starts where one starts.
proof fn lemma_leftmost(s: Seq<char>, at: spec_fn(int) -> Option<Groups>, i: int) -> (p: int)
    requires
        0 <= i,
        leftmost(s, at, i) is Some,
    ensures
        i <= p < s.len(),
        at(p) == leftmost(s, at, i),
    decreases s.len() - i,
{
    if at(i) is Some {
        i
    } else {
        lemma_leftmost(s, at, i + 1)
    }
}

/// A match of [`RUST_RUNNING_RE`] names a test binary.
pub proof fn lemma_running_groups(s: Seq<char>)
    ensures
        running_groups(s) matches Some(groups) ==> groups.len() == 2 && groups[1] is Some,
{
    if running_groups(s) is Some {
        let p = lemma_leftmost(s, |p: int| running_at(s, p), 0);
        lemma_running_from(s, p, space_end(s, p + 7));
    }
}

proof fn lemma_running_from(s: Seq<char>, p: int, j: int)
    ensures
        running_from(s, p, j) matches Some(groups) ==> groups.len() == 2 && groups[1] is Some,
    decreases j,
{
    if p >= 0 && j > p + 7 && binary_end(s, j, j) is None {
        lemma_running_from(s, p, j - 1);
    }
}

/// A match of [`JEST_ERROR_RE`] needs a bullet, and names an error.
pub proof fn lemma_jest_error_groups(s: Seq<char>)
    ensures
        jest_error_groups(s) matches Some(groups) ==> {
            &&& groups.len() == 2
            &&& groups[1] is Some
            &&& s.contains('●')
        },
{
    if jest_error_groups(s) is Some {
        let p = lemma_leftmost(s, |p: int| jest_error_at(s, p), 0);
        assert(s[p] == '●');
    }
}

/// A match of [`JEST_LINE_RE`] gives a line number.
pub proof fn lemma_jest_line_groups(s: Seq<char>)
    ensures
        jest_line_groups(s) matches Some(groups) ==> groups.len() == 2 && groups[1] is Some,
{
    if jest_line_groups(s) is Some {
        let p = lemma_leftmost(s, |p: int| jest_line_at(s, p), 0);
    }
}

/// A match of [`LINE_NUMBER_RE`] gives a line number.
pub proof fn lemma_line_number_groups(s: Seq<char>)
    ensures
        line_number_groups(s) matches Some(groups) ==> groups.len() == 2 && groups[1] is Some,
{
    if line_number_groups(s) is Some {
        let p = lemma_leftmost(s, |p: int| line_number_at(s, p), 0);
    }
}

/// A match of [`PYTEST_FAILED_RE`] needs one of its words, and its path holds no white space.
pub proof fn lemma_pytest_groups(s: Seq<char>)
    ensures
        pytest_groups(s) matches Some(groups) ==> {
            &&& mentions(s, "FAILED"@) || mentions(s, "ERROR"@)
            &&& groups.len() == 4
            &&& groups[2] matches Some(path) && path.len() > 0 && is_unspaced(path)
            &&& groups[3] is Some
        },
{
    if pytest_groups(s) is Some {
        let p = lemma_leftmost(s, |p: int| pytest_at(s, p), 0);
        let word = if pytest_with(s, "FAILED"@, p) is Some {
            "FAILED"@
        } else {
            "ERROR"@
        };
        let a = space_end(s, p + word.len());
        assert(pytest_with(s, word, p) == pytest_groups(s));
        lemma_found_from(s, word, 0);
        assert(occurs_at(s, word, p));
        lemma_next_where(s, spaces(), a);
        assert forall|i: int| a <= i < word_end(s, a) implies !is_space(#[trigger] s[i]) by {
            assert(!spaces()(s[i]));
        }
    }
}

/// An extension is not empty and lies within the text without white space around its dot.
proof fn lemma_extension(s: Seq<char>, k: int, d: int)
    requires
        0 <= k < d < word_end(s, k),
        k <= s.len(),
        extension_end(s, d) is Some,
    ensures
        d < extension_end(s, d)->0 <= word_end(s, k),
        is_test_file(s.subrange(k, extension_end(s, d)->0)),
{
    let e = word_end(s, k);
    let end = extension_end(s, d)->0;
    let file = s.subrange(k, end);
    lemma_next_where(s, spaces(), k);
    reveal_strlit(".tsx");
    reveal_strlit(".jsx");
    reveal_strlit(".mjs");
    reveal_strlit(".cjs");
    reveal_strlit(".ts");
    reveal_strlit(".js");
    let extension = if occurs_at(s, ".tsx"@, d) {
        ".tsx"@
    } else if occurs_at(s, ".jsx"@, d) {
        ".jsx"@
    } else if occurs_at(s, ".mjs"@, d) {
        ".mjs"@
    } else if occurs_at(s, ".cjs"@, d) {
        ".cjs"@
    } else if occurs_at(s, ".ts"@, d) {
        ".ts"@
    } else {
        ".js"@
    };
    assert(end == d + extension.len());
    assert(s.subrange(d, end) == extension);
    assert forall|i: int| 0 <= i < extension.len() implies !is_space(#[trigger] extension[i]) by {}
    assert(end <= e) by {
        if e < end {
            assert(spaces()(s[e]));
            assert(s.subrange(d, end)[e - d] == s[e]);
            assert(extension[e - d] == s[e]);
        }
    }
    assert forall|i: int| 0 <= i < file.len() implies !is_space(#[trigger] file[i]) by {
        assert(!spaces()(s[k + i]));
    }
    assert(file.subrange(file.len() - extension.len(), file.len() as int) =~= extension);
    assert(has_extension(file, extension));
}

proof fn lemma_file_end(s: Seq<char>, k: int, d: int)
    requires
        0 <= k <= s.len(),
        d < word_end(s, k),
    ensures
        file_end_before(s, k, d) matches Some(end) ==> is_test_file(s.subrange(k, end)),
    decreases d,
{
    if k < d {
        if extension_end(s, d) is Some {
            lemma_extension(s, k, d);
        } else {
            lemma_file_end(s, k, d - 1);
        }
    }
}

/// A match of [`JEST_FAIL_RE`] needs its first word, and names a test file.
pub proof fn lemma_jest_header_groups(s: Seq<char>)
    ensures
        jest_header_groups(s) matches Some(groups) ==> {
            &&& mentions(s, "FAIL"@)
            &&& groups.len() == 3
            &&& groups[2] matches Some(file) && is_test_file(file)
        },
{
    if jest_header_groups(s) is Some {
        let p = lemma_leftmost(s, |p: int| jest_header_at(s, p), 0);
        reveal_strlit("FAIL");
        reveal_strlit("browser:");
        lemma_found_from(s, "FAIL"@, 0);
        assert(occurs_at(s, "FAIL"@, p));
        let k = space_end(s, p + 4);
        lemma_next_where(s, not_spaces(), p + 4);
        if browser_header_at(s, p) is Some {
            let m = space_end(s, k + 8);
            let r = word_end(s, m);
            let t = space_end(s, r);
            lemma_next_where(s, not_spaces(), k + 8);
            lemma_next_where(s, spaces(), m);
            lemma_next_where(s, not_spaces(), r);
            lemma_file_end(s, t, word_end(s, t) - 1);
        } else {
            lemma_file_end(s, k, word_end(s, k) - 1);
        }
    }
}

} // verus!
