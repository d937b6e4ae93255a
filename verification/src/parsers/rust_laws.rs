//! What the errors of Rust's test harness say of the lines of a log.
use super::laws::{
    are_timed, is_timed, law_one_timestamp_is_removed, lemma_header_is_trimmed, lemma_timed,
    plain_lines,
};
use super::{rust_test, without_ansi, without_timestamp, RustTestParser, TestErrorParser};
use crate::number::parsed_u32;
use crate::patterns::{header_name, lemma_running_groups, panic_from, panic_groups, running_groups, time_end};
use crate::seqs::{lemma_next_where, lemma_next_where_is, next_where};
use crate::text::{is_blank, joined, lines_of, mentions, trimmed, trimmed_start};
use crate::text_laws::{law_mentioned_characters_are_held, law_text_is_cut_at_the_first};
use vstd::prelude::*;
use vstd::utf8::encode_utf8;

verus! {

// ---------------------------------------------------------------------------
// Times at the start of lines
// ---------------------------------------------------------------------------

/// Times in front of the lines of a log change nothing in the errors of Rust's test harness.
pub proof fn law_times_change_no_rust_errors(
    timed: Seq<char>,
    bare: Seq<char>,
    job_name: Seq<char>,
    log_filename: Seq<char>,
)
    requires
        are_timed(lines_of(without_ansi(timed)), lines_of(without_ansi(bare))),
    ensures
        RustTestParser.errors_in(timed, job_name, log_filename) == RustTestParser.errors_in(
            bare,
            job_name,
            log_filename,
        ),
{
    let left = lines_of(without_ansi(timed));
    let right = lines_of(without_ansi(bare));
    assert forall|i: int| 0 <= i < left.len() implies rust_test::line_of(#[trigger] left[i])
        == rust_test::line_of(right[i]) by {
        if left[i] != right[i] {
            let stamp = choose|stamp: Seq<char>| is_timed(left[i], right[i], stamp);
            lemma_timed(left[i], right[i], stamp);
        }
    }
    assert(rust_test::log_lines(timed) =~= rust_test::log_lines(bare));
}

// ---------------------------------------------------------------------------
// The failed tests of a log
// ---------------------------------------------------------------------------

/// The test binary that a line announces.
pub open spec fn announced(text: Seq<char>) -> Option<Seq<char>> {
    match running_groups(text) {
        Some(groups) => groups[1],
        None => None,
    }
}

/// Whether a line opens the output of a failed test.
pub open spec fn opens_report(text: Seq<char>) -> bool {
    announced(text) is None && header_name(text) is Some
}

/// Whether a line closes the output of a failed test.
pub open spec fn closes_report(text: Seq<char>) -> bool {
    ||| header_name(trimmed(text)) is Some
    ||| trimmed(text) == "failures:"@
    ||| "test result:"@.is_prefix_of(trimmed(text))
}

/// The file and the line number of the panic that a line reports.
pub open spec fn panic_on(text: Seq<char>) -> Option<rust_test::RustPanicModel> {
    match panic_groups(trimmed(text)) {
        Some(groups) => Some(
            rust_test::RustPanicModel { file: groups[2]->0, number: groups[3]->0 },
        ),
        None => None,
    }
}

/// Whether the output of a failed test opens at line `h` and ends before line `end`.
pub open spec fn is_report(texts: Seq<Seq<char>>, h: int, end: int) -> bool {
    &&& 0 <= h < end <= texts.len()
    &&& opens_report(texts[h])
    &&& end < texts.len() ==> closes_report(texts[end])
    &&& forall|j: int| h < j < end ==> !closes_report(#[trigger] texts[j])
}

/// How many of the first `n` lines open the output of a failed test.
pub open spec fn reports_before(texts: Seq<Seq<char>>, n: int) -> int
    decreases n,
{
    if n <= 0 {
        0
    } else {
        reports_before(texts, n - 1) + if opens_report(texts[n - 1]) {
            1int
        } else {
            0
        }
    }
}

/// Whether line `l` lies in the output of a failed test.
pub open spec fn in_report(texts: Seq<Seq<char>>, l: int) -> bool {
    exists|h: int, end: int| #[trigger] is_report(texts, h, end) && h < l < end
}

/// The test binary announced last in the first `n` lines, outside the output of failed tests.
pub open spec fn binary_before(texts: Seq<Seq<char>>, n: int) -> Seq<char>
    decreases n,
{
    if n <= 0 {
        seq![]
    } else if announced(texts[n - 1]) is Some && !in_report(texts, n - 1) {
        announced(texts[n - 1])->0
    } else {
        binary_before(texts, n - 1)
    }
}

/// What the patterns find in the lines of a log.
proof fn lemma_facts(content: Seq<char>, i: int)
    requires
        0 <= i < plain_lines(content).len(),
    ensures
        ({
            let line = rust_test::log_lines(content)[i];
            let text = plain_lines(content)[i];
            &&& rust_test::log_lines(content).len() == plain_lines(content).len()
            &&& line.text == text
            &&& line.running == announced(text)
            &&& line.failure == header_name(text)
            &&& rust_test::ends_output()(line) == closes_report(text)
            &&& line.panicked == panic_on(text)
            &&& line.panicked is Some ==> !is_blank(text)
            &&& header_name(text) is Some ==> closes_report(text)
        }),
{
    let raw = lines_of(without_ansi(content));
    assert(rust_test::log_lines(content)[i] == rust_test::line_of(raw[i]));
    let text = plain_lines(content)[i];
    assert(text == without_timestamp(raw[i]));
    lemma_panic_groups(trimmed(text));
    lemma_running_groups(text);
    if header_name(text) is Some {
        lemma_header_is_trimmed(text);
    }
}

/// A reported panic has a file and a line number.
proof fn lemma_panic_groups(text: Seq<char>)
    ensures
        panic_groups(text) matches Some(groups) ==> groups.len() == 4 && groups[2] is Some
            && groups[3] is Some && text.len() > 0,
{
    reveal_strlit("thread '");
    if "thread '"@.is_prefix_of(text) {
        lemma_panic_from(text, "thread '"@.len() as int + 1);
    }
}

proof fn lemma_panic_from(text: Seq<char>, e: int)
    ensures
        panic_from(text, e) matches Some(groups) ==> groups.len() == 4 && groups[2] is Some
            && groups[3] is Some,
    decreases text.len() - e,
{
    let name = "thread '"@.len() as int;
    if e <= name || e >= text.len() || text[e - 1] == '\n' {
    } else {
        lemma_panic_from(text, e + 1);
    }
}

/// Where the output that opens at line `h` ends.
proof fn lemma_report(content: Seq<char>, h: int)
    requires
        0 <= h < plain_lines(content).len(),
        opens_report(plain_lines(content)[h]),
    ensures
        is_report(
            plain_lines(content),
            h,
            rust_test::output_end(rust_test::log_lines(content), h),
        ),
{
    let lines = rust_test::log_lines(content);
    let texts = plain_lines(content);
    let end = rust_test::output_end(lines, h);
    lemma_next_where(lines, rust_test::ends_output(), h + 1);
    assert forall|j: int| h < j < end implies !closes_report(#[trigger] texts[j]) by {
        assert(!rust_test::ends_output()(lines[j]));
        lemma_facts(content, j);
    }
    if end < texts.len() {
        lemma_facts(content, end);
    }
}

/// The output that opens at a line ends at one place.
proof fn lemma_report_end(content: Seq<char>, h: int, end: int)
    requires
        is_report(plain_lines(content), h, end),
    ensures
        end == rust_test::output_end(rust_test::log_lines(content), h),
{
    let lines = rust_test::log_lines(content);
    let texts = plain_lines(content);
    assert forall|j: int| h + 1 <= j < end implies !rust_test::ends_output()(
        #[trigger] lines[j],
    ) by {
        assert(!closes_report(texts[j]));
        lemma_facts(content, j);
    }
    if end < texts.len() {
        lemma_facts(content, end);
    }
    lemma_next_where_is(lines, rust_test::ends_output(), h + 1, end);
}

/// Lines in the output of a failed test open no other and announce nothing.
proof fn lemma_within_report(texts: Seq<Seq<char>>, content: Seq<char>, h: int, end: int, n: int)
    requires
        texts == plain_lines(content),
        is_report(texts, h, end),
        h < n <= end,
    ensures
        reports_before(texts, n) == reports_before(texts, h) + 1,
        binary_before(texts, n) == binary_before(texts, h),
    decreases n,
{
    if n > h + 1 {
        lemma_within_report(texts, content, h, end, n - 1);
        assert(!closes_report(texts[n - 1]));
        lemma_facts(content, n - 1);
        assert(in_report(texts, n - 1));
    }
}

/// Whether line `n` lies outside the output of the failed tests before it.
spec fn is_outside(texts: Seq<Seq<char>>, n: int) -> bool {
    forall|h: int, end: int| #[trigger] is_report(texts, h, end) && h < n ==> end <= n
}

proof fn lemma_errors_from(
    content: Seq<char>,
    from: int,
    h: int,
    job_name: Seq<char>,
    log_filename: Seq<char>,
)
    requires
        0 <= from <= plain_lines(content).len(),
        is_outside(plain_lines(content), from),
    ensures
        ({
            let lines = rust_test::log_lines(content);
            let texts = plain_lines(content);
            let errors = rust_test::errors_from(
                lines,
                from,
                binary_before(texts, from),
                job_name,
                log_filename,
            );
            &&& errors.len() == reports_before(texts, texts.len() as int) - reports_before(
                texts,
                from,
            )
            &&& from <= h < texts.len() && opens_report(texts[h]) ==> {
                let k = reports_before(texts, h) - reports_before(texts, from);
                &&& 0 <= k < errors.len()
                &&& errors[k] == rust_test::error_at(
                    lines,
                    h,
                    binary_before(texts, h),
                    job_name,
                    log_filename,
                )
            }
        }),
    decreases plain_lines(content).len() - from,
{
    let lines = rust_test::log_lines(content);
    let texts = plain_lines(content);
    if from < texts.len() {
        lemma_facts(content, from);
        if opens_report(texts[from]) {
            let end = rust_test::output_end(lines, from);
            lemma_report(content, from);
            lemma_within_report(texts, content, from, end, end);
            assert forall|g: int, stop: int| #[trigger]
                is_report(texts, g, stop) && g < end implies stop <= end by {
                if from < g {
                    assert(!closes_report(texts[g]));
                    lemma_facts(content, g);
                } else if g == from {
                    lemma_report_end(content, g, stop);
                }
            }
            lemma_errors_from(content, end, h, job_name, log_filename);
            if from < h < end {
                assert(!closes_report(texts[h]));
                lemma_facts(content, h);
            }
            let own = rust_test::error_at(
                lines,
                from,
                binary_before(texts, from),
                job_name,
                log_filename,
            );
            let rest = rust_test::errors_from(
                lines,
                end,
                binary_before(texts, from),
                job_name,
                log_filename,
            );
            assert(rust_test::errors_from(
                lines,
                from,
                binary_before(texts, from),
                job_name,
                log_filename,
            ) == seq![own] + rest);
            if h >= end && h < texts.len() && opens_report(texts[h]) {
                let k = reports_before(texts, h) - reports_before(texts, end);
                assert((seq![own] + rest)[k + 1] == rest[k]);
            }
        } else {
            assert forall|g: int, stop: int| #[trigger]
                is_report(texts, g, stop) && g < from + 1 implies stop <= from + 1 by {
                assert(g != from);
            }
            assert(!in_report(texts, from)) by {
                if in_report(texts, from) {
                    let (g, stop) = choose|g: int, stop: int| #[trigger]
                        is_report(texts, g, stop) && g < from < stop;
                    assert(stop <= from);
                }
            }
            lemma_errors_from(content, from + 1, h, job_name, log_filename);
        }
    }
}

/// The errors of a log, one for each report.
proof fn lemma_error_of_report(
    content: Seq<char>,
    h: int,
    end: int,
    job_name: Seq<char>,
    log_filename: Seq<char>,
)
    requires
        is_report(plain_lines(content), h, end),
    ensures
        ({
            let texts = plain_lines(content);
            let errors = RustTestParser.errors_in(content, job_name, log_filename);
            let k = reports_before(texts, h);
            &&& 0 <= k < errors.len()
            &&& errors[k] == rust_test::error_at(
                rust_test::log_lines(content),
                h,
                binary_before(texts, h),
                job_name,
                log_filename,
            )
            &&& end == rust_test::output_end(rust_test::log_lines(content), h)
        }),
{
    lemma_errors_from(content, 0, h, job_name, log_filename);
    lemma_report_end(content, h, end);
}

/// Each line that opens the output of a failed test, once styles and the time are removed, gives
/// one error, in the order of the log, and nothing else gives any. The error is of the test named
/// between the dashes.
pub proof fn law_rust_failed_tests_are_found(
    content: Seq<char>,
    h: int,
    name: Seq<char>,
    job_name: Seq<char>,
    log_filename: Seq<char>,
)
    requires
        0 <= h < plain_lines(content).len(),
        plain_lines(content)[h] == "---- "@ + name + " stdout ----"@,
        announced(plain_lines(content)[h]) is None,
        name.len() > 0,
        !name.contains('\n'),
    ensures
        ({
            let texts = plain_lines(content);
            let errors = RustTestParser.errors_in(content, job_name, log_filename);
            let k = reports_before(texts, h);
            &&& errors.len() == reports_before(texts, texts.len() as int)
            &&& 0 <= k < errors.len()
            &&& errors[k].test_name == name
            &&& errors[k].framework == "rust"@
            &&& errors[k].occurrences.len() == 1
            &&& errors[k].occurrences[0].job == job_name
            &&& errors[k].occurrences[0].log_file == log_filename
        }),
{
    let texts = plain_lines(content);
    let text = texts[h];
    lemma_header(name);
    lemma_report(content, h);
    let end = rust_test::output_end(rust_test::log_lines(content), h);
    lemma_errors_from(content, 0, h, job_name, log_filename);
    lemma_error_of_report(content, h, end, job_name, log_filename);
    lemma_facts(content, h);
}

/// The name in a header.
proof fn lemma_header(name: Seq<char>)
    requires
        name.len() > 0,
        !name.contains('\n'),
    ensures
        header_name("---- "@ + name + " stdout ----"@) == Some(name),
{
    let text = "---- "@ + name + " stdout ----"@;
    let from = "---- "@.len() as int;
    let to = text.len() - " stdout ----"@.len();
    assert(text.subrange(0, from) =~= "---- "@);
    assert(text.subrange(to, text.len() as int) =~= " stdout ----"@);
    assert(text.subrange(from, to) =~= name);
}

/// A line that is a time, a space and the header of a failed test gives an error of that test.
pub proof fn law_rust_failed_tests_are_found_behind_times(
    content: Seq<char>,
    h: int,
    stamp: Seq<char>,
    name: Seq<char>,
    job_name: Seq<char>,
    log_filename: Seq<char>,
)
    requires
        0 <= h < lines_of(without_ansi(content)).len(),
        time_end(stamp) == Some(stamp.len() as int),
        lines_of(without_ansi(content))[h] == stamp + " "@ + ("---- "@ + name + " stdout ----"@),
        announced("---- "@ + name + " stdout ----"@) is None,
        name.len() > 0,
        !name.contains('\n'),
    ensures
        exists|k: int|
            0 <= k < RustTestParser.errors_in(content, job_name, log_filename).len() && (
            #[trigger] RustTestParser.errors_in(content, job_name, log_filename)[k]).test_name
                == name,
{
    law_one_timestamp_is_removed(stamp, "---- "@ + name + " stdout ----"@);
    law_rust_failed_tests_are_found(content, h, name, job_name, log_filename);
    let k = reports_before(plain_lines(content), h);
    assert(RustTestParser.errors_in(content, job_name, log_filename)[k].test_name == name);
}

// ---------------------------------------------------------------------------
// What the output of a failed test tells
// ---------------------------------------------------------------------------

/// Whether line `p` is the last line between `h` and `end` that reports a panic.
pub open spec fn is_last_panic(texts: Seq<Seq<char>>, h: int, end: int, p: int) -> bool {
    &&& h < p < end
    &&& panic_on(texts[p]) is Some
    &&& forall|j: int| p < j < end ==> panic_on(#[trigger] texts[j]) is None
}

/// Whether no line between `h` and `end` reports a panic.
pub open spec fn no_panic(texts: Seq<Seq<char>>, h: int, end: int) -> bool {
    forall|j: int| h < j < end ==> panic_on(#[trigger] texts[j]) is None
}

/// Whether line `k` is the first line behind `p` that is not blank.
pub open spec fn is_next_text(texts: Seq<Seq<char>>, p: int, k: int) -> bool {
    &&& p < k < texts.len()
    &&& !is_blank(texts[k])
    &&& forall|j: int| p < j < k ==> is_blank(#[trigger] texts[j])
}

/// Whether all lines behind `p` are blank.
pub open spec fn is_last_text(texts: Seq<Seq<char>>, p: int) -> bool {
    forall|j: int| p < j < texts.len() ==> is_blank(#[trigger] texts[j])
}

/// The message of the panic on line `p`, if `message` was the one before it.
proof fn lemma_message(content: Seq<char>, p: int, k: int, message: Seq<char>)
    requires
        0 <= p < plain_lines(content).len(),
    ensures
        is_next_text(plain_lines(content), p, k) ==> rust_test::panic_message(
            rust_test::log_lines(content),
            p,
            message,
        ) == trimmed(plain_lines(content)[k]),
        is_last_text(plain_lines(content), p) ==> rust_test::panic_message(
            rust_test::log_lines(content),
            p,
            message,
        ) == message,
{
    let lines = rust_test::log_lines(content);
    let texts = plain_lines(content);
    lemma_next_where(lines, rust_test::not_blank(), p + 1);
    let found = next_where(lines, rust_test::not_blank(), p + 1);
    if found < lines.len() {
        lemma_facts(content, found);
        assert(rust_test::not_blank()(lines[found]));
    }
    if is_next_text(texts, p, k) {
        lemma_facts(content, k);
        assert(rust_test::not_blank()(lines[k]));
        if found < k {
            assert(is_blank(texts[found]));
        }
    }
}

/// What the lines between `h` and `n` tell of the panics on them.
proof fn lemma_told(content: Seq<char>, h: int, n: int, test_file: Seq<char>)
    requires
        0 <= h < n <= plain_lines(content).len(),
    ensures
        ({
            let texts = plain_lines(content);
            let report = rust_test::told_by(rust_test::log_lines(content), h, n, test_file);
            &&& no_panic(texts, h, n) ==> report.test_file == test_file && report.error_type
                == Seq::<char>::empty() && report.message == Seq::<char>::empty() && report.line
                is None
            &&& forall|p: int| #[trigger]
                is_last_panic(texts, h, n, p) ==> report.line == parsed_u32(
                    panic_on(texts[p])->0.number,
                ) && report.error_type == rust_test::error_kind(report.message)
            &&& forall|p: int, k: int| #[trigger]
                is_last_panic(texts, h, n, p) && #[trigger] is_next_text(texts, p, k)
                    ==> report.message == trimmed(texts[k])
            &&& forall|p: int| #[trigger]
                is_last_panic(texts, h, n, p) && is_last_text(texts, p) ==> report.message
                    == rust_test::told_by(
                    rust_test::log_lines(content),
                    h,
                    p,
                    test_file,
                ).message
        }),
    decreases n - h,
{
    let texts = plain_lines(content);
    let lines = rust_test::log_lines(content);
    if n > h + 1 {
        let before = rust_test::told_by(lines, h, n - 1, test_file);
        let report = rust_test::told_by(lines, h, n, test_file);
        lemma_told(content, h, n - 1, test_file);
        lemma_facts(content, n - 1);
        if panic_on(texts[n - 1]) is Some {
            assert forall|p: int| #[trigger] is_last_panic(texts, h, n, p) implies p == n - 1 by {
                if p < n - 1 {
                    assert(panic_on(texts[n - 1]) is None);
                }
            }
            assert forall|p: int, k: int| #[trigger]
                is_last_panic(texts, h, n, p) && #[trigger] is_next_text(
                texts,
                p,
                k,
            ) implies report.message == trimmed(texts[k]) by {
                lemma_message(content, p, k, before.message);
            }
            assert forall|p: int| #[trigger]
                is_last_panic(texts, h, n, p) && is_last_text(texts, p) implies report.message
                == before.message by {
                lemma_message(content, p, p, before.message);
            }
            assert(!no_panic(texts, h, n));
        } else {
            assert forall|p: int| #[trigger] is_last_panic(texts, h, n, p) implies is_last_panic(
                texts,
                h,
                n - 1,
                p,
            ) by {}
        }
    }
}

/// The error of a failed test tells of the last panic in its output: its line number, and as its
/// message the first line behind it that is not blank. The kind of error is that of the message.
pub proof fn law_rust_errors_tell_the_last_panic(
    content: Seq<char>,
    h: int,
    end: int,
    p: int,
    k: int,
    job_name: Seq<char>,
    log_filename: Seq<char>,
)
    requires
        is_report(plain_lines(content), h, end),
        is_last_panic(plain_lines(content), h, end, p),
        is_next_text(plain_lines(content), p, k),
    ensures
        ({
            let texts = plain_lines(content);
            let error = RustTestParser.errors_in(content, job_name, log_filename)[reports_before(
                texts,
                h,
            )];
            &&& error.message == trimmed(texts[k])
            &&& error.line == parsed_u32(panic_on(texts[p])->0.number)
            &&& error.error_type == if rust_test::error_kind(trimmed(texts[k])).len() == 0 {
                "panic"@
            } else {
                rust_test::error_kind(trimmed(texts[k]))
            }
        }),
{
    lemma_error_of_report(content, h, end, job_name, log_filename);
    lemma_told(content, h, end, binary_before(plain_lines(content), h));
}

/// The error of a failed test without a panic in its output has no message and no line, is of the
/// kind `panic`, and is in the test binary announced last.
pub proof fn law_rust_errors_without_a_panic(
    content: Seq<char>,
    h: int,
    end: int,
    job_name: Seq<char>,
    log_filename: Seq<char>,
)
    requires
        is_report(plain_lines(content), h, end),
        no_panic(plain_lines(content), h, end),
    ensures
        ({
            let texts = plain_lines(content);
            let error = RustTestParser.errors_in(content, job_name, log_filename)[reports_before(
                texts,
                h,
            )];
            &&& error.message == Seq::<char>::empty()
            &&& error.line is None
            &&& error.error_type == "panic"@
            &&& error.test_file == binary_before(texts, h)
        }),
{
    lemma_error_of_report(content, h, end, job_name, log_filename);
    lemma_told(content, h, end, binary_before(plain_lines(content), h));
}

/// A last panic with nothing behind it leaves the message of the one before it, or no message if
/// there is none before it.
pub proof fn law_rust_errors_keep_the_message_before(
    content: Seq<char>,
    h: int,
    end: int,
    p: int,
    job_name: Seq<char>,
    log_filename: Seq<char>,
)
    requires
        is_report(plain_lines(content), h, end),
        is_last_panic(plain_lines(content), h, end, p),
        is_last_text(plain_lines(content), p),
    ensures
        ({
            let texts = plain_lines(content);
            let error = RustTestParser.errors_in(content, job_name, log_filename)[reports_before(
                texts,
                h,
            )];
            &&& error.line == parsed_u32(panic_on(texts[p])->0.number)
            &&& no_panic(texts, h, p) ==> error.message == Seq::<char>::empty() && error.error_type
                == "panic"@
            &&& forall|q: int, k: int| #[trigger]
                is_last_panic(texts, h, p, q) && #[trigger] is_next_text(texts, q, k)
                    ==> error.message == trimmed(texts[k])
        }),
{
    let file = binary_before(plain_lines(content), h);
    lemma_error_of_report(content, h, end, job_name, log_filename);
    lemma_told(content, h, end, file);
    lemma_told(content, h, p, file);
    reveal_strlit("called `Result::unwrap()`");
    reveal_strlit("called `Option::unwrap()`");
    reveal_strlit("assertion");
    reveal_strlit("index out of bounds");
    law_rust_kind_of_other_messages(Seq::<char>::empty());
}

/// Whether line `p` reports a panic in a file with a directory.
pub open spec fn tells_file(text: Seq<char>) -> bool {
    panic_on(text) is Some && mentions(panic_on(text)->0.file, "/"@)
}

/// Whether line `p` is the last line between `h` and `end` that tells a file.
pub open spec fn is_last_file(texts: Seq<Seq<char>>, h: int, end: int, p: int) -> bool {
    &&& h < p < end
    &&& tells_file(texts[p])
    &&& forall|j: int| p < j < end ==> !tells_file(#[trigger] texts[j])
}

/// Whether no line between `h` and `end` tells a file.
pub open spec fn no_file(texts: Seq<Seq<char>>, h: int, end: int) -> bool {
    forall|j: int| h < j < end ==> !tells_file(#[trigger] texts[j])
}

proof fn lemma_told_file(content: Seq<char>, h: int, n: int, test_file: Seq<char>)
    requires
        0 <= h < n <= plain_lines(content).len(),
    ensures
        ({
            let texts = plain_lines(content);
            let report = rust_test::told_by(rust_test::log_lines(content), h, n, test_file);
            &&& no_file(texts, h, n) ==> report.test_file == test_file
            &&& forall|p: int| #[trigger]
                is_last_file(texts, h, n, p) ==> report.test_file == panic_on(texts[p])->0.file
        }),
    decreases n - h,
{
    let texts = plain_lines(content);
    let lines = rust_test::log_lines(content);
    if n > h + 1 {
        let before = rust_test::told_by(lines, h, n - 1, test_file);
        let report = rust_test::told_by(lines, h, n, test_file);
        lemma_told_file(content, h, n - 1, test_file);
        lemma_facts(content, n - 1);
        assert(report == rust_test::told_with(lines, n - 1, before));
        if tells_file(texts[n - 1]) {
            assert(report.test_file == panic_on(texts[n - 1])->0.file);
            assert(!no_file(texts, h, n));
            assert forall|p: int| #[trigger] is_last_file(texts, h, n, p) implies p == n - 1 by {
                if p < n - 1 {
                    assert(!tells_file(texts[n - 1]));
                }
            }
        } else {
            assert(report.test_file == before.test_file);
            assert forall|p: int| #[trigger] is_last_file(texts, h, n, p) implies is_last_file(
                texts,
                h,
                n - 1,
                p,
            ) by {}
        }
    }
}

/// The error of a failed test is in the file of the last panic that names one with a directory,
/// otherwise in the test binary announced last before the output.
pub proof fn law_rust_errors_tell_their_file(
    content: Seq<char>,
    h: int,
    end: int,
    job_name: Seq<char>,
    log_filename: Seq<char>,
)
    requires
        is_report(plain_lines(content), h, end),
    ensures
        ({
            let texts = plain_lines(content);
            let error = RustTestParser.errors_in(content, job_name, log_filename)[reports_before(
                texts,
                h,
            )];
            &&& no_file(texts, h, end) ==> error.test_file == binary_before(texts, h)
            &&& forall|p: int| #[trigger]
                is_last_file(texts, h, end, p) ==> error.test_file == panic_on(texts[p])->0.file
        }),
{
    lemma_error_of_report(content, h, end, job_name, log_filename);
    lemma_told_file(content, h, end, binary_before(plain_lines(content), h));
}

// ---------------------------------------------------------------------------
// Stack traces
// ---------------------------------------------------------------------------

/// Whether a line opens a stack trace.
pub open spec fn opens_trace(text: Seq<char>) -> bool {
    panic_on(text) is None && trimmed(text) == "stack backtrace:"@
}

/// Whether a line ends a stack trace.
pub open spec fn closes_trace(text: Seq<char>) -> bool {
    panic_on(text) is None && (is_blank(text) || "note:"@.is_prefix_of(trimmed(text)))
}

/// Whether line `j` lies in a stack trace that opens behind line `h`: at line `b`, say, with no line
/// between that ends it.
pub open spec fn in_trace(texts: Seq<Seq<char>>, h: int, j: int) -> bool {
    exists|b: int|
        h < b < j && opens_trace(#[trigger] texts[b]) && (forall|c: int|
            b < c < j ==> !closes_trace(#[trigger] texts[c]))
}

/// The lines of the stack traces between `h` and `n`, trimmed.
pub open spec fn trace_lines(texts: Seq<Seq<char>>, h: int, n: int) -> Seq<Seq<char>>
    decreases n - h,
{
    if n <= h + 1 {
        seq![]
    } else if in_trace(texts, h, n - 1) && panic_on(texts[n - 1]) is None && !opens_trace(
        texts[n - 1],
    ) && !closes_trace(texts[n - 1]) {
        trace_lines(texts, h, n - 1).push(trimmed(texts[n - 1]))
    } else {
        trace_lines(texts, h, n - 1)
    }
}

proof fn lemma_trace(content: Seq<char>, h: int, n: int, test_file: Seq<char>)
    requires
        0 <= h < n <= plain_lines(content).len(),
    ensures
        ({
            let texts = plain_lines(content);
            let report = rust_test::told_by(rust_test::log_lines(content), h, n, test_file);
            &&& report.in_backtrace == in_trace(texts, h, n)
            &&& report.stack == trace_lines(texts, h, n)
        }),
    decreases n - h,
{
    let texts = plain_lines(content);
    let lines = rust_test::log_lines(content);
    if n > h + 1 {
        let j = n - 1;
        lemma_trace(content, h, j, test_file);
        lemma_facts(content, j);
        reveal_strlit("stack backtrace:");
        reveal_strlit("note:");
        if opens_trace(texts[j]) {
            assert(h < j < n && opens_trace(texts[j]));
            assert("stack backtrace:"@[0] != "note:"@[0]);
            assert(in_trace(texts, h, n));
        } else if closes_trace(texts[j]) {
            assert(!in_trace(texts, h, n));
        } else {
            if in_trace(texts, h, j) {
                let b = choose|b: int|
                    h < b < j && opens_trace(#[trigger] texts[b]) && (forall|c: int|
                        b < c < j ==> !closes_trace(#[trigger] texts[c]));
                assert(h < b < n && opens_trace(texts[b]));
                assert(in_trace(texts, h, n));
            }
            if in_trace(texts, h, n) {
                let b = choose|b: int|
                    h < b < n && opens_trace(#[trigger] texts[b]) && (forall|c: int|
                        b < c < n ==> !closes_trace(#[trigger] texts[c]));
                assert(b != j);
                assert(in_trace(texts, h, j));
            }
        }
    }
}

/// The traceback of a failed test shows the frames of the stack traces in its output; it has none
/// if there are no such lines.
pub proof fn law_rust_errors_show_their_traces(
    content: Seq<char>,
    h: int,
    end: int,
    job_name: Seq<char>,
    log_filename: Seq<char>,
)
    requires
        is_report(plain_lines(content), h, end),
    ensures
        ({
            let texts = plain_lines(content);
            let error = RustTestParser.errors_in(content, job_name, log_filename)[reports_before(
                texts,
                h,
            )];
            let stack = trace_lines(texts, h, end);
            error.occurrences[0].traceback == if stack.len() == 0 {
                None
            } else {
                Some(joined(rust_test::shown_frames(stack), "\n"@))
            }
        }),
{
    lemma_error_of_report(content, h, end, job_name, log_filename);
    lemma_trace(content, h, end, binary_before(plain_lines(content), h));
    rust_test::lemma_frames_of_nothing(trace_lines(plain_lines(content), h, end));
}

/// A line that starts with `at`, behind a function, is joined to it.
pub proof fn law_frames_have_their_place(
    function: Seq<char>,
    place: Seq<char>,
    rest: Seq<Seq<char>>,
)
    requires
        "at "@.is_prefix_of(trimmed_start(place)),
    ensures
        rust_test::frames_of(seq![function, place] + rest) == seq![
            function + " "@ + trimmed(place),
        ] + rust_test::frames_of(rest),
{
    let stack = seq![function, place] + rest;
    assert(stack.skip(2) =~= rest);
}

/// A function without such a line behind it is a frame of its own.
pub proof fn law_frames_without_a_place(function: Seq<char>, rest: Seq<Seq<char>>)
    requires
        rest.len() > 0 ==> !"at "@.is_prefix_of(trimmed_start(rest[0])),
    ensures
        rust_test::frames_of(seq![function] + rest) == seq![function] + rust_test::frames_of(rest),
        rust_test::frames_of(Seq::<Seq<char>>::empty()) == Seq::<Seq<char>>::empty(),
{
    let stack = seq![function] + rest;
    assert(stack.skip(1) =~= rest);
    if rest.len() > 0 {
        assert(stack[1] == rest[0]);
    }
}

/// The frames that are shown are those of the program's own code, in their order; all of them if
/// every frame is of the toolchain or of a dependency.
pub proof fn law_own_frames_are_shown(stack: Seq<Seq<char>>)
    ensures
        ({
            let frames = rust_test::frames_of(stack);
            let shown = rust_test::shown_frames(stack);
            let own = |frame: Seq<char>|
                !(mentions(frame, "/rustc/"@) || mentions(frame, "/.cargo/registry/"@) || mentions(
                    frame,
                    "core::ops::function"@,
                ));
            if exists|i: int| 0 <= i < frames.len() && own(#[trigger] frames[i]) {
                shown == frames.filter(own)
            } else {
                shown == frames
            }
        }),
{
    let frames = rust_test::frames_of(stack);
    let own = |frame: Seq<char>|
        !(mentions(frame, "/rustc/"@) || mentions(frame, "/.cargo/registry/"@) || mentions(
            frame,
            "core::ops::function"@,
        ));
    assert(own =~= rust_test::is_own_frame());
    let kept = frames.filter(own);
    if kept.len() > 0 {
        frames.lemma_filter_contains_rev(own, kept[0]);
        let i = frames.index_of(kept[0]);
        assert(0 <= i < frames.len() && own(frames[i]));
    } else {
        assert forall|i: int| 0 <= i < frames.len() implies !own(#[trigger] frames[i]) by {
            if own(frames[i]) {
                frames.lemma_filter_contains(own, i);
                assert(kept.contains(frames[i]));
            }
        }
    }
}

// ---------------------------------------------------------------------------
// Kinds of errors
// ---------------------------------------------------------------------------

/// Whether a message starts as one whose kind is known.
pub open spec fn is_known_message(message: Seq<char>) -> bool {
    ||| "called `Result::unwrap()`"@.is_prefix_of(message)
    ||| "called `Option::unwrap()`"@.is_prefix_of(message)
    ||| "assertion"@.is_prefix_of(message)
    ||| "index out of bounds"@.is_prefix_of(message)
}

/// The known messages have their kinds, whatever follows their beginnings.
pub proof fn law_rust_kinds_of_known_messages(rest: Seq<char>)
    ensures
        rust_test::error_kind("called `Result::unwrap()`"@ + rest) == "unwrap"@,
        rust_test::error_kind("called `Option::unwrap()`"@ + rest) == "unwrap"@,
        rust_test::error_kind("assertion"@ + rest) == "assertion"@,
        rust_test::error_kind("index out of bounds"@ + rest) == "index_out_of_bounds"@,
{
    reveal_strlit("called `Result::unwrap()`");
    reveal_strlit("called `Option::unwrap()`");
    reveal_strlit("assertion");
    reveal_strlit("index out of bounds");
    lemma_begins("called `Result::unwrap()`"@, rest);
    lemma_begins("called `Option::unwrap()`"@, rest);
    lemma_begins("assertion"@, rest);
    lemma_begins("index out of bounds"@, rest);
    assert(("assertion"@ + rest)[0] == 'a');
    assert(("index out of bounds"@ + rest)[0] == 'i');
}

proof fn lemma_begins(start: Seq<char>, rest: Seq<char>)
    ensures
        start.is_prefix_of(start + rest),
{
    assert((start + rest).subrange(0, start.len() as int) =~= start);
}

/// Of another message, what stands before its first colon is the kind, if it is short and without
/// a space; otherwise the kind is `panic`.
pub proof fn law_rust_kinds_before_colons(before: Seq<char>, rest: Seq<char>)
    requires
        !is_known_message(before + ":"@ + rest),
        !before.contains(':'),
    ensures
        rust_test::error_kind(before + ":"@ + rest) == if encode_utf8(trimmed(before)).len() < 40
            && !trimmed(before).contains(' ') {
            trimmed(before)
        } else {
            "panic"@
        },
{
    reveal_strlit(":");
    reveal_strlit(" ");
    assert(":"@ =~= seq![':']);
    assert(" "@ =~= seq![' ']);
    law_text_is_cut_at_the_first(before, ':', rest);
    law_mentioned_characters_are_held(trimmed(before), ' ');
}

/// The kind of another message without a colon is `panic`.
pub proof fn law_rust_kind_of_other_messages(message: Seq<char>)
    requires
        !is_known_message(message),
        !message.contains(':'),
    ensures
        rust_test::error_kind(message) == "panic"@,
{
    reveal_strlit(":");
    assert(":"@ =~= seq![':']);
    law_mentioned_characters_are_held(message, ':');
}

} // verus!
