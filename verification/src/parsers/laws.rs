//! What holds of stripped lines and of the errors of every reader.
use super::{
    jest, lemma_rest_is_suffix, no_line_mentions, pytest, rust_test, sole_occurrence, without_ansi,
    without_timestamp, JestParser, LogParser, PytestParser, RustTestParser, TestErrorParser,
};
use crate::github::is_free_of;
use crate::models::{ErrorOccurrenceModel, TestErrorModel};
use crate::patterns::{
    decimals_at, ends_style, header_name, is_decimal, is_test_file, is_unspaced,
    lemma_jest_header_groups, lemma_pytest_groups, lemma_style_length, not_decimal, style_length,
    time_end,
};
use crate::seqs::{lemma_next_where, lemma_next_where_is};
use crate::text::{
    cut, found, is_space, joined, law_pieces_are_joined_back, lemma_found_from,
    lemma_suffix_mentions, lines_of, mentions, pieces, trimmed,
};
use vstd::prelude::*;

verus! {

// ---------------------------------------------------------------------------
// Stripped lines
// ---------------------------------------------------------------------------

/// The time at the start of a line is removed, with one space behind it, and no more: a time that
/// follows stays.
pub proof fn law_one_timestamp_is_removed(stamp: Seq<char>, rest: Seq<char>)
    requires
        time_end(stamp) == Some(stamp.len() as int),
    ensures
        without_timestamp(stamp + " "@ + rest) == rest,
        rest.len() == 0 || !is_space(rest[0]) ==> without_timestamp(stamp + rest)
            == rest,
{
    reveal_strlit(" ");
    let spaced = stamp + " "@ + rest;
    let joint = stamp + rest;
    lemma_time_of_beginning(stamp, " "@ + rest);
    lemma_time_of_beginning(stamp, rest);
    assert(spaced =~= stamp + (" "@ + rest));
    assert(spaced[stamp.len() as int] == ' ');
    assert(spaced.skip(stamp.len() as int + 1) =~= rest);
    assert(joint.skip(stamp.len() as int) =~= rest);
}

/// A text that starts with a time starts with no other.
proof fn lemma_time_of_beginning(stamp: Seq<char>, tail: Seq<char>)
    requires
        time_end(stamp) == Some(stamp.len() as int),
    ensures
        time_end(stamp + tail) == Some(stamp.len() as int),
{
    let s = stamp + tail;
    let z = stamp.len() - 1;
    lemma_next_where(stamp, not_decimal(), 20);
    assert forall|i: int| 0 <= i < stamp.len() implies #[trigger] s[i] == stamp[i] by {}
    assert forall|i: int| 20 <= i < z implies !not_decimal()(#[trigger] s[i]) by {
        assert(!not_decimal()(stamp[i]));
    }
    assert(not_decimal()(stamp[z]));
    lemma_next_where_is(s, not_decimal(), 20, z);
    assert forall|from: int, to: int|
        0 <= from && to <= stamp.len() && #[trigger] decimals_at(stamp, from, to) implies decimals_at(
        s,
        from,
        to,
    ) by {
        assert forall|i: int| from <= i < to implies is_decimal(
            #[trigger] s[i],
        ) by {
            assert(is_decimal(stamp[i]));
        }
    }
}

/// A line that does not start with a time stays as it is.
pub proof fn law_lines_without_a_timestamp_stay(line: Seq<char>)
    requires
        time_end(line) is None,
    ensures
        without_timestamp(line) == line,
{
}

/// Whether `line` is `bare` with a time and a space in front of it, and `bare` starts with no time
/// itself.
pub open spec fn is_timed(line: Seq<char>, bare: Seq<char>, stamp: Seq<char>) -> bool {
    &&& time_end(stamp) == Some(stamp.len() as int)
    &&& time_end(bare) is None
    &&& line == stamp + " "@ + bare
}

/// Whether `timed` has the lines of `bare`, each as it is or with a time and a space in front.
pub open spec fn are_timed(timed: Seq<Seq<char>>, bare: Seq<Seq<char>>) -> bool {
    &&& timed.len() == bare.len()
    &&& forall|i: int|
        0 <= i < timed.len() ==> #[trigger] timed[i] == bare[i] || exists|stamp: Seq<char>|
            is_timed(timed[i], bare[i], stamp)
}

/// A line says the same with a time in front of it.
pub proof fn lemma_timed(line: Seq<char>, bare: Seq<char>, stamp: Seq<char>)
    requires
        is_timed(line, bare, stamp),
    ensures
        without_timestamp(line) == bare,
        without_timestamp(bare) == bare,
{
    law_one_timestamp_is_removed(stamp, bare);
    law_lines_without_a_timestamp_stay(bare);
}

/// The lines of a log without styles and without the times at their start.
pub open spec fn plain_lines(content: Seq<char>) -> Seq<Seq<char>> {
    let raw = lines_of(without_ansi(content));
    Seq::new(raw.len(), |i: int| without_timestamp(raw[i]))
}

/// Text without escapes stays, whatever follows it.
pub proof fn law_plain_text_stays(plain: Seq<char>, rest: Seq<char>)
    requires
        is_free_of(plain, '\x1b'),
    ensures
        without_ansi(plain + rest) == plain + without_ansi(rest),
    decreases plain.len(),
{
    let whole = plain + rest;
    if plain.len() > 0 {
        assert(whole[0] == plain[0]);
        assert(whole.drop_first() =~= plain.drop_first() + rest);
        law_plain_text_stays(plain.drop_first(), rest);
        assert(seq![plain[0]] + (plain.drop_first() + without_ansi(rest)) =~= plain + without_ansi(
            rest,
        ));
    } else {
        assert(whole =~= rest);
        assert(plain + without_ansi(rest) =~= without_ansi(rest));
    }
}

/// A style sequence is removed, whatever follows it.
pub proof fn law_styles_are_removed(style: Seq<char>, rest: Seq<char>)
    requires
        style_length(style) == Some(style.len() as int),
    ensures
        without_ansi(style + rest) == without_ansi(rest),
{
    let whole = style + rest;
    let m = style.len() - 1;
    lemma_style_length(style);
    lemma_next_where(style, ends_style(), 2);
    assert forall|i: int| 2 <= i < m implies !ends_style()(#[trigger] whole[i]) by {
        assert(!ends_style()(style[i]));
    }
    assert(whole[m] == style[m]);
    lemma_next_where_is(whole, ends_style(), 2, m);
    assert(whole.skip(style.len() as int) =~= rest);
}

// ---------------------------------------------------------------------------
// The errors of a reader
// ---------------------------------------------------------------------------

/// Whether an error is of the framework and was seen once, in the log of the job.
pub open spec fn is_from(
    error: TestErrorModel,
    framework: Seq<char>,
    job_name: Seq<char>,
    log_filename: Seq<char>,
) -> bool {
    &&& error.framework == framework
    &&& error.occurrences.len() == 1
    &&& error.occurrences[0].job == job_name
    &&& error.occurrences[0].log_file == log_filename
}

/// Whether all of `errors` are of the framework and were seen once, in the log of the job.
pub open spec fn are_from(
    errors: Seq<TestErrorModel>,
    framework: Seq<char>,
    job_name: Seq<char>,
    log_filename: Seq<char>,
) -> bool {
    forall|i: int|
        0 <= i < errors.len() ==> is_from(#[trigger] errors[i], framework, job_name, log_filename)
}

/// The number of failures that the first `n` lines name.
pub open spec fn pytest_failures(lines: Seq<pytest::PytestLineModel>, n: int) -> nat
    decreases n,
{
    if n <= 0 {
        0
    } else if lines[n - 1].failure is Some {
        pytest_failures(lines, n - 1) + 1
    } else {
        pytest_failures(lines, n - 1)
    }
}

/// Each line of the short summary of pytest that names a failure gives one error, and no other line
/// gives any.
pub proof fn law_pytest_has_an_error_for_each_failure(
    lines: Seq<pytest::PytestLineModel>,
    n: int,
    job_name: Seq<char>,
    log_filename: Seq<char>,
)
    requires
        0 <= n <= lines.len(),
    ensures
        pytest::errors_before(lines, n, job_name, log_filename).len() == pytest_failures(lines, n),
        are_from(
            pytest::errors_before(lines, n, job_name, log_filename),
            "pytest"@,
            job_name,
            log_filename,
        ),
    decreases n,
{
    if n > 0 {
        law_pytest_has_an_error_for_each_failure(lines, n - 1, job_name, log_filename);
    }
}

/// The failure that line `i` names gives the error behind those of the failures before it.
pub proof fn law_pytest_errors_follow_their_lines(
    lines: Seq<pytest::PytestLineModel>,
    n: int,
    i: int,
    job_name: Seq<char>,
    log_filename: Seq<char>,
)
    requires
        0 <= i < n <= lines.len(),
        lines[i].failure is Some,
    ensures
        pytest_failures(lines, i) < pytest::errors_before(lines, n, job_name, log_filename).len(),
        pytest::errors_before(lines, n, job_name, log_filename)[pytest_failures(lines, i) as int]
            == pytest::error_at(lines, i, job_name, log_filename),
    decreases n,
{
    law_pytest_has_an_error_for_each_failure(lines, n - 1, job_name, log_filename);
    if i < n - 1 {
        law_pytest_errors_follow_their_lines(lines, n - 1, i, job_name, log_filename);
    }
}

/// How many lines from line `i` on can matter to the failure that it names.
pub open spec fn pytest_window(lines: Seq<pytest::PytestLineModel>, i: int) -> int {
    if lines.len() - i < 30 {
        lines.len() - i
    } else {
        30
    }
}

/// Only the line that names a failure and the twenty-nine lines behind it matter to its error.
pub proof fn law_pytest_reads_no_further(
    lines: Seq<pytest::PytestLineModel>,
    i: int,
    others: Seq<pytest::PytestLineModel>,
    j: int,
    job_name: Seq<char>,
    log_filename: Seq<char>,
)
    requires
        0 <= i < lines.len(),
        0 <= j < others.len(),
        pytest_window(lines, i) == pytest_window(others, j),
        forall|d: int|
            0 <= d < pytest_window(lines, i) ==> #[trigger] lines[i + d] == others[j + d],
    ensures
        pytest::error_at(lines, i, job_name, log_filename) == pytest::error_at(
            others,
            j,
            job_name,
            log_filename,
        ),
{
    let w = pytest_window(lines, i);
    let here = lines.take(i + w);
    let there = others.take(j + w);
    let end = pytest::details_end(lines, i);
    lemma_next_where(here, pytest::ends_details(), i + 1);
    let d = end - i;
    assert forall|k: int| j + 1 <= k < j + d implies !pytest::ends_details()(
        #[trigger] there[k],
    ) by {
        assert(lines[i + (k - j)] == others[j + (k - j)]);
        assert(!pytest::ends_details()(here[i + (k - j)]));
    }
    if d < w {
        assert(lines[i + d] == others[j + d]);
        assert(pytest::ends_details()(here[end]));
    }
    lemma_next_where_is(there, pytest::ends_details(), j + 1, j + d);
    lemma_pytest_details(lines, i, others, j, d);
    assert(lines[i + 0] == others[j + 0]);
}

/// The same lines give the same explanations and the same line number.
proof fn lemma_pytest_details(
    lines: Seq<pytest::PytestLineModel>,
    i: int,
    others: Seq<pytest::PytestLineModel>,
    j: int,
    d: int,
)
    requires
        forall|e: int| 0 <= e < d ==> #[trigger] lines[i + e] == others[j + e],
    ensures
        pytest::explanations(lines, i + 1, i + d) == pytest::explanations(others, j + 1, j + d),
        pytest::last_number(lines, i + 1, i + d) == pytest::last_number(others, j + 1, j + d),
    decreases d,
{
    if d > 1 {
        assert(lines[i + (d - 1)] == others[j + (d - 1)]);
        lemma_pytest_details(lines, i, others, j, d - 1);
    }
}

/// The file of a pytest test is the first of the parts of its path between double colons, and its
/// name is made of all others.
pub proof fn law_pytest_names_are_parts_of_the_path(test_path: Seq<char>)
    ensures
        pytest::file_and_name(test_path).0 == pieces(test_path, "::"@)[0],
        pytest::file_and_name(test_path).1 == joined(pieces(test_path, "::"@).skip(1), "::"@),
{
    reveal_strlit("::");
    lemma_found_from(test_path, "::"@, 0);
    match cut(test_path, "::"@) {
        Some((before, after)) => {
            law_pieces_are_joined_back(after, "::"@);
            assert(pieces(test_path, "::"@).skip(1) =~= pieces(after, "::"@));
        },
        None => {
            assert(pieces(test_path, "::"@).skip(1) =~= seq![]);
        },
    }
}

/// The parts of a path without white space hold none.
proof fn lemma_unspaced_parts(test_path: Seq<char>)
    requires
        is_unspaced(test_path),
    ensures
        is_unspaced(pytest::file_and_name(test_path).0),
        is_unspaced(pytest::file_and_name(test_path).1),
{
    lemma_found_from(test_path, "::"@, 0);
    if let Some((file, name)) = cut(test_path, "::"@) {
        let k = found(test_path, "::"@)->0;
        assert forall|i: int| 0 <= i < file.len() implies !is_space(#[trigger] file[i]) by {
            assert(file[i] == test_path[i]);
        }
        assert forall|i: int| 0 <= i < name.len() implies !is_space(#[trigger] name[i]) by {
            assert(name[i] == test_path[k + "::"@.len() + i]);
        }
    }
}

proof fn lemma_pytest_paths(
    content: Seq<char>,
    n: int,
    job_name: Seq<char>,
    log_filename: Seq<char>,
)
    requires
        0 <= n <= pytest::log_lines(content).len(),
    ensures
        ({
            let errors = pytest::errors_before(
                pytest::log_lines(content),
                n,
                job_name,
                log_filename,
            );
            &&& forall|i: int|
                0 <= i < errors.len() ==> is_unspaced((#[trigger] errors[i]).test_file)
                    && is_unspaced(errors[i].test_name)
            &&& no_line_mentions(lines_of(content), "FAILED"@) && no_line_mentions(
                lines_of(content),
                "ERROR"@,
            ) ==> errors.len() == 0
        }),
    decreases n,
{
    if n > 0 {
        let line = pytest::log_lines(content)[n - 1];
        lemma_pytest_paths(content, n - 1, job_name, log_filename);
        lemma_pytest_groups(line.text);
        assert(line.text == lines_of(content)[n - 1]);
        if line.failure is Some {
            lemma_unspaced_parts(line.failure->0.test_path);
        }
    }
}

/// The file and the name of a failed test of pytest hold no white space, and a log without a line
/// that says `FAILED` or `ERROR` has no error.
pub proof fn law_pytest_paths_hold_no_white_space(
    content: Seq<char>,
    job_name: Seq<char>,
    log_filename: Seq<char>,
)
    ensures
        ({
            let errors = PytestParser.errors_in(content, job_name, log_filename);
            &&& forall|i: int|
                0 <= i < errors.len() ==> is_unspaced((#[trigger] errors[i]).test_file)
                    && is_unspaced(errors[i].test_name)
            &&& no_line_mentions(lines_of(content), "FAILED"@) && no_line_mentions(
                lines_of(content),
                "ERROR"@,
            ) ==> errors.len() == 0
        }),
{
    lemma_pytest_paths(
        content,
        pytest::log_lines(content).len() as int,
        job_name,
        log_filename,
    );
}

/// The errors of a failed file are of Jest, of this file, and of this log.
proof fn lemma_file_errors(
    lines: Seq<jest::JestLineModel>,
    j: int,
    failure: jest::JestFailureModel,
    job_name: Seq<char>,
    log_filename: Seq<char>,
)
    ensures
        ({
            let errors = jest::file_errors(lines, j, failure, job_name, log_filename);
            &&& are_from(errors, "jest"@, job_name, log_filename)
            &&& forall|i: int|
                0 <= i < errors.len() ==> (#[trigger] errors[i]).test_file == failure.test_file
        }),
    decreases lines.len() - j,
{
    if 0 <= j < lines.len() && !jest::ends_file()(lines[j]) {
        jest::lemma_details(lines, j);
        lemma_file_errors(lines, jest::next_line(lines, j), failure, job_name, log_filename);
    }
}

/// Whether one of the lines from `from` on is the header of the failed file `test_file`.
pub open spec fn is_failed_file(
    lines: Seq<jest::JestLineModel>,
    from: int,
    test_file: Seq<char>,
) -> bool {
    exists|h: int|
        from <= h < lines.len() && (#[trigger] lines[h]).failure is Some
            && lines[h].failure->0.test_file == test_file
}

/// Every error of Jest is of a file whose failure the log reports.
pub proof fn law_jest_errors_are_of_failed_files(
    lines: Seq<jest::JestLineModel>,
    from: int,
    job_name: Seq<char>,
    log_filename: Seq<char>,
)
    requires
        0 <= from <= lines.len(),
    ensures
        are_from(
            jest::errors_from(lines, from, job_name, log_filename),
            "jest"@,
            job_name,
            log_filename,
        ),
        forall|i: int|
            0 <= i < jest::errors_from(lines, from, job_name, log_filename).len()
                ==> is_failed_file(
                lines,
                from,
                (#[trigger] jest::errors_from(lines, from, job_name, log_filename)[i]).test_file,
            ),
    decreases lines.len() - from,
{
    let errors = jest::errors_from(lines, from, job_name, log_filename);
    if from < lines.len() {
        let next = if lines[from].failure is None {
            from + 1
        } else {
            jest::lemma_file_end(lines, from + 1);
            jest::file_end(lines, from + 1)
        };
        let rest = jest::errors_from(lines, next, job_name, log_filename);
        law_jest_errors_are_of_failed_files(lines, next, job_name, log_filename);
        assert forall|test_file: Seq<char>| #[trigger]
            is_failed_file(lines, next, test_file) implies is_failed_file(
            lines,
            from,
            test_file,
        ) by {
            let h = choose|h: int|
                next <= h < lines.len() && (#[trigger] lines[h]).failure is Some
                    && lines[h].failure->0.test_file == test_file;
            assert(from <= h < lines.len() && lines[h].failure is Some);
        }
        if lines[from].failure is Some {
            let failure = lines[from].failure->0;
            let own = jest::errors_of_file(lines, from, job_name, log_filename);
            lemma_file_errors(lines, from + 1, failure, job_name, log_filename);
            assert(errors == own + rest);
            assert(is_failed_file(lines, from, failure.test_file));
            assert forall|i: int| 0 <= i < errors.len() implies is_from(
                #[trigger] errors[i],
                "jest"@,
                job_name,
                log_filename,
            ) && is_failed_file(lines, from, errors[i].test_file) by {
                if i < own.len() {
                    assert(errors[i] == own[i]);
                } else {
                    assert(errors[i] == rest[i - own.len()]);
                }
            }
        }
    }
}

/// A log of which no line says `FAIL` has no line that is the header of a failed file, and every
/// header names a test file.
proof fn lemma_jest_lines(content: Seq<char>, i: int)
    requires
        0 <= i < jest::log_lines(content).len(),
        jest::log_lines(content)[i].failure is Some,
    ensures
        mentions(lines_of(without_ansi(content))[i], "FAIL"@),
        is_test_file(jest::log_lines(content)[i].failure->0.test_file),
{
    let raw = lines_of(without_ansi(content))[i];
    let text = jest::log_lines(content)[i].text;
    lemma_jest_header_groups(text);
    lemma_rest_is_suffix(raw);
    lemma_suffix_mentions(text, raw, "FAIL"@);
}

/// Every error of Jest is of a test file, and a log without a line that says `FAIL` has no error.
pub proof fn law_jest_errors_are_of_test_files(
    content: Seq<char>,
    job_name: Seq<char>,
    log_filename: Seq<char>,
)
    ensures
        ({
            let errors = JestParser.errors_in(content, job_name, log_filename);
            &&& forall|i: int|
                0 <= i < errors.len() ==> is_test_file((#[trigger] errors[i]).test_file)
            &&& no_line_mentions(lines_of(without_ansi(content)), "FAIL"@) ==> errors.len() == 0
        }),
{
    let lines = jest::log_lines(content);
    let errors = JestParser.errors_in(content, job_name, log_filename);
    law_jest_errors_are_of_failed_files(lines, 0, job_name, log_filename);
    assert forall|i: int| 0 <= i < errors.len() implies is_test_file(
        (#[trigger] errors[i]).test_file,
    ) && !no_line_mentions(lines_of(without_ansi(content)), "FAIL"@) by {
        assert(is_failed_file(lines, 0, errors[i].test_file));
        let h = choose|h: int|
            0 <= h < lines.len() && (#[trigger] lines[h]).failure is Some
                && lines[h].failure->0.test_file == errors[i].test_file;
        lemma_jest_lines(content, h);
    }
    if errors.len() > 0 {
        assert(is_test_file(errors[0].test_file));
    }
}

/// Every error of Rust's test harness has a kind.
pub proof fn law_rust_errors_have_a_kind(
    lines: Seq<rust_test::RustLineModel>,
    from: int,
    test_file: Seq<char>,
    job_name: Seq<char>,
    log_filename: Seq<char>,
)
    requires
        0 <= from <= lines.len(),
    ensures
        are_from(
            rust_test::errors_from(lines, from, test_file, job_name, log_filename),
            "rust"@,
            job_name,
            log_filename,
        ),
        forall|i: int|
            0 <= i < rust_test::errors_from(lines, from, test_file, job_name, log_filename).len()
                ==> (#[trigger] rust_test::errors_from(
                lines,
                from,
                test_file,
                job_name,
                log_filename,
            )[i]).error_type.len() > 0,
    decreases lines.len() - from,
{
    let errors = rust_test::errors_from(lines, from, test_file, job_name, log_filename);
    if from < lines.len() {
        if lines[from].running is Some {
            law_rust_errors_have_a_kind(
                lines,
                from + 1,
                lines[from].running->0,
                job_name,
                log_filename,
            );
        } else if lines[from].failure is None {
            law_rust_errors_have_a_kind(lines, from + 1, test_file, job_name, log_filename);
        } else {
            let end = rust_test::output_end(lines, from);
            let own = rust_test::error_at(lines, from, test_file, job_name, log_filename);
            let rest = rust_test::errors_from(lines, end, test_file, job_name, log_filename);
            lemma_next_where(lines, rust_test::ends_output(), from + 1);
            law_rust_errors_have_a_kind(lines, end, test_file, job_name, log_filename);
            reveal_strlit("panic");
            assert forall|i: int| 0 <= i < errors.len() implies is_from(
                #[trigger] errors[i],
                "rust"@,
                job_name,
                log_filename,
            ) && errors[i].error_type.len() > 0 by {
                if i == 0 {
                    assert(errors[i] == own);
                } else {
                    assert(errors[i] == rest[i - 1]);
                }
            }
        }
    }
}

/// The names of the failed tests whose output opens at line `from` or behind it. A line that
/// announces a test binary opens none.
pub open spec fn rust_headers(lines: Seq<rust_test::RustLineModel>, from: int) -> Seq<Seq<char>>
    decreases lines.len() - from,
{
    if from < 0 || from >= lines.len() {
        seq![]
    } else if lines[from].running is None && lines[from].failure is Some {
        seq![lines[from].failure->0] + rust_headers(lines, from + 1)
    } else {
        rust_headers(lines, from + 1)
    }
}

/// Whether every line that opens the output of a failed test ends the output of the one before.
pub open spec fn headers_open_output(lines: Seq<rust_test::RustLineModel>) -> bool {
    forall|i: int|
        0 <= i < lines.len() && (#[trigger] lines[i]).failure is Some ==> lines[i].opens_failure
}

/// Lines that open no output add no names.
proof fn lemma_no_headers(lines: Seq<rust_test::RustLineModel>, from: int, to: int)
    requires
        0 <= from <= to <= lines.len(),
        forall|i: int| from <= i < to ==> (#[trigger] lines[i]).failure is None,
    ensures
        rust_headers(lines, from) == rust_headers(lines, to),
    decreases to - from,
{
    if from < to {
        lemma_no_headers(lines, from + 1, to);
    }
}

/// Each failed test whose output opens in the lines gives one error with its name, in their order,
/// and nothing else gives any.
pub proof fn law_rust_has_an_error_for_each_header(
    lines: Seq<rust_test::RustLineModel>,
    from: int,
    test_file: Seq<char>,
    job_name: Seq<char>,
    log_filename: Seq<char>,
)
    requires
        0 <= from <= lines.len(),
        headers_open_output(lines),
    ensures
        ({
            let errors = rust_test::errors_from(lines, from, test_file, job_name, log_filename);
            let names = rust_headers(lines, from);
            &&& errors.len() == names.len()
            &&& forall|i: int|
                0 <= i < errors.len() ==> (#[trigger] errors[i]).test_name == names[i]
        }),
    decreases lines.len() - from,
{
    if from < lines.len() {
        if lines[from].running is Some {
            law_rust_has_an_error_for_each_header(
                lines,
                from + 1,
                lines[from].running->0,
                job_name,
                log_filename,
            );
        } else if lines[from].failure is None {
            law_rust_has_an_error_for_each_header(
                lines,
                from + 1,
                test_file,
                job_name,
                log_filename,
            );
        } else {
            let end = rust_test::output_end(lines, from);
            let own = rust_test::error_at(lines, from, test_file, job_name, log_filename);
            let rest = rust_test::errors_from(lines, end, test_file, job_name, log_filename);
            let errors = rust_test::errors_from(lines, from, test_file, job_name, log_filename);
            lemma_next_where(lines, rust_test::ends_output(), from + 1);
            assert forall|i: int| from + 1 <= i < end implies (
            #[trigger] lines[i]).failure is None by {
                assert(!rust_test::ends_output()(lines[i]));
            }
            lemma_no_headers(lines, from + 1, end);
            law_rust_has_an_error_for_each_header(lines, end, test_file, job_name, log_filename);
            assert(errors == seq![own] + rest);
        }
    }
}

/// Each line of a log that opens the output of a failed Rust test, and does not announce a test
/// binary, gives one error with its name, in the order of the log, and nothing else gives any.
pub proof fn law_rust_logs_have_an_error_for_each_header(
    content: Seq<char>,
    job_name: Seq<char>,
    log_filename: Seq<char>,
)
    ensures
        ({
            let errors = RustTestParser.errors_in(content, job_name, log_filename);
            let names = rust_headers(rust_test::log_lines(content), 0);
            &&& errors.len() == names.len()
            &&& forall|i: int|
                0 <= i < errors.len() ==> (#[trigger] errors[i]).test_name == names[i]
        }),
{
    let lines = rust_test::log_lines(content);
    let texts = lines_of(without_ansi(content));
    assert forall|i: int|
        0 <= i < lines.len() && (
        #[trigger] lines[i]).failure is Some implies lines[i].opens_failure by {
        assert(lines[i] == rust_test::line_of(texts[i]));
        lemma_header_is_trimmed(lines[i].text);
    }
    law_rust_has_an_error_for_each_header(lines, 0, seq![], job_name, log_filename);
}

/// A header has no white space at its ends.
pub proof fn lemma_header_is_trimmed(text: Seq<char>)
    requires
        header_name(text) is Some,
    ensures
        trimmed(text) == text,
{
    reveal_strlit("---- ");
    reveal_strlit(" stdout ----");
    assert(text[0] == "---- "@[0]);
    assert(text.subrange(text.len() - 12, text.len() as int)[11] == text.last());
}

// ---------------------------------------------------------------------------
// What the names of the job and the log change
// ---------------------------------------------------------------------------

/// `error` with its places in the log of another job.
pub open spec fn relabelled(
    error: TestErrorModel,
    job: Seq<char>,
    log_file: Seq<char>,
) -> TestErrorModel {
    TestErrorModel {
        occurrences: Seq::new(
            error.occurrences.len(),
            |i: int| ErrorOccurrenceModel { job, log_file, ..error.occurrences[i] },
        ),
        ..error
    }
}

/// `errors` with their places in the log of another job.
pub open spec fn all_relabelled(
    errors: Seq<TestErrorModel>,
    job: Seq<char>,
    log_file: Seq<char>,
) -> Seq<TestErrorModel> {
    Seq::new(errors.len(), |i: int| relabelled(errors[i], job, log_file))
}

/// A place is the same in another log but for its name.
proof fn lemma_sole_occurrence(
    error: TestErrorModel,
    job: Seq<char>,
    log_file: Seq<char>,
    other_job: Seq<char>,
    other_file: Seq<char>,
    traceback: Option<Seq<char>>,
)
    requires
        error.occurrences == sole_occurrence(job, log_file, traceback),
    ensures
        relabelled(error, other_job, other_file).occurrences == sole_occurrence(
            other_job,
            other_file,
            traceback,
        ),
{
    assert(relabelled(error, other_job, other_file).occurrences =~= sole_occurrence(
        other_job,
        other_file,
        traceback,
    ));
}

proof fn lemma_pytest_relabelled(
    lines: Seq<pytest::PytestLineModel>,
    n: int,
    job: Seq<char>,
    log_file: Seq<char>,
    other_job: Seq<char>,
    other_file: Seq<char>,
)
    requires
        0 <= n <= lines.len(),
    ensures
        all_relabelled(pytest::errors_before(lines, n, job, log_file), other_job, other_file)
            == pytest::errors_before(lines, n, other_job, other_file),
    decreases n,
{
    let errors = pytest::errors_before(lines, n, job, log_file);
    let others = pytest::errors_before(lines, n, other_job, other_file);
    if n > 0 {
        lemma_pytest_relabelled(lines, n - 1, job, log_file, other_job, other_file);
        if lines[n - 1].failure is Some {
            let own = pytest::error_at(lines, n - 1, job, log_file);
            let rest = pytest::errors_before(lines, n - 1, job, log_file);
            assert(relabelled(own, other_job, other_file) =~= pytest::error_at(
                lines,
                n - 1,
                other_job,
                other_file,
            )) by {
                lemma_sole_occurrence(
                    own,
                    job,
                    log_file,
                    other_job,
                    other_file,
                    own.occurrences[0].traceback,
                );
            }
            assert(all_relabelled(errors, other_job, other_file) =~= all_relabelled(
                rest,
                other_job,
                other_file,
            ).push(relabelled(own, other_job, other_file)));
        }
    } else {
        assert(all_relabelled(errors, other_job, other_file) =~= others);
    }
}

proof fn lemma_file_relabelled(
    lines: Seq<jest::JestLineModel>,
    j: int,
    failure: jest::JestFailureModel,
    job: Seq<char>,
    log_file: Seq<char>,
    other_job: Seq<char>,
    other_file: Seq<char>,
)
    ensures
        all_relabelled(
            jest::file_errors(lines, j, failure, job, log_file),
            other_job,
            other_file,
        ) == jest::file_errors(lines, j, failure, other_job, other_file),
    decreases lines.len() - j,
{
    let errors = jest::file_errors(lines, j, failure, job, log_file);
    let others = jest::file_errors(lines, j, failure, other_job, other_file);
    if 0 <= j < lines.len() && !jest::ends_file()(lines[j]) {
        let next = jest::next_line(lines, j);
        jest::lemma_details(lines, j);
        lemma_file_relabelled(lines, next, failure, job, log_file, other_job, other_file);
        if lines[j].error is Some && !jest::is_console(lines, j) {
            let own = jest::error_at(lines, j, failure, job, log_file);
            let rest = jest::file_errors(lines, next, failure, job, log_file);
            assert(relabelled(own, other_job, other_file) =~= jest::error_at(
                lines,
                j,
                failure,
                other_job,
                other_file,
            )) by {
                lemma_sole_occurrence(
                    own,
                    job,
                    log_file,
                    other_job,
                    other_file,
                    own.occurrences[0].traceback,
                );
            }
            assert(all_relabelled(errors, other_job, other_file) =~= seq![
                relabelled(own, other_job, other_file),
            ] + all_relabelled(rest, other_job, other_file));
        }
    } else {
        assert(all_relabelled(errors, other_job, other_file) =~= others);
    }
}

proof fn lemma_jest_relabelled(
    lines: Seq<jest::JestLineModel>,
    from: int,
    job: Seq<char>,
    log_file: Seq<char>,
    other_job: Seq<char>,
    other_file: Seq<char>,
)
    requires
        0 <= from <= lines.len(),
    ensures
        all_relabelled(jest::errors_from(lines, from, job, log_file), other_job, other_file)
            == jest::errors_from(lines, from, other_job, other_file),
    decreases lines.len() - from,
{
    let errors = jest::errors_from(lines, from, job, log_file);
    let others = jest::errors_from(lines, from, other_job, other_file);
    if from < lines.len() {
        if lines[from].failure is None {
            lemma_jest_relabelled(lines, from + 1, job, log_file, other_job, other_file);
        } else {
            let failure = lines[from].failure->0;
            let end = jest::file_end(lines, from + 1);
            let own = jest::errors_of_file(lines, from, job, log_file);
            let rest = jest::errors_from(lines, end, job, log_file);
            jest::lemma_file_end(lines, from + 1);
            lemma_jest_relabelled(lines, end, job, log_file, other_job, other_file);
            lemma_file_relabelled(
                lines,
                from + 1,
                failure,
                job,
                log_file,
                other_job,
                other_file,
            );
            if !jest::names_error(lines, from + 1) {
                let suite = jest::suite_error(failure, job, log_file);
                lemma_sole_occurrence(suite, job, log_file, other_job, other_file, None);
                assert(relabelled(suite, other_job, other_file) =~= jest::suite_error(
                    failure,
                    other_job,
                    other_file,
                ));
            }
            assert(all_relabelled(own, other_job, other_file) =~= jest::errors_of_file(
                lines,
                from,
                other_job,
                other_file,
            ));
            assert(all_relabelled(errors, other_job, other_file) =~= all_relabelled(
                own,
                other_job,
                other_file,
            ) + all_relabelled(rest, other_job, other_file));
        }
    } else {
        assert(all_relabelled(errors, other_job, other_file) =~= others);
    }
}

proof fn lemma_rust_relabelled(
    lines: Seq<rust_test::RustLineModel>,
    from: int,
    test_file: Seq<char>,
    job: Seq<char>,
    log_file: Seq<char>,
    other_job: Seq<char>,
    other_file: Seq<char>,
)
    requires
        0 <= from <= lines.len(),
    ensures
        all_relabelled(
            rust_test::errors_from(lines, from, test_file, job, log_file),
            other_job,
            other_file,
        ) == rust_test::errors_from(lines, from, test_file, other_job, other_file),
    decreases lines.len() - from,
{
    let errors = rust_test::errors_from(lines, from, test_file, job, log_file);
    let others = rust_test::errors_from(lines, from, test_file, other_job, other_file);
    if from < lines.len() {
        if lines[from].running is Some {
            lemma_rust_relabelled(
                lines,
                from + 1,
                lines[from].running->0,
                job,
                log_file,
                other_job,
                other_file,
            );
        } else if lines[from].failure is None {
            lemma_rust_relabelled(
                lines,
                from + 1,
                test_file,
                job,
                log_file,
                other_job,
                other_file,
            );
        } else {
            let end = rust_test::output_end(lines, from);
            let own = rust_test::error_at(lines, from, test_file, job, log_file);
            let rest = rust_test::errors_from(lines, end, test_file, job, log_file);
            lemma_next_where(lines, rust_test::ends_output(), from + 1);
            lemma_rust_relabelled(lines, end, test_file, job, log_file, other_job, other_file);
            assert(relabelled(own, other_job, other_file) =~= rust_test::error_at(
                lines,
                from,
                test_file,
                other_job,
                other_file,
            )) by {
                lemma_sole_occurrence(
                    own,
                    job,
                    log_file,
                    other_job,
                    other_file,
                    own.occurrences[0].traceback,
                );
            }
            assert(all_relabelled(errors, other_job, other_file) =~= seq![
                relabelled(own, other_job, other_file),
            ] + all_relabelled(rest, other_job, other_file));
        }
    } else {
        assert(all_relabelled(errors, other_job, other_file) =~= others);
    }
}

/// The names of the job and of the log change nothing in the errors of a reader but the names of
/// the job and of the log in their places.
pub proof fn law_names_change_the_places_only(
    parser: LogParser,
    content: Seq<char>,
    job: Seq<char>,
    log_file: Seq<char>,
    other_job: Seq<char>,
    other_file: Seq<char>,
)
    ensures
        all_relabelled(parser.errors_in(content, job, log_file), other_job, other_file)
            == parser.errors_in(content, other_job, other_file),
{
    match parser {
        LogParser::Pytest(_) => {
            let lines = pytest::log_lines(content);
            lemma_pytest_relabelled(
                lines,
                lines.len() as int,
                job,
                log_file,
                other_job,
                other_file,
            );
        },
        LogParser::Jest(_) => {
            let lines = jest::log_lines(content);
            lemma_jest_relabelled(lines, 0, job, log_file, other_job, other_file);
        },
        LogParser::RustTest(_) => {
            let lines = rust_test::log_lines(content);
            lemma_rust_relabelled(lines, 0, seq![], job, log_file, other_job, other_file);
        },
    }
}

// ---------------------------------------------------------------------------
// All readers
// ---------------------------------------------------------------------------

/// Every error that a reader finds is of its framework and was seen once, in the log that was read.
pub proof fn law_errors_name_their_log(
    parser: LogParser,
    content: Seq<char>,
    job_name: Seq<char>,
    log_filename: Seq<char>,
)
    ensures
        are_from(
            parser.errors_in(content, job_name, log_filename),
            parser.name(),
            job_name,
            log_filename,
        ),
{
    match parser {
        LogParser::Pytest(_) => {
            let lines = pytest::log_lines(content);
            law_pytest_has_an_error_for_each_failure(
                lines,
                lines.len() as int,
                job_name,
                log_filename,
            );
        },
        LogParser::Jest(_) => {
            law_jest_errors_are_of_failed_files(
                jest::log_lines(content),
                0,
                job_name,
                log_filename,
            );
        },
        LogParser::RustTest(_) => {
            law_rust_errors_have_a_kind(
                rust_test::log_lines(content),
                0,
                seq![],
                job_name,
                log_filename,
            );
        },
    }
}

/// The readers are named after the frameworks, and every error has the name of its reader.
pub proof fn law_readers_name_their_errors(
    content: Seq<char>,
    job_name: Seq<char>,
    log_filename: Seq<char>,
)
    ensures
        PytestParser.name() == "pytest"@,
        JestParser.name() == "jest"@,
        RustTestParser.name() == "rust"@,
        are_from(
            PytestParser.errors_in(content, job_name, log_filename),
            "pytest"@,
            job_name,
            log_filename,
        ),
        are_from(
            JestParser.errors_in(content, job_name, log_filename),
            "jest"@,
            job_name,
            log_filename,
        ),
        are_from(
            RustTestParser.errors_in(content, job_name, log_filename),
            "rust"@,
            job_name,
            log_filename,
        ),
{
    law_errors_name_their_log(LogParser::Pytest(PytestParser), content, job_name, log_filename);
    law_errors_name_their_log(LogParser::Jest(JestParser), content, job_name, log_filename);
    law_errors_name_their_log(LogParser::RustTest(RustTestParser), content, job_name, log_filename);
}

} // verus!
