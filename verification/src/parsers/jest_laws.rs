//! What the errors of Jest say of the lines of a log.
use super::laws::{are_timed, is_timed, lemma_timed, plain_lines};
use super::{jest, without_ansi, without_timestamp, JestParser, TestErrorParser};
use crate::number::parsed_u32;
use crate::patterns::{
    is_frame_text, jest_error_groups, jest_header_groups, jest_line_groups, lemma_jest_error_groups,
    lemma_jest_header_groups, lemma_jest_line_groups, not_spaces, space_end,
};
use crate::seqs::{lemma_next_where, next_where};
use crate::text::{
    found, is_blank, is_space, joined, lemma_found_from, lines_of, trimmed, trimmed_end,
};
use crate::text_laws::{
    law_blank_texts_are_white, law_mentioned_characters_are_held, law_text_is_cut_at_the_first,
};
use vstd::prelude::*;

verus! {

/// Times in front of the lines of a log change nothing in the errors of Jest.
pub proof fn law_times_change_no_jest_errors(
    timed: Seq<char>,
    bare: Seq<char>,
    job_name: Seq<char>,
    log_filename: Seq<char>,
)
    requires
        are_timed(lines_of(without_ansi(timed)), lines_of(without_ansi(bare))),
    ensures
        JestParser.errors_in(timed, job_name, log_filename) == JestParser.errors_in(
            bare,
            job_name,
            log_filename,
        ),
{
    let left = lines_of(without_ansi(timed));
    let right = lines_of(without_ansi(bare));
    assert forall|i: int| 0 <= i < left.len() implies jest::line_of(#[trigger] left[i])
        == jest::line_of(right[i]) by {
        if left[i] != right[i] {
            let stamp = choose|stamp: Seq<char>| is_timed(left[i], right[i], stamp);
            lemma_timed(left[i], right[i], stamp);
        }
    }
    assert(jest::log_lines(timed) =~= jest::log_lines(bare));
}

// ---------------------------------------------------------------------------
// The reports on failed files
// ---------------------------------------------------------------------------

/// The failed file that a line is the header of.
pub open spec fn failed_file(text: Seq<char>) -> Option<jest::JestFailureModel> {
    match jest_header_groups(text) {
        Some(groups) => Some(
            jest::JestFailureModel { browser: groups[1], test_file: groups[2]->0 },
        ),
        None => None,
    }
}

/// The name of the error that a line names.
pub open spec fn named_error(text: Seq<char>) -> Option<Seq<char>> {
    match jest_error_groups(text) {
        Some(groups) => Some(trimmed(groups[1]->0)),
        None => None,
    }
}

/// Whether a line ends the report on a failed file: the header of another, or the result of a file
/// that passed, or the summary.
pub open spec fn closes_file(text: Seq<char>) -> bool {
    ||| failed_file(text) is Some
    ||| "PASS "@.is_prefix_of(text)
    ||| "Test Suites:"@.is_prefix_of(text)
}

/// Whether line `j` lies in the report on the failed file whose header stands at line `i`.
pub open spec fn is_within(texts: Seq<Seq<char>>, i: int, j: int) -> bool {
    &&& 0 <= i < j < texts.len()
    &&& failed_file(texts[i]) is Some
    &&& forall|l: int| i < l <= j ==> !closes_file(#[trigger] texts[l])
}

/// Whether line `j` names an error in the report on the failed file with its header at line `i`.
pub open spec fn names(texts: Seq<Seq<char>>, i: int, j: int) -> bool {
    is_within(texts, i, j) && named_error(texts[j]) is Some
}

/// Whether line `j` gives an error: it names one other than console output in the report on a
/// failed file, or is the header of a failed file whose report names none.
pub open spec fn gives_error(texts: Seq<Seq<char>>, j: int) -> bool {
    ||| (exists|i: int| #[trigger] names(texts, i, j)) && named_error(texts[j])->0 != "Console"@
    ||| failed_file(texts[j]) is Some && forall|l: int| !#[trigger] names(texts, j, l)
}

/// How many of the first `n` lines give an error.
pub open spec fn errors_before(texts: Seq<Seq<char>>, n: int) -> int
    decreases n,
{
    if n <= 0 {
        0
    } else {
        errors_before(texts, n - 1) + if gives_error(texts, n - 1) {
            1int
        } else {
            0
        }
    }
}

/// What the patterns find in the lines of a log.
proof fn lemma_facts(content: Seq<char>, i: int)
    requires
        0 <= i < plain_lines(content).len(),
    ensures
        ({
            let line = jest::log_lines(content)[i];
            let text = plain_lines(content)[i];
            &&& jest::log_lines(content).len() == plain_lines(content).len()
            &&& line.text == text
            &&& line.failure == failed_file(text)
            &&& line.error is Some == named_error(text) is Some
            &&& line.error is Some ==> named_error(text) == Some(trimmed(line.error->0))
            &&& line.is_frame == is_frame_text(text)
            &&& line.is_frame ==> line.number == match jest_line_groups(trimmed(text)) {
                Some(groups) => groups[1],
                None => None,
            }
            &&& jest::ends_file()(line) == closes_file(text)
            &&& jest::ends_details()(line) == closes_section(text)
            &&& closes_section(text) || is_frame_text(text) ==> !is_blank(text)
            &&& closes_file(text) ==> closes_section(text)
        }),
{
    let raw = lines_of(without_ansi(content));
    let text = plain_lines(content)[i];
    assert(jest::log_lines(content)[i] == jest::line_of(raw[i]));
    assert(text == without_timestamp(raw[i]));
    lemma_jest_header_groups(text);
    lemma_jest_error_groups(text);
    lemma_jest_line_groups(trimmed(text));
    law_blank_texts_are_white(text);
    reveal_strlit("PASS ");
    reveal_strlit("Test Suites:");
    reveal_strlit("FAIL");
    reveal_strlit("at");
    if failed_file(text) is Some {
        lemma_found_from(text, "FAIL"@, 0);
        let k = found(text, "FAIL"@)->0;
        assert(text.subrange(k, k + 4)[0] == 'F');
        assert(!is_space(text[k]));
    }
    if named_error(text) is Some {
        let p = text.index_of('●');
        assert(!is_space(text[p]));
    }
    if is_frame_text(text) {
        lemma_next_where(text, not_spaces(), 0);
        let k = space_end(text, 0);
        assert(text.subrange(k, k + 2)[0] == 'a');
        assert(!is_space(text[k]));
    }
    if "PASS "@.is_prefix_of(text) {
        assert(text[0] == "PASS "@[0]);
    }
    if "Test Suites:"@.is_prefix_of(text) {
        lemma_trimmed_prefix(text);
    }
}

/// A summary is one once it is trimmed, too.
proof fn lemma_trimmed_prefix(text: Seq<char>)
    requires
        "Test Suites:"@.is_prefix_of(text),
    ensures
        "Test Suites:"@.is_prefix_of(trimmed(text)),
{
    reveal_strlit("Test Suites:");
    assert(text[0] == "Test Suites:"@[0]);
    assert(text[11] == "Test Suites:"@[11]);
    lemma_end_keeps(text, 12);
    assert(trimmed(text) == trimmed_end(text));
    assert(trimmed(text).take(12) =~= text.take(12));
    assert("Test Suites:"@ =~= text.take(12));
}

/// Trimming the end keeps what stands before a character that is no white space.
proof fn lemma_end_keeps(s: Seq<char>, n: int)
    requires
        0 < n <= s.len(),
        !is_space(s[n - 1]),
    ensures
        trimmed_end(s).len() >= n,
        trimmed_end(s).take(n) == s.take(n),
    decreases s.len(),
{
    if is_space(s.last()) {
        assert(s.drop_last()[n - 1] == s[n - 1]);
        lemma_end_keeps(s.drop_last(), n);
        assert(s.drop_last().take(n) =~= s.take(n));
    }
}

// ---------------------------------------------------------------------------
// The section of one error
// ---------------------------------------------------------------------------

/// Whether a line ends the section of an error.
pub open spec fn closes_section(text: Seq<char>) -> bool {
    ||| named_error(text) is Some
    ||| failed_file(text) is Some
    ||| "PASS "@.is_prefix_of(text)
    ||| "Test Suites:"@.is_prefix_of(trimmed(text))
}

/// Whether the section of the error named at line `j` ends before line `end`.
pub open spec fn is_section(texts: Seq<Seq<char>>, j: int, end: int) -> bool {
    &&& 0 <= j < end <= texts.len()
    &&& end < texts.len() ==> closes_section(texts[end])
    &&& forall|l: int| j < l < end ==> !closes_section(#[trigger] texts[l])
}

proof fn lemma_section(content: Seq<char>, j: int)
    requires
        0 <= j < plain_lines(content).len(),
    ensures
        ({
            let lines = jest::log_lines(content);
            let start = jest::details_start(lines, j);
            let end = jest::details_end(lines, j);
            &&& is_section(plain_lines(content), j, end)
            &&& j < start <= end <= lines.len()
            &&& lines.len() == plain_lines(content).len()
            &&& forall|l: int| j < l < start ==> is_blank(#[trigger] plain_lines(content)[l])
        }),
{
    let lines = jest::log_lines(content);
    let texts = plain_lines(content);
    let start = jest::details_start(lines, j);
    let end = jest::details_end(lines, j);
    jest::lemma_details(lines, j);
    lemma_next_where(lines, jest::not_blank(), j + 1);
    lemma_next_where(lines, jest::ends_details(), start);
    assert forall|l: int| j < l < start implies is_blank(#[trigger] texts[l]) by {
        assert(!jest::not_blank()(lines[l]));
        lemma_facts(content, l);
    }
    assert forall|l: int| j < l < end implies !closes_section(#[trigger] texts[l]) by {
        lemma_facts(content, l);
        if l < start {
            assert(is_blank(texts[l]));
        } else {
            assert(!jest::ends_details()(lines[l]));
        }
    }
    if end < texts.len() {
        lemma_facts(content, end);
    }
}

proof fn lemma_section_end(texts: Seq<Seq<char>>, j: int, a: int, b: int)
    requires
        is_section(texts, j, a),
        is_section(texts, j, b),
    ensures
        a == b,
{
    if a < b {
        assert(!closes_section(texts[a]));
    } else if b < a {
        assert(!closes_section(texts[b]));
    }
}

// ---------------------------------------------------------------------------
// Every named error gives one
// ---------------------------------------------------------------------------

/// A line that ends no section names nothing and gives no error.
proof fn lemma_gives_nothing(texts: Seq<Seq<char>>, from: int, to: int)
    requires
        0 <= from <= to <= texts.len(),
        forall|l: int| from <= l < to ==> !closes_section(#[trigger] texts[l]),
    ensures
        errors_before(texts, to) == errors_before(texts, from),
    decreases to - from,
{
    if from < to {
        lemma_gives_nothing(texts, from, to - 1);
        assert(!closes_section(texts[to - 1]));
    }
}

/// Whether the report on the failed file with its header at line `i` ends before line `end`.
pub open spec fn is_file_report(texts: Seq<Seq<char>>, i: int, end: int) -> bool {
    &&& 0 <= i < end <= texts.len()
    &&& failed_file(texts[i]) is Some
    &&& end < texts.len() ==> closes_file(texts[end])
    &&& forall|l: int| i < l < end ==> !closes_file(#[trigger] texts[l])
}

proof fn lemma_file(
    content: Seq<char>,
    i: int,
    j: int,
    end: int,
    l: int,
    job_name: Seq<char>,
    log_filename: Seq<char>,
)
    requires
        is_file_report(plain_lines(content), i, end),
        i < j <= end,
    ensures
        ({
            let texts = plain_lines(content);
            let lines = jest::log_lines(content);
            let failure = failed_file(texts[i])->0;
            let errors = jest::file_errors(lines, j, failure, job_name, log_filename);
            &&& jest::file_end(lines, j) == end
            &&& jest::names_error(lines, j) <==> exists|m: int| j <= m && #[trigger] names(texts, i, m)
            &&& errors.len() == errors_before(texts, end) - errors_before(texts, j)
            &&& j <= l && names(texts, i, l) && named_error(texts[l])->0 != "Console"@ ==> {
                let k = errors_before(texts, l) - errors_before(texts, j);
                &&& 0 <= k < errors.len()
                &&& errors[k] == jest::error_at(lines, l, failure, job_name, log_filename)
            }
        }),
    decreases end - j,
{
    let texts = plain_lines(content);
    let lines = jest::log_lines(content);
    let failure = failed_file(texts[i])->0;
    lemma_facts(content, i);
    if j < end {
        assert(!closes_file(texts[j]));
        lemma_facts(content, j);
        lemma_section(content, j);
        let next = jest::next_line(lines, j);
        let stop = jest::details_end(lines, j);
        if next > end {
            assert(next == stop);
            assert(!closes_section(texts[end]));
            lemma_facts(content, end);
        }
        lemma_file(content, i, next, end, l, job_name, log_filename);
        assert(is_within(texts, i, j));
        lemma_gives_nothing(texts, j + 1, next);
        assert forall|m: int| j < m < next implies !#[trigger] names(texts, i, m) by {
            assert(!closes_section(texts[m]));
        }
        let rest = jest::file_errors(lines, next, failure, job_name, log_filename);
        let errors = jest::file_errors(lines, j, failure, job_name, log_filename);
        if named_error(texts[j]) is Some {
            assert(names(texts, i, j));
            if named_error(texts[j])->0 != "Console"@ {
                let own = jest::error_at(lines, j, failure, job_name, log_filename);
                assert(errors == seq![own] + rest);
                assert(gives_error(texts, j));
                assert(errors_before(texts, j + 1) == errors_before(texts, j) + 1);
                if l >= next && names(texts, i, l) && named_error(texts[l])->0 != "Console"@ {
                    let k = errors_before(texts, l) - errors_before(texts, next);
                    assert((seq![own] + rest)[k + 1] == rest[k]);
                }
            } else {
                assert(!gives_error(texts, j));
            }
        } else {
            assert(!gives_error(texts, j));
            assert(!names(texts, i, j));
        }
    } else {
        assert forall|m: int| j <= m implies !#[trigger] names(texts, i, m) by {
            if names(texts, i, m) {
                assert(!closes_file(texts[end]));
            }
        }
        if end < texts.len() {
            lemma_facts(content, end);
        }
    }
}

proof fn lemma_file_report(content: Seq<char>, i: int) -> (end: int)
    requires
        0 <= i < plain_lines(content).len(),
        failed_file(plain_lines(content)[i]) is Some,
    ensures
        is_file_report(plain_lines(content), i, end),
{
    let texts = plain_lines(content);
    let closing = |text: Seq<char>| closes_file(text);
    let end = next_where(texts, closing, i + 1);
    lemma_next_where(texts, closing, i + 1);
    assert forall|l: int| i < l < end implies !closes_file(#[trigger] texts[l]) by {
        assert(!closing(texts[l]));
    }
    end
}

proof fn lemma_errors_from(
    content: Seq<char>,
    from: int,
    i: int,
    l: int,
    job_name: Seq<char>,
    log_filename: Seq<char>,
)
    requires
        0 <= from <= plain_lines(content).len(),
        forall|h: int| !(h < from && #[trigger] is_within(plain_lines(content), h, from)),
    ensures
        ({
            let texts = plain_lines(content);
            let lines = jest::log_lines(content);
            let errors = jest::errors_from(lines, from, job_name, log_filename);
            &&& errors.len() == errors_before(texts, texts.len() as int) - errors_before(
                texts,
                from,
            )
            &&& from <= i && names(texts, i, l) && named_error(texts[l])->0 != "Console"@ ==> {
                let k = errors_before(texts, l) - errors_before(texts, from);
                &&& 0 <= k < errors.len()
                &&& errors[k] == jest::error_at(
                    lines,
                    l,
                    failed_file(texts[i])->0,
                    job_name,
                    log_filename,
                )
            }
            &&& from <= i < texts.len() && failed_file(texts[i]) is Some && (forall|m: int|
                !#[trigger] names(texts, i, m)) ==> {
                let k = errors_before(texts, i) - errors_before(texts, from);
                &&& 0 <= k < errors.len()
                &&& errors[k] == jest::suite_error(
                    failed_file(texts[i])->0,
                    job_name,
                    log_filename,
                )
            }
        }),
    decreases plain_lines(content).len() - from,
{
    let texts = plain_lines(content);
    let lines = jest::log_lines(content);
    let errors = jest::errors_from(lines, from, job_name, log_filename);
    if from < texts.len() {
        lemma_facts(content, from);
        if failed_file(texts[from]) is None {
            assert(!gives_error(texts, from)) by {
                assert forall|h: int| !#[trigger] names(texts, h, from) by {
                    assert(!is_within(texts, h, from));
                }
            }
            assert forall|h: int| !(h < from + 1 && #[trigger] is_within(texts, h, from + 1)) by {
                if h < from + 1 && is_within(texts, h, from + 1) {
                    assert(h != from);
                    assert(is_within(texts, h, from));
                }
            }
            lemma_errors_from(content, from + 1, i, l, job_name, log_filename);
        } else {
            let end = lemma_file_report(content, from);
            let own = jest::errors_of_file(lines, from, job_name, log_filename);
            let rest = jest::errors_from(lines, end, job_name, log_filename);
            lemma_file(content, from, from + 1, end, l, job_name, log_filename);
            assert(errors == own + rest);
            assert forall|h: int| !(h < end && #[trigger] is_within(texts, h, end)) by {
                if h < end && is_within(texts, h, end) {
                    assert(end < texts.len());
                    assert(!closes_file(texts[end]));
                }
            }
            lemma_errors_from(content, end, i, l, job_name, log_filename);
            assert(gives_error(texts, from) <==> !jest::names_error(lines, from + 1)) by {
                assert forall|m: int| #[trigger] names(texts, from, m) implies from + 1 <= m by {}
                assert forall|h: int| !#[trigger] names(texts, h, from) by {
                    if names(texts, h, from) {
                        assert(!closes_file(texts[from]));
                    }
                }
            }
            assert(errors_before(texts, from + 1) == errors_before(texts, from) + if gives_error(
                texts,
                from,
            ) {
                1int
            } else {
                0
            });
            if !jest::names_error(lines, from + 1) {
                let none = jest::file_errors(
                    lines,
                    from + 1,
                    failed_file(texts[from])->0,
                    job_name,
                    log_filename,
                );
                lemma_no_errors(lines, from + 1, failed_file(texts[from])->0, job_name, log_filename);
            }
            assert(own.len() == errors_before(texts, end) - errors_before(texts, from));
            if from < i < end {
                assert(!closes_file(texts[i]));
            }
            if i == from && names(texts, i, l) {
                if l >= end {
                    assert(!closes_file(texts[end]));
                }
            }
            if from == i && names(texts, i, l) && named_error(texts[l])->0 != "Console"@ {
                let k = errors_before(texts, l) - errors_before(texts, from + 1);
                assert(errors[k] == own[k]);
            }
            if end <= i && names(texts, i, l) && named_error(texts[l])->0 != "Console"@ {
                let k = errors_before(texts, l) - errors_before(texts, end);
                assert(errors[own.len() + k] == rest[k]);
            }
            if end <= i < texts.len() && failed_file(texts[i]) is Some && (forall|m: int|
                !#[trigger] names(texts, i, m)) {
                let k = errors_before(texts, i) - errors_before(texts, end);
                assert(errors[own.len() + k] == rest[k]);
            }
        }
    }
}

/// A report that names nothing has no errors of its own.
proof fn lemma_no_errors(
    lines: Seq<jest::JestLineModel>,
    j: int,
    failure: jest::JestFailureModel,
    job_name: Seq<char>,
    log_filename: Seq<char>,
)
    requires
        !jest::names_error(lines, j),
    ensures
        jest::file_errors(lines, j, failure, job_name, log_filename).len() == 0,
    decreases lines.len() - j,
{
    if 0 <= j < lines.len() && !jest::ends_file()(lines[j]) {
        jest::lemma_details(lines, j);
        lemma_no_errors(lines, jest::next_line(lines, j), failure, job_name, log_filename);
    }
}

/// The name of a test that a browser ran, or that none did.
pub open spec fn shown_name(name: Seq<char>, browser: Option<Seq<char>>) -> Seq<char> {
    if browser is Some {
        name + " ["@ + browser->0 + "]"@
    } else {
        name
    }
}

/// Every line that names an error in the report on a failed file, other than one named `Console`,
/// gives one error with that name, in the order of the log, whatever other sections the report
/// has. A failed file whose report names nothing gives one error that stands for it, and nothing
/// else gives any.
pub proof fn law_jest_named_errors_are_found(
    content: Seq<char>,
    i: int,
    j: int,
    job_name: Seq<char>,
    log_filename: Seq<char>,
)
    requires
        names(plain_lines(content), i, j),
        named_error(plain_lines(content)[j])->0 != "Console"@,
    ensures
        ({
            let texts = plain_lines(content);
            let errors = JestParser.errors_in(content, job_name, log_filename);
            let k = errors_before(texts, j);
            let file = failed_file(texts[i])->0;
            &&& errors.len() == errors_before(texts, texts.len() as int)
            &&& 0 <= k < errors.len()
            &&& errors[k].framework == "jest"@
            &&& errors[k].test_file == file.test_file
            &&& errors[k].test_name == shown_name(named_error(texts[j])->0, file.browser)
            &&& errors[k].occurrences.len() == 1
            &&& errors[k].occurrences[0].job == job_name
            &&& errors[k].occurrences[0].log_file == log_filename
        }),
{
    lemma_errors_from(content, 0, i, j, job_name, log_filename);
    lemma_facts(content, j);
}

/// A failed file whose report names no error gives one that stands for the whole file.
pub proof fn law_jest_failed_files_without_names_are_found(
    content: Seq<char>,
    i: int,
    job_name: Seq<char>,
    log_filename: Seq<char>,
)
    requires
        0 <= i < plain_lines(content).len(),
        failed_file(plain_lines(content)[i]) is Some,
        forall|m: int| !#[trigger] names(plain_lines(content), i, m),
    ensures
        ({
            let texts = plain_lines(content);
            let errors = JestParser.errors_in(content, job_name, log_filename);
            let k = errors_before(texts, i);
            let file = failed_file(texts[i])->0;
            &&& errors.len() == errors_before(texts, texts.len() as int)
            &&& 0 <= k < errors.len()
            &&& errors[k].framework == "jest"@
            &&& errors[k].test_file == file.test_file
            &&& errors[k].test_name == shown_name("(suite)"@, file.browser)
            &&& errors[k].error_type == "SuiteFailed"@
            &&& errors[k].message == Seq::<char>::empty()
            &&& errors[k].line is None
            &&& errors[k].occurrences.len() == 1
            &&& errors[k].occurrences[0].job == job_name
            &&& errors[k].occurrences[0].log_file == log_filename
            &&& errors[k].occurrences[0].traceback is None
        }),
{
    lemma_errors_from(content, 0, i, i, job_name, log_filename);
}

/// A log gives as many errors as it has lines that give one.
pub proof fn law_jest_errors_are_all_named(
    content: Seq<char>,
    job_name: Seq<char>,
    log_filename: Seq<char>,
)
    ensures
        JestParser.errors_in(content, job_name, log_filename).len() == errors_before(
            plain_lines(content),
            plain_lines(content).len() as int,
        ),
{
    lemma_errors_from(content, 0, 0, 0, job_name, log_filename);
}

// ---------------------------------------------------------------------------
// What a section tells
// ---------------------------------------------------------------------------

/// Whether line `k` is the first between `j` and `end` that is neither blank nor a stack frame.
pub open spec fn is_message_line(texts: Seq<Seq<char>>, j: int, end: int, k: int) -> bool {
    &&& j < k < end
    &&& !is_blank(texts[k])
    &&& !is_frame_text(texts[k])
    &&& forall|l: int| j < l < k ==> is_blank(#[trigger] texts[l]) || is_frame_text(texts[l])
}

/// Whether the lines between `j` and `end` are blank or stack frames.
pub open spec fn no_message_line(texts: Seq<Seq<char>>, j: int, end: int) -> bool {
    forall|l: int| j < l < end ==> is_blank(#[trigger] texts[l]) || is_frame_text(texts[l])
}

/// The line number that a stack frame gives.
pub open spec fn number_on(text: Seq<char>) -> Option<u32> {
    if is_frame_text(text) && jest_line_groups(trimmed(text)) is Some {
        parsed_u32((jest_line_groups(trimmed(text))->0)[1]->0)
    } else {
        None
    }
}

/// Whether line `k` is the first between `j` and `end` that gives a line number.
pub open spec fn is_first_number(texts: Seq<Seq<char>>, j: int, end: int, k: int) -> bool {
    &&& j < k < end
    &&& number_on(texts[k]) is Some
    &&& forall|l: int| j < l < k ==> number_on(#[trigger] texts[l]) is None
}

/// Whether no line between `j` and `end` gives a line number.
pub open spec fn no_number(texts: Seq<Seq<char>>, j: int, end: int) -> bool {
    forall|l: int| j < l < end ==> number_on(#[trigger] texts[l]) is None
}

/// The stack frames between `j` and `n`, trimmed.
pub open spec fn frame_lines(texts: Seq<Seq<char>>, j: int, n: int) -> Seq<Seq<char>>
    decreases n - j,
{
    if n <= j + 1 {
        seq![]
    } else if is_frame_text(texts[n - 1]) {
        frame_lines(texts, j, n - 1).push(trimmed(texts[n - 1]))
    } else {
        frame_lines(texts, j, n - 1)
    }
}

proof fn lemma_frames(content: Seq<char>, j: int, start: int, n: int)
    requires
        0 <= j < start <= n <= plain_lines(content).len(),
        forall|l: int| j < l < start ==> is_blank(#[trigger] plain_lines(content)[l]),
    ensures
        jest::frames_in(jest::log_lines(content), start, n) == frame_lines(
            plain_lines(content),
            j,
            n,
        ),
        no_number(plain_lines(content), j, n) ==> jest::first_number(
            jest::log_lines(content),
            start,
            n,
        ) is None,
        forall|k: int| #[trigger]
            is_first_number(plain_lines(content), j, n, k) ==> jest::first_number(
                jest::log_lines(content),
                start,
                n,
            ) == number_on(plain_lines(content)[k]),
    decreases n - j,
{
    let texts = plain_lines(content);
    let lines = jest::log_lines(content);
    if n > j + 1 {
        lemma_facts(content, n - 1);
        lemma_jest_line_groups(trimmed(texts[n - 1]));
        assert(jest::frame_number(lines[n - 1]) == number_on(texts[n - 1]));
        if n > start {
            lemma_frames(content, j, start, n - 1);
        } else {
            lemma_frames(content, j, start - 1, n - 1);
            assert(is_blank(texts[n - 1]));
        }
        assert forall|k: int| #[trigger] is_first_number(texts, j, n, k) implies if k < n - 1 {
            is_first_number(texts, j, n - 1, k)
        } else {
            no_number(texts, j, n - 1)
        } by {}
    }
}

proof fn lemma_message(content: Seq<char>, j: int, start: int, end: int, k: int)
    requires
        0 <= j < start <= end <= plain_lines(content).len(),
        forall|l: int| j < l < start ==> is_blank(#[trigger] plain_lines(content)[l]),
    ensures
        is_message_line(plain_lines(content), j, end, k) ==> jest::message_in(
            jest::log_lines(content),
            start,
            end,
        ) == trimmed(plain_lines(content)[k]),
        no_message_line(plain_lines(content), j, end) ==> jest::message_in(
            jest::log_lines(content),
            start,
            end,
        ) == Seq::<char>::empty(),
{
    let texts = plain_lines(content);
    let lines = jest::log_lines(content);
    let part = lines.take(end);
    let found = next_where(part, jest::is_message(), start);
    assert(lines.len() == texts.len());
    lemma_next_where(part, jest::is_message(), start);
    if found < end {
        lemma_facts(content, found);
        assert(jest::is_message()(part[found]));
    }
    if is_message_line(texts, j, end, k) {
        lemma_facts(content, k);
        if k < start {
            assert(is_blank(texts[k]));
        }
        assert(jest::is_message()(part[k]));
        if found < k {
            assert(is_blank(texts[found]) || is_frame_text(texts[found]));
        }
    }
}

/// An error tells of its section alone, which ends at the next error or the end of the report: the
/// message is the first line that is no stack frame, the line number is the first that a frame
/// gives, and the traceback holds the frames.
pub proof fn law_jest_errors_tell_their_section(
    content: Seq<char>,
    i: int,
    j: int,
    end: int,
    job_name: Seq<char>,
    log_filename: Seq<char>,
)
    requires
        names(plain_lines(content), i, j),
        named_error(plain_lines(content)[j])->0 != "Console"@,
        is_section(plain_lines(content), j, end),
    ensures
        ({
            let texts = plain_lines(content);
            let errors = JestParser.errors_in(content, job_name, log_filename);
            let error = errors[errors_before(texts, j)];
            let frames = frame_lines(texts, j, end);
            &&& no_number(texts, j, end) ==> error.line is None
            &&& forall|k: int| #[trigger]
                is_first_number(texts, j, end, k) ==> error.line == number_on(texts[k])
            &&& error.occurrences[0].traceback == if frames.len() == 0 {
                None
            } else {
                Some(joined(frames, "\n"@))
            }
            &&& no_message_line(texts, j, end) ==> error.error_type == named_error(texts[j])->0
                && error.message == Seq::<char>::empty()
            &&& forall|k: int| #[trigger]
                is_message_line(texts, j, end, k) && !trimmed(texts[k]).contains(':')
                    ==> error.error_type == named_error(texts[j])->0 && error.message == trimmed(
                    texts[k],
                )
            &&& forall|k: int, kind: Seq<char>, rest: Seq<char>| #[trigger]
                is_message_line(texts, j, end, k) && trimmed(texts[k]) == #[trigger] (kind + ":"@
                    + rest) && !kind.contains(':') ==> error.error_type == trimmed(kind)
                    && error.message == trimmed(rest)
        }),
{
    let texts = plain_lines(content);
    let lines = jest::log_lines(content);
    let start = jest::details_start(lines, j);
    let name = named_error(texts[j])->0;
    lemma_errors_from(content, 0, i, j, job_name, log_filename);
    lemma_facts(content, j);
    lemma_section(content, j);
    lemma_section_end(texts, j, end, jest::details_end(lines, j));
    lemma_frames(content, j, start, end);
    let error = JestParser.errors_in(content, job_name, log_filename)[errors_before(texts, j)];
    let message = jest::message_in(lines, start, end);
    reveal_strlit(":");
    assert(":"@ =~= seq![':']);
    law_mentioned_characters_are_held(message, ':');
    lemma_message(content, j, start, end, j);
    assert forall|k: int| #[trigger] is_message_line(texts, j, end, k) implies message == trimmed(
        texts[k],
    ) by {
        lemma_message(content, j, start, end, k);
    }
    assert forall|k: int, kind: Seq<char>, rest: Seq<char>| #[trigger]
        is_message_line(texts, j, end, k) && trimmed(texts[k]) == #[trigger] (kind + ":"@ + rest)
            && !kind.contains(':') implies error.error_type == trimmed(kind) && error.message
        == trimmed(rest) by {
        law_text_is_cut_at_the_first(kind, ':', rest);
    }
}

} // verus!
