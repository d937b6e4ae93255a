//! Errors in the output of pytest.
use super::{occurrence, sole_occurrence, traceback_of, traceback_text, TestErrorParser};
use crate::matching::{captures, compile, first_of, group, group_of, source_of, take_first};
use crate::models::{TestError, TestErrorModel};
use crate::number::{parse_u32, parsed_u32};
use crate::patterns::{line_number_groups, pytest_groups, LINE_NUMBER_RE, PYTEST_FAILED_RE};
use crate::seqs::{lemma_next_where_is, next_where};
use crate::text::{
    contains, cut, lines, lines_of, mentions, split_once, starts_with, trim, trimmed,
};
use vstd::prelude::*;

verus! {

/// A failed test as the short summary names it.
pub struct PytestFailure {
    pub test_path: String,
    pub error_info: String,
}

/// The value of a [`PytestFailure`].
#[verifier::ext_equal]
pub struct PytestFailureModel {
    pub test_path: Seq<char>,
    pub error_info: Seq<char>,
}

impl DeepView for PytestFailure {
    type V = PytestFailureModel;

    open spec fn deep_view(&self) -> PytestFailureModel {
        PytestFailureModel { test_path: self.test_path@, error_info: self.error_info@ }
    }
}

/// A log line with what the patterns find in it: the failed test, and the digits of a line number
/// in a Python file.
pub struct PytestLine {
    pub text: String,
    pub failure: Option<PytestFailure>,
    pub number: Option<String>,
}

/// The value of a [`PytestLine`].
#[verifier::ext_equal]
pub struct PytestLineModel {
    pub text: Seq<char>,
    pub failure: Option<PytestFailureModel>,
    pub number: Option<Seq<char>>,
}

impl DeepView for PytestLine {
    type V = PytestLineModel;

    open spec fn deep_view(&self) -> PytestLineModel {
        PytestLineModel {
            text: self.text@,
            failure: self.failure.deep_view(),
            number: self.number.deep_view(),
        }
    }
}

// ---------------------------------------------------------------------------
// One failure
// ---------------------------------------------------------------------------

/// The kind and the message of an error: what stands before and behind the first colon.
pub open spec fn kind_and_message(info: Seq<char>) -> (Seq<char>, Seq<char>) {
    match cut(info, ":"@) {
        Some((kind, message)) => (trimmed(kind), trimmed(message)),
        None => (trimmed(info), seq![]),
    }
}

/// The file and the name of a test: what stands before and behind the first double colon.
pub open spec fn file_and_name(test_path: Seq<char>) -> (Seq<char>, Seq<char>) {
    match cut(test_path, "::"@) {
        Some((file, name)) => (file, name),
        None => (test_path, seq![]),
    }
}

/// Holds of the lines that end the details of a failure.
pub open spec fn ends_details() -> spec_fn(PytestLineModel) -> bool {
    |line: PytestLineModel| "FAILED"@.is_prefix_of(line.text) || "====="@.is_prefix_of(line.text)
}

/// Where the details of the failure at line `i` end: at a line that ends them, but at most
/// twenty-nine lines further on.
pub open spec fn details_end(lines: Seq<PytestLineModel>, i: int) -> int {
    let limit = if i + 30 < lines.len() {
        i + 30
    } else {
        lines.len() as int
    };
    next_where(lines.take(limit), ends_details(), i + 1)
}

/// The explanation that a line marked with `E` holds.
pub open spec fn explanation(text: Seq<char>) -> Option<Seq<char>> {
    let line = trimmed(text);
    if "E   "@.is_prefix_of(line) && trimmed(line.skip(4)).len() > 0 {
        Some(trimmed(line.skip(4)))
    } else {
        None
    }
}

/// The explanations in the lines from `from` up to `to`.
pub open spec fn explanations(lines: Seq<PytestLineModel>, from: int, to: int) -> Seq<Seq<char>>
    decreases to - from,
{
    if to <= from {
        seq![]
    } else {
        match explanation(lines[to - 1].text) {
            Some(text) => explanations(lines, from, to - 1).push(text),
            None => explanations(lines, from, to - 1),
        }
    }
}

/// The line number that the lines from `from` up to `to` give: the last one counts.
pub open spec fn last_number(lines: Seq<PytestLineModel>, from: int, to: int) -> Option<u32>
    decreases to - from,
{
    if to <= from {
        None
    } else {
        match lines[to - 1].number {
            Some(digits) => parsed_u32(digits),
            None => last_number(lines, from, to - 1),
        }
    }
}

/// The error that the failure at line `i` stands for.
pub open spec fn error_at(
    lines: Seq<PytestLineModel>,
    i: int,
    job_name: Seq<char>,
    log_filename: Seq<char>,
) -> TestErrorModel {
    let failure = lines[i].failure->0;
    let (test_file, test_name) = file_and_name(failure.test_path);
    let (error_type, message) = kind_and_message(failure.error_info);
    let end = details_end(lines, i);
    let traceback = if message.len() > 0 {
        traceback_of(explanations(lines, i + 1, end))
    } else {
        None
    };
    TestErrorModel {
        framework: "pytest"@,
        test_file,
        test_name,
        error_type,
        message,
        line: last_number(lines, i + 1, end),
        occurrences: sole_occurrence(job_name, log_filename, traceback),
    }
}

/// The errors that the failures in the first `n` lines stand for.
pub open spec fn errors_before(
    lines: Seq<PytestLineModel>,
    n: int,
    job_name: Seq<char>,
    log_filename: Seq<char>,
) -> Seq<TestErrorModel>
    decreases n,
{
    if n <= 0 {
        seq![]
    } else if lines[n - 1].failure is Some {
        errors_before(lines, n - 1, job_name, log_filename).push(
            error_at(lines, n - 1, job_name, log_filename),
        )
    } else {
        errors_before(lines, n - 1, job_name, log_filename)
    }
}

fn explanation_text(text: &str) -> (result: Option<String>)
    ensures
        result.deep_view() == explanation(text@),
{
    let line = trim(text);
    if starts_with(line, "E   ") {
        proof {
            reveal_strlit("E   ");
        }
        let length: usize = line.unicode_len();
        let rest = line.substring_char(4, length);
        assert(rest@ =~= line@.skip(4));
        let inner = trim(rest);
        if inner.is_empty() {
            None
        } else {
            Some(inner.to_owned())
        }
    } else {
        None
    }
}

fn error_of(
    lines: &Vec<PytestLine>,
    i: usize,
    failure: &PytestFailure,
    job_name: &str,
    log_filename: &str,
) -> (error: TestError)
    requires
        i < lines@.len(),
        lines.deep_view()[i as int].failure == Some(failure.deep_view()),
    ensures
        error.deep_view() == error_at(lines.deep_view(), i as int, job_name@, log_filename@),
{
    let ghost all = lines.deep_view();
    let (error_type, message) = match split_once(failure.error_info.as_str(), ":") {
        Some((kind, message)) => (trim(kind).to_owned(), trim(message).to_owned()),
        None => (trim(failure.error_info.as_str()).to_owned(), String::new()),
    };
    let (test_file, test_name) = match split_once(failure.test_path.as_str(), "::") {
        Some((file, name)) => (file.to_owned(), name.to_owned()),
        None => (failure.test_path.clone(), String::new()),
    };
    let limit: usize = if lines.len() - i > 30 {
        i + 30
    } else {
        lines.len()
    };
    let ghost window = all.take(limit as int);
    let mut found: Vec<String> = Vec::new();
    let mut line: Option<u32> = None;
    let mut j: usize = i + 1;
    while j < limit
        invariant
            i + 1 <= j <= limit <= lines@.len(),
            all == lines.deep_view(),
            window == all.take(limit as int),
            found.deep_view() == explanations(all, i + 1, j as int),
            line == last_number(all, i + 1, j as int),
            forall|k: int| i + 1 <= k < j ==> !ends_details()(#[trigger] window[k]),
        ensures
            i + 1 <= j <= limit,
            j < limit ==> ends_details()(window[j as int]),
            found.deep_view() == explanations(all, i + 1, j as int),
            line == last_number(all, i + 1, j as int),
            forall|k: int| i + 1 <= k < j ==> !ends_details()(#[trigger] window[k]),
        decreases limit - j,
    {
        let next = &lines[j];
        assert(window[j as int] == next.deep_view());
        assert(all[j as int] == next.deep_view());
        if starts_with(next.text.as_str(), "FAILED") || starts_with(next.text.as_str(), "=====") {
            assert(ends_details()(window[j as int]));
            break;
        }
        assert(!ends_details()(window[j as int]));
        match explanation_text(next.text.as_str()) {
            Some(text) => {
                let ghost before = found.deep_view();
                found.push(text);
                assert(found.deep_view() =~= before.push(text@));
            },
            None => {},
        }
        match &next.number {
            Some(digits) => {
                line = parse_u32(digits.as_str());
            },
            None => {},
        }
        j += 1;
    }
    proof {
        lemma_next_where_is(window, ends_details(), i + 1, j as int);
    }
    let traceback = if message.as_str().is_empty() {
        None
    } else {
        traceback_text(&found)
    };
    TestError {
        framework: "pytest".to_owned(),
        test_file,
        test_name,
        error_type,
        message,
        line,
        occurrences: occurrence(job_name, log_filename, traceback),
    }
}

/// Reads the errors in lines that the patterns were matched against.
pub fn errors_of_lines(lines: &Vec<PytestLine>, job_name: &str, log_filename: &str) -> (errors: Vec<
    TestError,
>)
    ensures
        errors.deep_view() == errors_before(
            lines.deep_view(),
            lines@.len() as int,
            job_name@,
            log_filename@,
        ),
{
    let ghost all = lines.deep_view();
    let mut errors: Vec<TestError> = Vec::new();
    let mut i: usize = 0;
    assert(errors.deep_view() =~= seq![]);
    while i < lines.len()
        invariant
            i <= lines@.len(),
            all == lines.deep_view(),
            errors.deep_view() == errors_before(all, i as int, job_name@, log_filename@),
        decreases lines@.len() - i,
    {
        assert(all[i as int] == lines@[i as int].deep_view());
        match &lines[i].failure {
            Some(failure) => {
                let ghost before = errors.deep_view();
                let error = error_of(lines, i, failure, job_name, log_filename);
                errors.push(error);
                assert(errors.deep_view() =~= before.push(error.deep_view()));
            },
            None => {},
        }
        i += 1;
    }
    errors
}

// ---------------------------------------------------------------------------
// A whole log
// ---------------------------------------------------------------------------

/// The failed test that a match in the short summary names: the second group is the path of the
/// test, the third is the error.
pub open spec fn failure_of(found: Option<Seq<Option<Seq<char>>>>) -> Option<PytestFailureModel> {
    match found {
        Some(groups) => match (group_of(groups, 2), group_of(groups, 3)) {
            (Some(test_path), Some(error_info)) => Some(
                PytestFailureModel { test_path, error_info },
            ),
            _ => None,
        },
        None => None,
    }
}

/// The failed test that a line of the short summary names.
pub open spec fn failure_in(text: Seq<char>) -> Option<PytestFailureModel> {
    failure_of(pytest_groups(text))
}

/// What the patterns find in a line.
pub open spec fn line_of(text: Seq<char>) -> PytestLineModel {
    PytestLineModel {
        text,
        failure: failure_in(text),
        number: if mentions(text, ".py:"@) {
            first_of(line_number_groups(text))
        } else {
            None
        },
    }
}

/// The lines of a log with what the patterns find in them.
pub open spec fn log_lines(content: Seq<char>) -> Seq<PytestLineModel> {
    let texts = lines_of(content);
    Seq::new(texts.len(), |i: int| line_of(texts[i]))
}

/// Reads the failed test from the groups of a match in the short summary.
pub fn read_failure(found: &Option<Vec<Option<String>>>) -> (failure: Option<PytestFailure>)
    ensures
        failure.deep_view() == failure_of(found.deep_view()),
{
    match found {
        Some(groups) => match (group(groups, 2), group(groups, 3)) {
            (Some(test_path), Some(error_info)) => Some(PytestFailure { test_path, error_info }),
            _ => None,
        },
        None => None,
    }
}

fn match_lines(content: &str) -> (result: Vec<PytestLine>)
    ensures
        result.deep_view() == log_lines(content@),
{
    let failed_re = compile(PYTEST_FAILED_RE);
    let number_re = compile(LINE_NUMBER_RE);
    let texts = lines(content);
    let mut result: Vec<PytestLine> = Vec::new();
    let mut i: usize = 0;
    assert(result.deep_view() =~= log_lines(content@).take(0));
    while i < texts.len()
        invariant
            i <= texts@.len(),
            texts.deep_view() == lines_of(content@),
            source_of(failed_re) == PYTEST_FAILED_RE@,
            source_of(number_re) == LINE_NUMBER_RE@,
            result.deep_view() == log_lines(content@).take(i as int),
        decreases texts@.len() - i,
    {
        let text = texts[i].as_str();
        assert(text@ == texts.deep_view()[i as int]);
        let number = if contains(text, ".py:") {
            take_first(&captures(&number_re, text))
        } else {
            None
        };
        let line = PytestLine {
            text: text.to_owned(),
            failure: read_failure(&captures(&failed_re, text)),
            number,
        };
        assert(line.deep_view() == line_of(text@));
        let ghost before = result.deep_view();
        result.push(line);
        i += 1;
        assert(result.deep_view() =~= before.push(line.deep_view()));
        assert(result.deep_view() =~= log_lines(content@).take(i as int));
    }
    assert(log_lines(content@).take(i as int) =~= log_lines(content@));
    result
}

/// The reader of the output of pytest.
pub struct PytestParser;

impl TestErrorParser for PytestParser {
    open spec fn name(&self) -> Seq<char> {
        "pytest"@
    }

    open spec fn errors_in(
        &self,
        content: Seq<char>,
        job_name: Seq<char>,
        log_filename: Seq<char>,
    ) -> Seq<TestErrorModel> {
        let lines = log_lines(content);
        errors_before(lines, lines.len() as int, job_name, log_filename)
    }

    fn framework(&self) -> (name: &'static str) {
        "pytest"
    }

    fn parse(&self, content: &str, job_name: &str, log_filename: &str) -> (errors: Vec<TestError>) {
        let lines = match_lines(content);
        errors_of_lines(&lines, job_name, log_filename)
    }
}

} // verus!
