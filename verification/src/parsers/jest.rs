//! Errors in the output of Jest and of the Storybook test runner.
use super::{
    occurrence, sole_occurrence, strip_ansi, strip_time, traceback_of, traceback_text, without_ansi,
    without_timestamp, TestErrorParser,
};
use crate::matching::{captures, compile, first_of, group, group_of, is_match, source_of, take_first};
use crate::models::{TestError, TestErrorModel};
use crate::number::{parse_u32, parsed_u32};
use crate::patterns::{
    is_frame_text, jest_error_groups, jest_header_groups, jest_line_groups, JEST_AT_RE,
    JEST_ERROR_RE, JEST_FAIL_RE, JEST_LINE_RE, TIMESTAMP_RE,
};
use crate::seqs::{lemma_next_where, lemma_next_where_is, next_where};
use crate::text::{
    cut, is_blank, lines, lines_of, same, split_once, starts_with, trim, trimmed,
};
use vstd::prelude::*;

verus! {

/// The header of a failed test file, with the browser that ran it, if the line names one.
pub struct JestFailure {
    pub browser: Option<String>,
    pub test_file: String,
}

/// The value of a [`JestFailure`].
#[verifier::ext_equal]
pub struct JestFailureModel {
    pub browser: Option<Seq<char>>,
    pub test_file: Seq<char>,
}

impl DeepView for JestFailure {
    type V = JestFailureModel;

    open spec fn deep_view(&self) -> JestFailureModel {
        JestFailureModel { browser: self.browser.deep_view(), test_file: self.test_file@ }
    }
}

/// A log line without its time, with what the patterns find in it: the header of a failed file,
/// the name of a failed test, whether it is a stack frame, and the digits of the frame's line
/// number.
pub struct JestLine {
    pub text: String,
    pub failure: Option<JestFailure>,
    pub error: Option<String>,
    pub is_frame: bool,
    pub number: Option<String>,
}

/// The value of a [`JestLine`].
#[verifier::ext_equal]
pub struct JestLineModel {
    pub text: Seq<char>,
    pub failure: Option<JestFailureModel>,
    pub error: Option<Seq<char>>,
    pub is_frame: bool,
    pub number: Option<Seq<char>>,
}

impl DeepView for JestLine {
    type V = JestLineModel;

    open spec fn deep_view(&self) -> JestLineModel {
        JestLineModel {
            text: self.text@,
            failure: self.failure.deep_view(),
            error: self.error.deep_view(),
            is_frame: self.is_frame,
            number: self.number.deep_view(),
        }
    }
}

// ---------------------------------------------------------------------------
// One error
// ---------------------------------------------------------------------------

/// Holds of the lines that end the report on a failed file.
pub open spec fn ends_file() -> spec_fn(JestLineModel) -> bool {
    |line: JestLineModel|
        {
            ||| line.failure is Some
            ||| "PASS "@.is_prefix_of(line.text)
            ||| "Test Suites:"@.is_prefix_of(line.text)
        }
}

/// Holds of the lines that end the details of an error.
pub open spec fn ends_details() -> spec_fn(JestLineModel) -> bool {
    |line: JestLineModel|
        {
            ||| line.error is Some
            ||| line.failure is Some
            ||| "PASS "@.is_prefix_of(line.text)
            ||| "Test Suites:"@.is_prefix_of(trimmed(line.text))
        }
}

/// Holds of the lines that are not blank.
pub open spec fn not_blank() -> spec_fn(JestLineModel) -> bool {
    |line: JestLineModel| !is_blank(line.text)
}

/// Holds of the lines that can be the message of an error.
pub open spec fn is_message() -> spec_fn(JestLineModel) -> bool {
    |line: JestLineModel| !line.is_frame && !is_blank(line.text)
}

/// Where the details of the error at line `j` start: at the next line that is not blank.
pub open spec fn details_start(lines: Seq<JestLineModel>, j: int) -> int {
    next_where(lines, not_blank(), j + 1)
}

/// Where the details of the error at line `j` end.
pub open spec fn details_end(lines: Seq<JestLineModel>, j: int) -> int {
    next_where(lines, ends_details(), details_start(lines, j))
}

/// The message in the lines from `from` up to `to`: the first that is not a stack frame.
pub open spec fn message_in(lines: Seq<JestLineModel>, from: int, to: int) -> Seq<char> {
    let k = next_where(lines.take(to), is_message(), from);
    if k < to {
        trimmed(lines[k].text)
    } else {
        seq![]
    }
}

/// The stack frames in the lines from `from` up to `to`.
pub open spec fn frames_in(lines: Seq<JestLineModel>, from: int, to: int) -> Seq<Seq<char>>
    decreases to - from,
{
    if to <= from {
        seq![]
    } else if lines[to - 1].is_frame {
        frames_in(lines, from, to - 1).push(trimmed(lines[to - 1].text))
    } else {
        frames_in(lines, from, to - 1)
    }
}

/// The line number that a line gives: that of a stack frame.
pub open spec fn frame_number(line: JestLineModel) -> Option<u32> {
    if line.is_frame {
        match line.number {
            Some(digits) => parsed_u32(digits),
            None => None,
        }
    } else {
        None
    }
}

/// The line number that the lines from `from` up to `to` give: the first one counts.
pub open spec fn first_number(lines: Seq<JestLineModel>, from: int, to: int) -> Option<u32>
    decreases to - from,
{
    if to <= from {
        None
    } else {
        match first_number(lines, from, to - 1) {
            Some(number) => Some(number),
            None => frame_number(lines[to - 1]),
        }
    }
}

/// The kind and the message of an error: what stands before and behind the first colon. Without a
/// colon, the kind is the name of the test.
pub open spec fn kind_and_message(name: Seq<char>, message: Seq<char>) -> (Seq<char>, Seq<char>) {
    match cut(message, ":"@) {
        Some((kind, rest)) => (trimmed(kind), trimmed(rest)),
        None => (name, message),
    }
}

/// The name of a test, with the browser that ran it.
pub open spec fn name_in_browser(name: Seq<char>, browser: Option<Seq<char>>) -> Seq<char> {
    match browser {
        Some(browser) => name + " ["@ + browser + "]"@,
        None => name,
    }
}

/// The error that line `j` names in the report on a failed file.
pub open spec fn error_at(
    lines: Seq<JestLineModel>,
    j: int,
    failure: JestFailureModel,
    job_name: Seq<char>,
    log_filename: Seq<char>,
) -> TestErrorModel {
    let name = trimmed(lines[j].error->0);
    let start = details_start(lines, j);
    let end = details_end(lines, j);
    let (error_type, message) = kind_and_message(name, message_in(lines, start, end));
    TestErrorModel {
        framework: "jest"@,
        test_file: failure.test_file,
        test_name: name_in_browser(name, failure.browser),
        error_type,
        message,
        line: first_number(lines, start, end),
        occurrences: sole_occurrence(
            job_name,
            log_filename,
            traceback_of(frames_in(lines, start, end)),
        ),
    }
}

/// The error that stands for a failed file whose report names none.
pub open spec fn suite_error(
    failure: JestFailureModel,
    job_name: Seq<char>,
    log_filename: Seq<char>,
) -> TestErrorModel {
    TestErrorModel {
        framework: "jest"@,
        test_file: failure.test_file,
        test_name: name_in_browser("(suite)"@, failure.browser),
        error_type: "SuiteFailed"@,
        message: seq![],
        line: None,
        occurrences: sole_occurrence(job_name, log_filename, None),
    }
}

// ---------------------------------------------------------------------------
// The report on one file
// ---------------------------------------------------------------------------

/// Whether line `j` names an error that only reports console output.
pub open spec fn is_console(lines: Seq<JestLineModel>, j: int) -> bool {
    trimmed(lines[j].error->0) == "Console"@
}

/// Where reading goes on behind line `j` of the report on a file: behind the details of an error,
/// else at the next line.
pub open spec fn next_line(lines: Seq<JestLineModel>, j: int) -> int {
    if lines[j].error is Some && !is_console(lines, j) {
        details_end(lines, j)
    } else {
        j + 1
    }
}

/// Where the report on a file ends, read from line `j`.
pub open spec fn file_end(lines: Seq<JestLineModel>, j: int) -> int
    decreases lines.len() - j,
{
    if j < 0 || j >= lines.len() || ends_file()(lines[j]) {
        j
    } else {
        proof {
            lemma_details(lines, j);
        }
        file_end(lines, next_line(lines, j))
    }
}

/// Whether the report on a file, read from line `j`, names any error.
pub open spec fn names_error(lines: Seq<JestLineModel>, j: int) -> bool
    decreases lines.len() - j,
{
    if j < 0 || j >= lines.len() || ends_file()(lines[j]) {
        false
    } else {
        proof {
            lemma_details(lines, j);
        }
        lines[j].error is Some || names_error(lines, next_line(lines, j))
    }
}

/// The errors that the report on a file, read from line `j`, names. Console output is none.
pub open spec fn file_errors(
    lines: Seq<JestLineModel>,
    j: int,
    failure: JestFailureModel,
    job_name: Seq<char>,
    log_filename: Seq<char>,
) -> Seq<TestErrorModel>
    decreases lines.len() - j,
{
    if j < 0 || j >= lines.len() || ends_file()(lines[j]) {
        seq![]
    } else {
        proof {
            lemma_details(lines, j);
        }
        let rest = file_errors(lines, next_line(lines, j), failure, job_name, log_filename);
        if lines[j].error is Some && !is_console(lines, j) {
            seq![error_at(lines, j, failure, job_name, log_filename)] + rest
        } else {
            rest
        }
    }
}

/// The errors of the failed file whose header stands at line `i`.
pub open spec fn errors_of_file(
    lines: Seq<JestLineModel>,
    i: int,
    job_name: Seq<char>,
    log_filename: Seq<char>,
) -> Seq<TestErrorModel> {
    let failure = lines[i].failure->0;
    if names_error(lines, i + 1) {
        file_errors(lines, i + 1, failure, job_name, log_filename)
    } else {
        seq![suite_error(failure, job_name, log_filename)]
    }
}

/// The errors in the lines from `i` on.
pub open spec fn errors_from(
    lines: Seq<JestLineModel>,
    i: int,
    job_name: Seq<char>,
    log_filename: Seq<char>,
) -> Seq<TestErrorModel>
    decreases lines.len() - i,
{
    if i < 0 || i >= lines.len() {
        seq![]
    } else if lines[i].failure is None {
        errors_from(lines, i + 1, job_name, log_filename)
    } else {
        proof {
            lemma_file_end(lines, i + 1);
        }
        errors_of_file(lines, i, job_name, log_filename) + errors_from(
            lines,
            file_end(lines, i + 1),
            job_name,
            log_filename,
        )
    }
}

/// The details of an error lie behind the line that names it.
pub proof fn lemma_details(lines: Seq<JestLineModel>, j: int)
    requires
        0 <= j < lines.len(),
    ensures
        j < details_start(lines, j) <= details_end(lines, j) <= lines.len(),
        j < next_line(lines, j) <= lines.len(),
{
    lemma_next_where(lines, not_blank(), j + 1);
    lemma_next_where(lines, ends_details(), details_start(lines, j));
}

/// The report on a file does not end before where its reading starts.
pub proof fn lemma_file_end(lines: Seq<JestLineModel>, j: int)
    requires
        0 <= j <= lines.len(),
    ensures
        j <= file_end(lines, j) <= lines.len(),
    decreases lines.len() - j,
{
    if j < lines.len() && !ends_file()(lines[j]) {
        lemma_details(lines, j);
        lemma_file_end(lines, next_line(lines, j));
    }
}

fn in_browser(name: &str, browser: &Option<String>) -> (result: String)
    ensures
        result@ == name_in_browser(name@, browser.deep_view()),
{
    let mut result = name.to_owned();
    match browser {
        Some(browser) => {
            result.append(" [");
            result.append(browser.as_str());
            result.append("]");
        },
        None => {},
    }
    result
}

/// Reads the error that line `j` names, and where its details end.
fn error_of(
    lines: &Vec<JestLine>,
    j: usize,
    name: &str,
    failure: &JestFailure,
    job_name: &str,
    log_filename: &str,
) -> (result: (TestError, usize))
    requires
        j < lines@.len(),
        lines.deep_view()[j as int].error is Some,
        name@ == trimmed(lines.deep_view()[j as int].error->0),
    ensures
        result.0.deep_view() == error_at(
            lines.deep_view(),
            j as int,
            failure.deep_view(),
            job_name@,
            log_filename@,
        ),
        result.1 == details_end(lines.deep_view(), j as int),
{
    let ghost all = lines.deep_view();
    let length: usize = lines.len();
    let mut k: usize = j + 1;
    while k < length && trim(lines[k].text.as_str()).is_empty()
        invariant
            j + 1 <= k <= length == lines@.len(),
            all == lines.deep_view(),
            forall|m: int| j + 1 <= m < k ==> !not_blank()(#[trigger] all[m]),
        decreases lines@.len() - k,
    {
        assert(all[k as int] == lines@[k as int].deep_view());
        k += 1;
    }
    let ghost start = k as int;
    proof {
        if k < lines@.len() {
            assert(all[k as int] == lines@[k as int].deep_view());
            assert(not_blank()(all[k as int]));
        }
        lemma_next_where_is(all, not_blank(), j + 1, k as int);
    }
    let mut message = String::new();
    let mut frames: Vec<String> = Vec::new();
    let mut line: Option<u32> = None;
    assert(frames.deep_view() =~= seq![]);
    assert(message_in(all, start, start) =~= seq![]);
    while k < lines.len()
        invariant
            0 <= start <= k <= lines@.len(),
            all == lines.deep_view(),
            message@ == message_in(all, start, k as int),
            frames.deep_view() == frames_in(all, start, k as int),
            line == first_number(all, start, k as int),
            forall|m: int| start <= m < k ==> !ends_details()(#[trigger] all[m]),
        ensures
            start <= k <= lines@.len(),
            k < lines@.len() ==> ends_details()(all[k as int]),
            message@ == message_in(all, start, k as int),
            frames.deep_view() == frames_in(all, start, k as int),
            line == first_number(all, start, k as int),
            forall|m: int| start <= m < k ==> !ends_details()(#[trigger] all[m]),
        decreases lines@.len() - k,
    {
        let next = &lines[k];
        assert(all[k as int] == next.deep_view());
        let inner = trim(next.text.as_str());
        if next.error.is_some() || next.failure.is_some() || starts_with(next.text.as_str(), "PASS ")
            || starts_with(inner, "Test Suites:") {
            assert(ends_details()(all[k as int]));
            break;
        }
        assert(!ends_details()(all[k as int]));
        proof {
            lemma_message_step(all, start, k as int);
        }
        if next.is_frame {
            let ghost before = frames.deep_view();
            let frame = inner.to_owned();
            frames.push(frame);
            assert(frames.deep_view() =~= before.push(frame@));
            if line.is_none() {
                match &next.number {
                    Some(digits) => {
                        line = parse_u32(digits.as_str());
                    },
                    None => {},
                }
            }
        } else if message.as_str().is_empty() && !inner.is_empty() {
            message = inner.to_owned();
        }
        k += 1;
    }
    proof {
        lemma_next_where_is(all, ends_details(), start, k as int);
    }
    let (error_type, final_message) = match split_once(message.as_str(), ":") {
        Some((kind, rest)) => (trim(kind).to_owned(), trim(rest).to_owned()),
        None => (name.to_owned(), message.clone()),
    };
    let error = TestError {
        framework: "jest".to_owned(),
        test_file: failure.test_file.clone(),
        test_name: in_browser(name, &failure.browser),
        error_type,
        message: final_message,
        line,
        occurrences: occurrence(job_name, log_filename, traceback_text(&frames)),
    };
    (error, k)
}

/// One more line adds a message only if there was none.
proof fn lemma_message_step(lines: Seq<JestLineModel>, from: int, k: int)
    requires
        0 <= from <= k < lines.len(),
    ensures
        message_in(lines, from, k + 1) == if message_in(lines, from, k).len() == 0 && is_message()(
            lines[k],
        ) {
            trimmed(lines[k].text)
        } else {
            message_in(lines, from, k)
        },
{
    let shorter = lines.take(k);
    let longer = lines.take(k + 1);
    lemma_next_where(shorter, is_message(), from);
    lemma_next_where(longer, is_message(), from);
    let p = next_where(shorter, is_message(), from);
    if p < k {
        assert(shorter[p] == longer[p]);
        assert forall|m: int| from <= m < p implies !is_message()(#[trigger] longer[m]) by {
            assert(shorter[m] == longer[m]);
        }
        lemma_next_where_is(longer, is_message(), from, p);
        assert(is_message()(shorter[p]));
    } else {
        assert forall|m: int| from <= m < k implies !is_message()(#[trigger] longer[m]) by {
            assert(shorter[m] == longer[m]);
        }
        if is_message()(longer[k]) {
            lemma_next_where_is(longer, is_message(), from, k);
        } else {
            lemma_next_where_is(longer, is_message(), from, k + 1);
        }
    }
}

/// Reads the errors of the failed file whose header stands at line `i`, and where the report on it
/// ends.
fn errors_in_file(
    lines: &Vec<JestLine>,
    i: usize,
    failure: &JestFailure,
    job_name: &str,
    log_filename: &str,
) -> (result: (Vec<TestError>, usize))
    requires
        i < lines@.len(),
        lines.deep_view()[i as int].failure == Some(failure.deep_view()),
    ensures
        result.0.deep_view() == errors_of_file(
            lines.deep_view(),
            i as int,
            job_name@,
            log_filename@,
        ),
        result.1 == file_end(lines.deep_view(), i + 1),
        i < result.1 <= lines@.len(),
{
    let ghost all = lines.deep_view();
    let ghost header = failure.deep_view();
    let length: usize = lines.len();
    let mut errors: Vec<TestError> = Vec::new();
    let mut found: bool = false;
    let mut j: usize = i + 1;
    assert(errors.deep_view() =~= seq![]);
    assert(file_errors(all, j as int, header, job_name@, log_filename@) =~= errors.deep_view()
        + file_errors(all, j as int, header, job_name@, log_filename@));
    while j < length
        invariant
            i + 1 <= j <= length == lines@.len(),
            all == lines.deep_view(),
            header == failure.deep_view(),
            file_end(all, j as int) == file_end(all, i + 1),
            names_error(all, i + 1) == (found || names_error(all, j as int)),
            file_errors(all, i + 1, header, job_name@, log_filename@) == errors.deep_view()
                + file_errors(all, j as int, header, job_name@, log_filename@),
        ensures
            i + 1 <= j <= length,
            j < length ==> ends_file()(all[j as int]),
            file_end(all, j as int) == file_end(all, i + 1),
            names_error(all, i + 1) == (found || names_error(all, j as int)),
            file_errors(all, i + 1, header, job_name@, log_filename@) == errors.deep_view()
                + file_errors(all, j as int, header, job_name@, log_filename@),
        decreases length - j,
    {
        let line = &lines[j];
        assert(all[j as int] == line.deep_view());
        if line.failure.is_some() || starts_with(line.text.as_str(), "PASS ") || starts_with(
            line.text.as_str(),
            "Test Suites:",
        ) {
            assert(ends_file()(all[j as int]));
            break;
        }
        assert(!ends_file()(all[j as int]));
        proof {
            lemma_details(all, j as int);
        }
        match &line.error {
            Some(raw_name) => {
                found = true;
                let name = trim(raw_name.as_str());
                if same(name, "Console") {
                    j += 1;
                } else {
                    let ghost before = errors.deep_view();
                    let ghost here = j as int;
                    let (error, end) = error_of(lines, j, name, failure, job_name, log_filename);
                    errors.push(error);
                    j = end;
                    assert(errors.deep_view() =~= before.push(error.deep_view()));
                    assert(errors.deep_view() + file_errors(
                        all,
                        j as int,
                        header,
                        job_name@,
                        log_filename@,
                    ) =~= before + file_errors(all, here, header, job_name@, log_filename@));
                }
            },
            None => {
                j += 1;
            },
        }
    }
    assert(file_errors(all, j as int, header, job_name@, log_filename@) =~= seq![]);
    assert(errors.deep_view() + seq![] =~= errors.deep_view());
    if !found {
        let error = TestError {
            framework: "jest".to_owned(),
            test_file: failure.test_file.clone(),
            test_name: in_browser("(suite)", &failure.browser),
            error_type: "SuiteFailed".to_owned(),
            message: String::new(),
            line: None,
            occurrences: occurrence(job_name, log_filename, None),
        };
        let mut suite: Vec<TestError> = Vec::new();
        suite.push(error);
        assert(suite.deep_view() =~= seq![error.deep_view()]);
        return (suite, j);
    }
    (errors, j)
}

/// Reads the errors in lines that the patterns were matched against.
pub fn errors_of_lines(lines: &Vec<JestLine>, job_name: &str, log_filename: &str) -> (errors: Vec<
    TestError,
>)
    ensures
        errors.deep_view() == errors_from(lines.deep_view(), 0, job_name@, log_filename@),
{
    let ghost all = lines.deep_view();
    let mut errors: Vec<TestError> = Vec::new();
    let mut i: usize = 0;
    assert(errors.deep_view() =~= seq![]);
    assert(errors_from(all, 0, job_name@, log_filename@) =~= errors.deep_view() + errors_from(
        all,
        0,
        job_name@,
        log_filename@,
    ));
    while i < lines.len()
        invariant
            i <= lines@.len(),
            all == lines.deep_view(),
            errors_from(all, 0, job_name@, log_filename@) == errors.deep_view() + errors_from(
                all,
                i as int,
                job_name@,
                log_filename@,
            ),
        decreases lines@.len() - i,
    {
        assert(all[i as int] == lines@[i as int].deep_view());
        match &lines[i].failure {
            Some(failure) => {
                let ghost before = errors.deep_view();
                let ghost here = i as int;
                let (mut more, end) = errors_in_file(lines, i, failure, job_name, log_filename);
                let ghost added = more.deep_view();
                errors.append(&mut more);
                i = end;
                assert(errors.deep_view() =~= before + added);
                assert(errors.deep_view() + errors_from(all, i as int, job_name@, log_filename@)
                    =~= before + errors_from(all, here, job_name@, log_filename@));
            },
            None => {
                i += 1;
            },
        }
    }
    assert(errors.deep_view() + seq![] =~= errors.deep_view());
    errors
}

// ---------------------------------------------------------------------------
// A whole log
// ---------------------------------------------------------------------------

/// The failed file that a match is the header of: the first group is the browser, if there is one,
/// and the second is the file.
pub open spec fn failure_of(found: Option<Seq<Option<Seq<char>>>>) -> Option<JestFailureModel> {
    match found {
        Some(groups) => match group_of(groups, 2) {
            Some(test_file) => Some(
                JestFailureModel { browser: group_of(groups, 1), test_file },
            ),
            None => None,
        },
        None => None,
    }
}

/// The failed file that a line is the header of.
pub open spec fn failure_in(text: Seq<char>) -> Option<JestFailureModel> {
    failure_of(jest_header_groups(text))
}

/// What the patterns find in a line of a log without colours.
pub open spec fn line_of(raw: Seq<char>) -> JestLineModel {
    let text = without_timestamp(raw);
    let is_frame = is_frame_text(text);
    JestLineModel {
        text,
        failure: failure_in(text),
        error: first_of(jest_error_groups(text)),
        is_frame,
        number: if is_frame {
            first_of(jest_line_groups(trimmed(text)))
        } else {
            None
        },
    }
}

/// The lines of a log with what the patterns find in them.
pub open spec fn log_lines(content: Seq<char>) -> Seq<JestLineModel> {
    let texts = lines_of(without_ansi(content));
    Seq::new(texts.len(), |i: int| line_of(texts[i]))
}

/// Reads the failed file from the groups of a match of its header.
pub fn read_failure(found: &Option<Vec<Option<String>>>) -> (failure: Option<JestFailure>)
    ensures
        failure.deep_view() == failure_of(found.deep_view()),
{
    match found {
        Some(groups) => match group(groups, 2) {
            Some(test_file) => Some(JestFailure { browser: group(groups, 1), test_file }),
            None => None,
        },
        None => None,
    }
}

fn match_lines(content: &str) -> (result: Vec<JestLine>)
    ensures
        result.deep_view() == log_lines(content@),
{
    let time_re = compile(TIMESTAMP_RE);
    let fail_re = compile(JEST_FAIL_RE);
    let error_re = compile(JEST_ERROR_RE);
    let frame_re = compile(JEST_AT_RE);
    let number_re = compile(JEST_LINE_RE);
    let clean = strip_ansi(content);
    let texts = lines(clean.as_str());
    let mut result: Vec<JestLine> = Vec::new();
    let mut i: usize = 0;
    assert(result.deep_view() =~= log_lines(content@).take(0));
    while i < texts.len()
        invariant
            i <= texts@.len(),
            texts.deep_view() == lines_of(without_ansi(content@)),
            source_of(time_re) == TIMESTAMP_RE@,
            source_of(fail_re) == JEST_FAIL_RE@,
            source_of(error_re) == JEST_ERROR_RE@,
            source_of(frame_re) == JEST_AT_RE@,
            source_of(number_re) == JEST_LINE_RE@,
            result.deep_view() == log_lines(content@).take(i as int),
        decreases texts@.len() - i,
    {
        let raw = texts[i].as_str();
        assert(raw@ == texts.deep_view()[i as int]);
        let text = strip_time(&time_re, raw);
        let is_frame = is_match(&frame_re, text);
        let number = if is_frame {
            take_first(&captures(&number_re, trim(text)))
        } else {
            None
        };
        let line = JestLine {
            text: text.to_owned(),
            failure: read_failure(&captures(&fail_re, text)),
            error: take_first(&captures(&error_re, text)),
            is_frame,
            number,
        };
        assert(line.deep_view() == line_of(raw@));
        let ghost before = result.deep_view();
        result.push(line);
        i += 1;
        assert(result.deep_view() =~= before.push(line.deep_view()));
        assert(result.deep_view() =~= log_lines(content@).take(i as int));
    }
    assert(log_lines(content@).take(i as int) =~= log_lines(content@));
    result
}

/// The reader of the output of Jest.
pub struct JestParser;

impl TestErrorParser for JestParser {
    open spec fn name(&self) -> Seq<char> {
        "jest"@
    }

    open spec fn errors_in(
        &self,
        content: Seq<char>,
        job_name: Seq<char>,
        log_filename: Seq<char>,
    ) -> Seq<TestErrorModel> {
        errors_from(log_lines(content), 0, job_name, log_filename)
    }

    fn framework(&self) -> (name: &'static str) {
        "jest"
    }

    fn parse(&self, content: &str, job_name: &str, log_filename: &str) -> (errors: Vec<TestError>) {
        let lines = match_lines(content);
        errors_of_lines(&lines, job_name, log_filename)
    }
}

} // verus!
