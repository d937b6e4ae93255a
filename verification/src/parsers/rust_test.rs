//! Errors in the output of Rust's test harness.
use super::{
    occurrence, sole_occurrence, strip_ansi, strip_time, traceback_of, traceback_text, without_ansi,
    without_timestamp, TestErrorParser,
};
use crate::matching::{captures, compile, first_of, group, group_of, is_match, source_of, take_first};
use crate::models::{TestError, TestErrorModel};
use crate::number::{parse_u32, parsed_u32};
use crate::patterns::{
    header_name, panic_groups, running_groups, RUST_FAILURE_HEADER_RE, RUST_PANIC_RE, RUST_RUNNING_RE,
    TIMESTAMP_RE,
};
use crate::seqs::{lemma_next_where, lemma_next_where_is, next_where};
use crate::text::{
    contains, cut, is_blank, lines, lines_of, mentions, same, split_once, starts_with, trim,
    trim_start, trimmed, trimmed_start,
};
use vstd::prelude::*;
use vstd::utf8::encode_utf8;

verus! {

/// Where a thread panicked.
pub struct RustPanic {
    pub file: String,
    pub number: String,
}

/// The value of a [`RustPanic`].
#[verifier::ext_equal]
pub struct RustPanicModel {
    pub file: Seq<char>,
    pub number: Seq<char>,
}

impl DeepView for RustPanic {
    type V = RustPanicModel;

    open spec fn deep_view(&self) -> RustPanicModel {
        RustPanicModel { file: self.file@, number: self.number@ }
    }
}

/// A log line without its time, with what the patterns find in it: the test binary that it
/// announces, the failed test whose output it opens, whether it opens such output once trimmed, and
/// the panic that it reports.
pub struct RustLine {
    pub text: String,
    pub running: Option<String>,
    pub failure: Option<String>,
    pub opens_failure: bool,
    pub panicked: Option<RustPanic>,
}

/// The value of a [`RustLine`].
#[verifier::ext_equal]
pub struct RustLineModel {
    pub text: Seq<char>,
    pub running: Option<Seq<char>>,
    pub failure: Option<Seq<char>>,
    pub opens_failure: bool,
    pub panicked: Option<RustPanicModel>,
}

impl DeepView for RustLine {
    type V = RustLineModel;

    open spec fn deep_view(&self) -> RustLineModel {
        RustLineModel {
            text: self.text@,
            running: self.running.deep_view(),
            failure: self.failure.deep_view(),
            opens_failure: self.opens_failure,
            panicked: self.panicked.deep_view(),
        }
    }
}

// ---------------------------------------------------------------------------
// The kind of an error
// ---------------------------------------------------------------------------

/// The kind of error that a panic message tells of.
pub open spec fn error_kind(message: Seq<char>) -> Seq<char> {
    if "called `Result::unwrap()`"@.is_prefix_of(message)
        || "called `Option::unwrap()`"@.is_prefix_of(message) {
        "unwrap"@
    } else if "assertion"@.is_prefix_of(message) {
        "assertion"@
    } else if "index out of bounds"@.is_prefix_of(message) {
        "index_out_of_bounds"@
    } else {
        match cut(message, ":"@) {
            Some((before, _)) => {
                let prefix = trimmed(before);
                if encode_utf8(prefix).len() < 40 && !mentions(prefix, " "@) {
                    prefix
                } else {
                    "panic"@
                }
            },
            None => "panic"@,
        }
    }
}

/// Tells the kind of error from a panic message. A short prefix before the first colon, without a
/// space in it, is taken for the kind if no known message fits.
pub fn extract_error_type(message: &str) -> (kind: String)
    ensures
        kind@ == error_kind(message@),
{
    if starts_with(message, "called `Result::unwrap()`") {
        return "unwrap".to_owned();
    }
    if starts_with(message, "called `Option::unwrap()`") {
        return "unwrap".to_owned();
    }
    if starts_with(message, "assertion") {
        return "assertion".to_owned();
    }
    if starts_with(message, "index out of bounds") {
        return "index_out_of_bounds".to_owned();
    }
    match split_once(message, ":") {
        Some((before, _)) => {
            let prefix = trim(before);
            if prefix.as_bytes().len() < 40 && !contains(prefix, " ") {
                return prefix.to_owned();
            }
        },
        None => {},
    }
    "panic".to_owned()
}

// ---------------------------------------------------------------------------
// Stack traces
// ---------------------------------------------------------------------------

/// Whether a line of a stack trace gives the place of the function on the line before it.
pub open spec fn is_place(line: Seq<char>) -> bool {
    "at "@.is_prefix_of(trimmed_start(line))
}

/// The frames of a stack trace: each function in one line with its place.
pub open spec fn frames_of(stack: Seq<Seq<char>>) -> Seq<Seq<char>>
    decreases stack.len(),
{
    if stack.len() == 0 {
        seq![]
    } else if stack.len() > 1 && is_place(stack[1]) {
        seq![stack[0] + " "@ + trimmed(stack[1])] + frames_of(stack.skip(2))
    } else {
        seq![stack[0]] + frames_of(stack.skip(1))
    }
}

/// Holds of the frames that are not part of the toolchain or of a dependency.
pub open spec fn is_own_frame() -> spec_fn(Seq<char>) -> bool {
    |frame: Seq<char>|
        !mentions(frame, "/rustc/"@) && !mentions(frame, "/.cargo/registry/"@) && !mentions(
            frame,
            "core::ops::function"@,
        )
}

/// The frames of the program's own code; all frames if there is none of these.
pub open spec fn shown_frames(stack: Seq<Seq<char>>) -> Seq<Seq<char>> {
    let frames = frames_of(stack);
    let own = frames.filter(is_own_frame());
    if own.len() == 0 {
        frames
    } else {
        own
    }
}

fn merge_frames(stack: &Vec<String>) -> (frames: Vec<String>)
    ensures
        frames.deep_view() == frames_of(stack.deep_view()),
{
    let ghost all = stack.deep_view();
    let length: usize = stack.len();
    let mut frames: Vec<String> = Vec::new();
    let mut k: usize = 0;
    assert(all.skip(0) =~= all);
    assert(frames.deep_view() + frames_of(all) =~= frames_of(all));
    while k < length
        invariant
            k <= length == stack@.len(),
            all == stack.deep_view(),
            frames.deep_view() + frames_of(all.skip(k as int)) == frames_of(all),
        decreases length - k,
    {
        let ghost before = frames.deep_view();
        let ghost rest = all.skip(k as int);
        let mut full = stack[k].clone();
        assert(rest[0] == full@);
        if length - k > 1 && starts_with(trim_start(stack[k + 1].as_str()), "at ") {
            assert(rest[1] == stack@[k + 1]@);
            full.append(" ");
            full.append(trim(stack[k + 1].as_str()));
            assert(rest.skip(2) =~= all.skip(k + 2));
            k += 2;
        } else {
            assert(length - k > 1 ==> rest[1] == stack@[k + 1]@);
            assert(rest.skip(1) =~= all.skip(k + 1));
            k += 1;
        }
        frames.push(full);
        assert(frames.deep_view() =~= before.push(full@));
        assert(frames.deep_view() + frames_of(all.skip(k as int)) =~= before + frames_of(rest));
    }
    assert(frames.deep_view() + seq![] =~= frames.deep_view());
    frames
}

fn select_frames(stack: &Vec<String>) -> (shown: Vec<String>)
    ensures
        shown.deep_view() == shown_frames(stack.deep_view()),
{
    let frames = merge_frames(stack);
    let ghost all = frames.deep_view();
    let mut own: Vec<String> = Vec::new();
    let mut k: usize = 0;
    assert(all.take(0).filter(is_own_frame()) =~= seq![]) by {
        reveal(Seq::filter);
    }
    while k < frames.len()
        invariant
            k <= frames@.len(),
            all == frames.deep_view(),
            own.deep_view() == all.take(k as int).filter(is_own_frame()),
        decreases frames@.len() - k,
    {
        let frame = frames[k].as_str();
        assert(all[k as int] == frame@);
        assert(all.take(k + 1) =~= all.take(k as int).push(frame@));
        proof {
            all.take(k as int).lemma_filter_push(frame@, is_own_frame());
        }
        if !contains(frame, "/rustc/") && !contains(frame, "/.cargo/registry/") && !contains(
            frame,
            "core::ops::function",
        ) {
            let ghost before = own.deep_view();
            let copy = frame.to_owned();
            own.push(copy);
            assert(own.deep_view() =~= before.push(copy@));
        }
        k += 1;
    }
    assert(all.take(k as int) =~= all);
    if own.len() == 0 {
        frames
    } else {
        own
    }
}

// ---------------------------------------------------------------------------
// The output of one test
// ---------------------------------------------------------------------------

/// What the output of a failed test tells so far.
struct RustReport {
    test_file: String,
    error_type: String,
    message: String,
    line: Option<u32>,
    stack: Vec<String>,
    in_backtrace: bool,
}

/// What the output of a failed test tells so far: the file, the kind of error, the message and the
/// line of the last panic, and the stack traces.
#[verifier::ext_equal]
pub struct RustReportModel {
    pub test_file: Seq<char>,
    pub error_type: Seq<char>,
    pub message: Seq<char>,
    pub line: Option<u32>,
    pub stack: Seq<Seq<char>>,
    pub in_backtrace: bool,
}

impl DeepView for RustReport {
    type V = RustReportModel;

    closed spec fn deep_view(&self) -> RustReportModel {
        RustReportModel {
            test_file: self.test_file@,
            error_type: self.error_type@,
            message: self.message@,
            line: self.line,
            stack: self.stack.deep_view(),
            in_backtrace: self.in_backtrace,
        }
    }
}

/// Holds of the lines that are not blank.
pub open spec fn not_blank() -> spec_fn(RustLineModel) -> bool {
    |line: RustLineModel| !is_blank(line.text)
}

/// Holds of the lines that end the output of a failed test.
pub open spec fn ends_output() -> spec_fn(RustLineModel) -> bool {
    |line: RustLineModel|
        {
            let inner = trimmed(line.text);
            ||| line.opens_failure
            ||| inner == "failures:"@
            ||| "test result:"@.is_prefix_of(inner)
        }
}

/// Where the output of the failed test that opens at line `i` ends.
pub open spec fn output_end(lines: Seq<RustLineModel>, i: int) -> int {
    next_where(lines, ends_output(), i + 1)
}

/// The message of a panic reported at line `j`: the next line that is not blank. Without one, the
/// message stays as it was.
pub open spec fn panic_message(
    lines: Seq<RustLineModel>,
    j: int,
    message: Seq<char>,
) -> Seq<char> {
    let k = next_where(lines, not_blank(), j + 1);
    if k < lines.len() {
        trimmed(lines[k].text)
    } else {
        message
    }
}

/// What is told once line `j` is read too.
pub open spec fn told_with(
    lines: Seq<RustLineModel>,
    j: int,
    report: RustReportModel,
) -> RustReportModel {
    let inner = trimmed(lines[j].text);
    match lines[j].panicked {
        Some(panic) => {
            let message = panic_message(lines, j, report.message);
            RustReportModel {
                test_file: if mentions(panic.file, "/"@) {
                    panic.file
                } else {
                    report.test_file
                },
                error_type: error_kind(message),
                message,
                line: parsed_u32(panic.number),
                ..report
            }
        },
        None => if inner == "stack backtrace:"@ {
            RustReportModel { in_backtrace: true, ..report }
        } else if !report.in_backtrace {
            report
        } else if inner.len() == 0 || "note:"@.is_prefix_of(inner) {
            RustReportModel { in_backtrace: false, ..report }
        } else {
            RustReportModel { stack: report.stack.push(inner), ..report }
        },
    }
}

/// What the lines behind line `i`, up to `j`, tell of a test of the file `test_file`.
pub open spec fn told_by(
    lines: Seq<RustLineModel>,
    i: int,
    j: int,
    test_file: Seq<char>,
) -> RustReportModel
    decreases j - i,
{
    if j <= i + 1 {
        RustReportModel {
            test_file,
            error_type: seq![],
            message: seq![],
            line: None,
            stack: seq![],
            in_backtrace: false,
        }
    } else {
        told_with(lines, j - 1, told_by(lines, i, j - 1, test_file))
    }
}

/// The error of the failed test whose output opens at line `i`.
pub open spec fn error_at(
    lines: Seq<RustLineModel>,
    i: int,
    test_file: Seq<char>,
    job_name: Seq<char>,
    log_filename: Seq<char>,
) -> TestErrorModel {
    let report = told_by(lines, i, output_end(lines, i), test_file);
    TestErrorModel {
        framework: "rust"@,
        test_file: report.test_file,
        test_name: lines[i].failure->0,
        error_type: if report.error_type.len() == 0 {
            "panic"@
        } else {
            report.error_type
        },
        message: report.message,
        line: report.line,
        occurrences: sole_occurrence(
            job_name,
            log_filename,
            traceback_of(shown_frames(report.stack)),
        ),
    }
}

/// The errors in the lines from `i` on, when the test binary announced last is `test_file`.
pub open spec fn errors_from(
    lines: Seq<RustLineModel>,
    i: int,
    test_file: Seq<char>,
    job_name: Seq<char>,
    log_filename: Seq<char>,
) -> Seq<TestErrorModel>
    decreases lines.len() - i,
{
    if i < 0 || i >= lines.len() {
        seq![]
    } else if lines[i].running is Some {
        errors_from(lines, i + 1, lines[i].running->0, job_name, log_filename)
    } else if lines[i].failure is None {
        errors_from(lines, i + 1, test_file, job_name, log_filename)
    } else {
        proof {
            lemma_next_where(lines, ends_output(), i + 1);
        }
        seq![error_at(lines, i, test_file, job_name, log_filename)] + errors_from(
            lines,
            output_end(lines, i),
            test_file,
            job_name,
            log_filename,
        )
    }
}

/// A stack trace is empty exactly if it shows no frames.
pub proof fn lemma_frames_of_nothing(stack: Seq<Seq<char>>)
    ensures
        shown_frames(stack).len() == 0 <==> stack.len() == 0,
{
    if stack.len() == 0 {
        assert(frames_of(stack) =~= seq![]);
        assert(frames_of(stack).filter(is_own_frame()).len() == 0) by {
            reveal(Seq::filter);
        }
    }
}

/// Finds the message of a panic reported at line `j`.
fn find_message(lines: &Vec<RustLine>, j: usize, message: String) -> (result: String)
    requires
        j < lines@.len(),
    ensures
        result@ == panic_message(lines.deep_view(), j as int, message@),
{
    let ghost all = lines.deep_view();
    let length: usize = lines.len();
    let mut k: usize = j + 1;
    while k < length
        invariant
            j + 1 <= k <= length == lines@.len(),
            all == lines.deep_view(),
            forall|m: int| j + 1 <= m < k ==> !not_blank()(#[trigger] all[m]),
        decreases length - k,
    {
        let line = trim(lines[k].text.as_str());
        assert(all[k as int] == lines@[k as int].deep_view());
        if !line.is_empty() {
            assert(not_blank()(all[k as int]));
            proof {
                lemma_next_where_is(all, not_blank(), j + 1, k as int);
            }
            return line.to_owned();
        }
        k += 1;
    }
    proof {
        lemma_next_where_is(all, not_blank(), j + 1, k as int);
    }
    message
}

/// Reads one more line of the output of a failed test.
fn read_line(lines: &Vec<RustLine>, j: usize, report: RustReport) -> (result: RustReport)
    requires
        j < lines@.len(),
    ensures
        result.deep_view() == told_with(lines.deep_view(), j as int, report.deep_view()),
{
    let ghost start = report.deep_view();
    let line = &lines[j];
    assert(lines.deep_view()[j as int] == line.deep_view());
    let inner = trim(line.text.as_str());
    let mut report = report;
    match &line.panicked {
        Some(panic) => {
            if contains(panic.file.as_str(), "/") {
                report.test_file = panic.file.clone();
            }
            report.line = parse_u32(panic.number.as_str());
            report.message = find_message(lines, j, report.message);
            report.error_type = extract_error_type(report.message.as_str());
        },
        None => {
            if same(inner, "stack backtrace:") {
                report.in_backtrace = true;
            } else if report.in_backtrace {
                if inner.is_empty() || starts_with(inner, "note:") {
                    report.in_backtrace = false;
                } else {
                    let frame = inner.to_owned();
                    report.stack.push(frame);
                    assert(report.stack.deep_view() =~= start.stack.push(frame@));
                }
            }
        },
    }
    report
}

/// Reads the error of the failed test whose output opens at line `i`, and where the output ends.
fn error_of(
    lines: &Vec<RustLine>,
    i: usize,
    test_name: &String,
    test_file: &String,
    job_name: &str,
    log_filename: &str,
) -> (result: (TestError, usize))
    requires
        i < lines@.len(),
        lines.deep_view()[i as int].failure == Some(test_name@),
    ensures
        result.0.deep_view() == error_at(
            lines.deep_view(),
            i as int,
            test_file@,
            job_name@,
            log_filename@,
        ),
        result.1 == output_end(lines.deep_view(), i as int),
        i < result.1 <= lines@.len(),
{
    let ghost all = lines.deep_view();
    let length: usize = lines.len();
    let mut report = RustReport {
        test_file: test_file.clone(),
        error_type: String::new(),
        message: String::new(),
        line: None,
        stack: Vec::new(),
        in_backtrace: false,
    };
    assert(report.stack.deep_view() =~= seq![]);
    let mut j: usize = i + 1;
    while j < length
        invariant
            i + 1 <= j <= length == lines@.len(),
            all == lines.deep_view(),
            report.deep_view() == told_by(all, i as int, j as int, test_file@),
            forall|m: int| i + 1 <= m < j ==> !ends_output()(#[trigger] all[m]),
        ensures
            i + 1 <= j <= length,
            j < length ==> ends_output()(all[j as int]),
            report.deep_view() == told_by(all, i as int, j as int, test_file@),
            forall|m: int| i + 1 <= m < j ==> !ends_output()(#[trigger] all[m]),
        decreases length - j,
    {
        let line = &lines[j];
        assert(all[j as int] == line.deep_view());
        let inner = trim(line.text.as_str());
        if line.opens_failure || same(inner, "failures:") || starts_with(inner, "test result:") {
            assert(ends_output()(all[j as int]));
            break;
        }
        assert(!ends_output()(all[j as int]));
        report = read_line(lines, j, report);
        j += 1;
    }
    proof {
        lemma_next_where_is(all, ends_output(), i + 1, j as int);
        lemma_frames_of_nothing(report.stack.deep_view());
    }
    let error_type = if report.error_type.as_str().is_empty() {
        "panic".to_owned()
    } else {
        report.error_type
    };
    let traceback = if report.stack.len() == 0 {
        None
    } else {
        let shown = select_frames(&report.stack);
        traceback_text(&shown)
    };
    let error = TestError {
        framework: "rust".to_owned(),
        test_file: report.test_file,
        test_name: test_name.clone(),
        error_type,
        message: report.message,
        line: report.line,
        occurrences: occurrence(job_name, log_filename, traceback),
    };
    (error, j)
}

/// Reads the errors in lines that the patterns were matched against.
pub fn errors_of_lines(lines: &Vec<RustLine>, job_name: &str, log_filename: &str) -> (errors: Vec<
    TestError,
>)
    ensures
        errors.deep_view() == errors_from(lines.deep_view(), 0, seq![], job_name@, log_filename@),
{
    let ghost all = lines.deep_view();
    let mut errors: Vec<TestError> = Vec::new();
    let mut test_file = String::new();
    let mut i: usize = 0;
    assert(errors.deep_view() =~= seq![]);
    assert(errors_from(all, 0, seq![], job_name@, log_filename@) =~= errors.deep_view()
        + errors_from(all, 0, test_file@, job_name@, log_filename@));
    while i < lines.len()
        invariant
            i <= lines@.len(),
            all == lines.deep_view(),
            errors_from(all, 0, seq![], job_name@, log_filename@) == errors.deep_view()
                + errors_from(all, i as int, test_file@, job_name@, log_filename@),
        decreases lines@.len() - i,
    {
        let line = &lines[i];
        assert(all[i as int] == line.deep_view());
        match &line.running {
            Some(running) => {
                test_file = running.clone();
                i += 1;
            },
            None => match &line.failure {
                Some(test_name) => {
                    let ghost before = errors.deep_view();
                    let ghost here = i as int;
                    let (error, end) = error_of(
                        lines,
                        i,
                        test_name,
                        &test_file,
                        job_name,
                        log_filename,
                    );
                    errors.push(error);
                    i = end;
                    assert(errors.deep_view() =~= before.push(error.deep_view()));
                    assert(errors.deep_view() + errors_from(
                        all,
                        i as int,
                        test_file@,
                        job_name@,
                        log_filename@,
                    ) =~= before + errors_from(all, here, test_file@, job_name@, log_filename@));
                },
                None => {
                    i += 1;
                },
            },
        }
    }
    assert(errors.deep_view() + seq![] =~= errors.deep_view());
    errors
}

// ---------------------------------------------------------------------------
// A whole log
// ---------------------------------------------------------------------------

/// The panic that a match reports: the second group is the file, the third is the line.
pub open spec fn panic_of(found: Option<Seq<Option<Seq<char>>>>) -> Option<RustPanicModel> {
    match found {
        Some(groups) => match (group_of(groups, 2), group_of(groups, 3)) {
            (Some(file), Some(number)) => Some(RustPanicModel { file, number }),
            _ => None,
        },
        None => None,
    }
}

/// The panic that a trimmed line reports.
pub open spec fn panic_in(text: Seq<char>) -> Option<RustPanicModel> {
    panic_of(panic_groups(text))
}

/// What the patterns find in a line of a log without colours.
pub open spec fn line_of(raw: Seq<char>) -> RustLineModel {
    let text = without_timestamp(raw);
    RustLineModel {
        text,
        running: first_of(running_groups(text)),
        failure: header_name(text),
        opens_failure: header_name(trimmed(text)) is Some,
        panicked: panic_in(trimmed(text)),
    }
}

/// The lines of a log with what the patterns find in them.
pub open spec fn log_lines(content: Seq<char>) -> Seq<RustLineModel> {
    let texts = lines_of(without_ansi(content));
    Seq::new(texts.len(), |i: int| line_of(texts[i]))
}

/// Reads the panic from the groups of a match.
pub fn read_panic(found: &Option<Vec<Option<String>>>) -> (panic: Option<RustPanic>)
    ensures
        panic.deep_view() == panic_of(found.deep_view()),
{
    match found {
        Some(groups) => match (group(groups, 2), group(groups, 3)) {
            (Some(file), Some(number)) => Some(RustPanic { file, number }),
            _ => None,
        },
        None => None,
    }
}

fn match_lines(content: &str) -> (result: Vec<RustLine>)
    ensures
        result.deep_view() == log_lines(content@),
{
    let time_re = compile(TIMESTAMP_RE);
    let running_re = compile(RUST_RUNNING_RE);
    let header_re = compile(RUST_FAILURE_HEADER_RE);
    let panic_re = compile(RUST_PANIC_RE);
    let clean = strip_ansi(content);
    let texts = lines(clean.as_str());
    let mut result: Vec<RustLine> = Vec::new();
    let mut i: usize = 0;
    assert(result.deep_view() =~= log_lines(content@).take(0));
    while i < texts.len()
        invariant
            i <= texts@.len(),
            texts.deep_view() == lines_of(without_ansi(content@)),
            source_of(time_re) == TIMESTAMP_RE@,
            source_of(running_re) == RUST_RUNNING_RE@,
            source_of(header_re) == RUST_FAILURE_HEADER_RE@,
            source_of(panic_re) == RUST_PANIC_RE@,
            result.deep_view() == log_lines(content@).take(i as int),
        decreases texts@.len() - i,
    {
        let raw = texts[i].as_str();
        assert(raw@ == texts.deep_view()[i as int]);
        let text = strip_time(&time_re, raw);
        let inner = trim(text);
        let line = RustLine {
            text: text.to_owned(),
            running: take_first(&captures(&running_re, text)),
            failure: take_first(&captures(&header_re, text)),
            opens_failure: is_match(&header_re, inner),
            panicked: read_panic(&captures(&panic_re, inner)),
        };
        assert(line.deep_view() == line_of(raw@));
        let ghost before = result.deep_view();
        result.push(line);
        i += 1;
        assert(result.deep_view() =~= before.push(line.deep_view()));
        assert(result.deep_view() =~= log_lines(content@).take(i as int));
    }
    assert(log_lines(content@).take(i as int) =~= log_lines(content@));
    result
}

/// The reader of the output of Rust's test harness.
pub struct RustTestParser;

impl TestErrorParser for RustTestParser {
    open spec fn name(&self) -> Seq<char> {
        "rust"@
    }

    open spec fn errors_in(
        &self,
        content: Seq<char>,
        job_name: Seq<char>,
        log_filename: Seq<char>,
    ) -> Seq<TestErrorModel> {
        errors_from(log_lines(content), 0, seq![], job_name, log_filename)
    }

    fn framework(&self) -> (name: &'static str) {
        "rust"
    }

    fn parse(&self, content: &str, job_name: &str, log_filename: &str) -> (errors: Vec<TestError>) {
        let lines = match_lines(content);
        errors_of_lines(&lines, job_name, log_filename)
    }
}

} // verus!
