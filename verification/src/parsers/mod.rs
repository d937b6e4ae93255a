//! Extraction of test errors from logs.
pub mod jest;
pub mod jest_laws;
pub mod laws;
pub mod pattern_laws;
pub mod pytest;
pub mod pytest_laws;
pub mod rust_laws;
pub mod rust_test;

pub use jest::JestParser;
pub use pytest::PytestParser;
pub use rust_test::RustTestParser;
pub use crate::patterns::{ANSI_RE, TIMESTAMP_RE};

use crate::matching::{compile, find_rest, remove_all, source_of};
use crate::models::{ErrorOccurrence, ErrorOccurrenceModel, TestError, TestErrorModel};
use crate::patterns::{not_decimal, time_rest, without_styles};
use crate::seqs::lemma_next_where;
use crate::text::{join, joined, mentions};
use regex::Regex;
use vstd::prelude::*;

verus! {

// ---------------------------------------------------------------------------
// Shared helpers
// ---------------------------------------------------------------------------

/// `text` without colour and style sequences.
pub open spec fn without_ansi(text: Seq<char>) -> Seq<char> {
    without_styles(text)
}

/// `line` without the time at its start.
pub open spec fn without_timestamp(line: Seq<char>) -> Seq<char> {
    match time_rest(line) {
        Some(rest) => rest,
        None => line,
    }
}

/// Removes colour and style sequences.
pub fn strip_ansi(text: &str) -> (result: String)
    ensures
        result@ == without_ansi(text@),
{
    let re = compile(ANSI_RE);
    remove_all(&re, text)
}

/// Removes the time at the start of a line.
pub fn strip_timestamp<'a>(line: &'a str) -> (rest: &'a str)
    ensures
        rest@ == without_timestamp(line@),
        rest@.is_suffix_of(line@),
{
    let re = compile(TIMESTAMP_RE);
    proof {
        lemma_rest_is_suffix(line@);
    }
    strip_time(&re, line)
}

/// What stands behind the time at the start of a line stands at its end.
proof fn lemma_rest_is_suffix(line: Seq<char>)
    ensures
        without_timestamp(line).is_suffix_of(line),
{
    let rest = without_timestamp(line);
    if line.len() >= 20 {
        lemma_next_where(line, not_decimal(), 20);
    }
    assert(line.subrange(line.len() - rest.len(), line.len() as int) =~= rest);
}

/// Removes the time at the start of a line, with the pattern at hand.
fn strip_time<'a>(re: &Regex, line: &'a str) -> (rest: &'a str)
    requires
        source_of(*re) == TIMESTAMP_RE@,
    ensures
        rest@ == without_timestamp(line@),
{
    match find_rest(re, line) {
        Some(rest) => rest,
        None => line,
    }
}

/// Whether none of `lines` holds `pattern`.
pub open spec fn no_line_mentions(lines: Seq<Seq<char>>, pattern: Seq<char>) -> bool {
    forall|i: int| 0 <= i < lines.len() ==> !mentions(#[trigger] lines[i], pattern)
}

/// The lines of a traceback as one text, if there are any.
pub open spec fn traceback_of(lines: Seq<Seq<char>>) -> Option<Seq<char>> {
    if lines.len() == 0 {
        None
    } else {
        Some(joined(lines, "\n"@))
    }
}

/// Joins the lines of a traceback.
fn traceback_text(lines: &Vec<String>) -> (traceback: Option<String>)
    ensures
        traceback.deep_view() == traceback_of(lines.deep_view()),
{
    if lines.len() == 0 {
        None
    } else {
        Some(join(lines, "\n"))
    }
}

/// One place in one log.
pub open spec fn sole_occurrence(
    job: Seq<char>,
    log_file: Seq<char>,
    traceback: Option<Seq<char>>,
) -> Seq<ErrorOccurrenceModel> {
    seq![ErrorOccurrenceModel { job, log_file, traceback }]
}

/// The list that holds one place in one log.
fn occurrence(job_name: &str, log_filename: &str, traceback: Option<String>) -> (occurrences: Vec<
    ErrorOccurrence,
>)
    ensures
        occurrences.deep_view() == sole_occurrence(
            job_name@,
            log_filename@,
            traceback.deep_view(),
        ),
{
    let mut occurrences: Vec<ErrorOccurrence> = Vec::new();
    occurrences.push(
        ErrorOccurrence {
            job: job_name.to_owned(),
            log_file: log_filename.to_owned(),
            traceback,
        },
    );
    assert(occurrences.deep_view() =~= sole_occurrence(
        job_name@,
        log_filename@,
        traceback.deep_view(),
    ));
    occurrences
}

// ---------------------------------------------------------------------------
// Parser trait
// ---------------------------------------------------------------------------

/// A reader of the output of one test framework.
pub trait TestErrorParser: Send + Sync {
    /// The name of the framework.
    spec fn name(&self) -> Seq<char>;

    /// The errors in the log `content` of a job.
    spec fn errors_in(
        &self,
        content: Seq<char>,
        job_name: Seq<char>,
        log_filename: Seq<char>,
    ) -> Seq<TestErrorModel>;

    /// The name of the framework.
    fn framework(&self) -> (name: &'static str)
        ensures
            name@ == self.name(),
    ;

    /// Reads the errors in the log `content` of a job.
    fn parse(&self, content: &str, job_name: &str, log_filename: &str) -> (errors: Vec<TestError>)
        ensures
            errors.deep_view() == self.errors_in(content@, job_name@, log_filename@),
    ;
}

/// One of the readers of this library.
pub enum LogParser {
    Pytest(PytestParser),
    Jest(JestParser),
    RustTest(RustTestParser),
}

impl TestErrorParser for LogParser {
    open spec fn name(&self) -> Seq<char> {
        match self {
            LogParser::Pytest(parser) => parser.name(),
            LogParser::Jest(parser) => parser.name(),
            LogParser::RustTest(parser) => parser.name(),
        }
    }

    open spec fn errors_in(
        &self,
        content: Seq<char>,
        job_name: Seq<char>,
        log_filename: Seq<char>,
    ) -> Seq<TestErrorModel> {
        match self {
            LogParser::Pytest(parser) => parser.errors_in(content, job_name, log_filename),
            LogParser::Jest(parser) => parser.errors_in(content, job_name, log_filename),
            LogParser::RustTest(parser) => parser.errors_in(content, job_name, log_filename),
        }
    }

    fn framework(&self) -> (name: &'static str) {
        match self {
            LogParser::Pytest(parser) => parser.framework(),
            LogParser::Jest(parser) => parser.framework(),
            LogParser::RustTest(parser) => parser.framework(),
        }
    }

    fn parse(&self, content: &str, job_name: &str, log_filename: &str) -> (errors: Vec<TestError>) {
        match self {
            LogParser::Pytest(parser) => parser.parse(content, job_name, log_filename),
            LogParser::Jest(parser) => parser.parse(content, job_name, log_filename),
            LogParser::RustTest(parser) => parser.parse(content, job_name, log_filename),
        }
    }
}

/// The readers in the order in which they run.
pub open spec fn parser_list() -> Seq<LogParser> {
    seq![
        LogParser::Pytest(PytestParser),
        LogParser::Jest(JestParser),
        LogParser::RustTest(RustTestParser),
    ]
}

/// All readers: pytest, Jest, Rust.
pub fn all_parsers() -> (parsers: Vec<LogParser>)
    ensures
        parsers@ == parser_list(),
{
    vec![
        LogParser::Pytest(PytestParser),
        LogParser::Jest(JestParser),
        LogParser::RustTest(RustTestParser),
    ]
}

} // verus!
