//! What the errors of pytest say of the lines of a log.
use super::laws::law_pytest_names_are_parts_of_the_path;
use super::{pytest, PytestParser, TestErrorParser};
use crate::number::parsed_u32;
use crate::patterns::{
    lemma_line_number_groups, lemma_pytest_groups, line_number_groups, pytest_groups,
};
use crate::seqs::lemma_next_where_is;
use crate::text::{is_blank, joined, lines_of, mentions, pieces, trimmed};
use crate::text_laws::{law_mentioned_characters_are_held, law_text_is_cut_at_the_first};
use vstd::prelude::*;

verus! {

/// The failed test that a line of the short summary names, with what is said of it.
pub open spec fn failed_test(text: Seq<char>) -> Option<pytest::PytestFailureModel> {
    match pytest_groups(text) {
        Some(groups) => Some(
            pytest::PytestFailureModel { test_path: groups[2]->0, error_info: groups[3]->0 },
        ),
        None => None,
    }
}

/// How many of the first `n` lines name a failed test.
pub open spec fn failures_before(texts: Seq<Seq<char>>, n: int) -> int
    decreases n,
{
    if n <= 0 {
        0
    } else {
        failures_before(texts, n - 1) + if failed_test(texts[n - 1]) is Some {
            1int
        } else {
            0
        }
    }
}

/// Whether the lines behind `i` that tell of its failure end before line `end`: at the next failed
/// test or a rule, or once there are twenty-nine, or with the log.
pub open spec fn is_told_until(texts: Seq<Seq<char>>, i: int, end: int) -> bool {
    &&& 0 <= i < end <= texts.len()
    &&& end <= i + 30
    &&& end == texts.len() || end == i + 30 || "FAILED"@.is_prefix_of(texts[end])
        || "====="@.is_prefix_of(texts[end])
    &&& forall|l: int|
        i < l < end ==> !"FAILED"@.is_prefix_of(#[trigger] texts[l]) && !"====="@.is_prefix_of(
            texts[l],
        )
}

/// Whether a line of Python code or of a traceback gives a line number.
pub open spec fn gives_number(text: Seq<char>) -> bool {
    mentions(text, ".py:"@) && line_number_groups(text) is Some
}

/// The line number that such a line gives, if it is not too large.
pub open spec fn number_on(text: Seq<char>) -> Option<u32> {
    parsed_u32((line_number_groups(text)->0)[1]->0)
}

/// Whether line `k` is the last between `i` and `end` that gives a line number.
pub open spec fn is_last_number(texts: Seq<Seq<char>>, i: int, end: int, k: int) -> bool {
    &&& i < k < end
    &&& gives_number(texts[k])
    &&& forall|l: int| k < l < end ==> !gives_number(#[trigger] texts[l])
}

/// Whether no line between `i` and `end` gives a line number.
pub open spec fn no_number(texts: Seq<Seq<char>>, i: int, end: int) -> bool {
    forall|l: int| i < l < end ==> !gives_number(#[trigger] texts[l])
}

/// Whether a line is marked with `E` and explains something.
pub open spec fn explains(text: Seq<char>) -> bool {
    "E   "@.is_prefix_of(trimmed(text)) && !is_blank(trimmed(text).skip(4))
}

/// What the lines between `i` and `n` that are marked with `E` explain.
pub open spec fn explained(texts: Seq<Seq<char>>, i: int, n: int) -> Seq<Seq<char>>
    decreases n - i,
{
    if n <= i + 1 {
        seq![]
    } else if explains(texts[n - 1]) {
        explained(texts, i, n - 1).push(trimmed(trimmed(texts[n - 1]).skip(4)))
    } else {
        explained(texts, i, n - 1)
    }
}

/// What the patterns find in the lines of a log.
proof fn lemma_facts(content: Seq<char>, i: int)
    requires
        0 <= i < lines_of(content).len(),
    ensures
        ({
            let line = pytest::log_lines(content)[i];
            let text = lines_of(content)[i];
            &&& pytest::log_lines(content).len() == lines_of(content).len()
            &&& line.text == text
            &&& line.failure == failed_test(text)
            &&& line.number is Some == gives_number(text)
            &&& line.number is Some ==> parsed_u32(line.number->0) == number_on(text)
        }),
{
    let text = lines_of(content)[i];
    assert(pytest::log_lines(content)[i] == pytest::line_of(text));
    lemma_pytest_groups(text);
    lemma_line_number_groups(text);
}

proof fn lemma_errors(
    content: Seq<char>,
    n: int,
    i: int,
    job_name: Seq<char>,
    log_filename: Seq<char>,
)
    requires
        0 <= n <= lines_of(content).len(),
    ensures
        ({
            let texts = lines_of(content);
            let lines = pytest::log_lines(content);
            let errors = pytest::errors_before(lines, n, job_name, log_filename);
            &&& errors.len() == failures_before(texts, n)
            &&& 0 <= i < n && failed_test(texts[i]) is Some ==> 0 <= failures_before(texts, i)
                < errors.len() && errors[failures_before(texts, i)] == pytest::error_at(
                lines,
                i,
                job_name,
                log_filename,
            )
        }),
    decreases n,
{
    if n > 0 {
        lemma_errors(content, n - 1, i, job_name, log_filename);
        lemma_facts(content, n - 1);
    }
}

proof fn lemma_told(content: Seq<char>, i: int, n: int)
    requires
        0 <= i < n <= lines_of(content).len(),
    ensures
        ({
            let texts = lines_of(content);
            let lines = pytest::log_lines(content);
            let number = pytest::last_number(lines, i + 1, n);
            &&& pytest::explanations(lines, i + 1, n) == explained(texts, i, n)
            &&& no_number(texts, i, n) ==> number is None
            &&& forall|k: int| #[trigger]
                is_last_number(texts, i, n, k) ==> number == number_on(texts[k])
        }),
    decreases n - i,
{
    let texts = lines_of(content);
    if n > i + 1 {
        lemma_told(content, i, n - 1);
        lemma_facts(content, n - 1);
        if gives_number(texts[n - 1]) {
            assert(!no_number(texts, i, n));
            assert forall|k: int| #[trigger] is_last_number(texts, i, n, k) implies k == n - 1 by {
                if k < n - 1 {
                    assert(!gives_number(texts[n - 1]));
                }
            }
        } else {
            assert forall|k: int| #[trigger] is_last_number(texts, i, n, k) implies is_last_number(
                texts,
                i,
                n - 1,
                k,
            ) by {}
        }
    }
}

proof fn lemma_window(content: Seq<char>, i: int, end: int)
    requires
        is_told_until(lines_of(content), i, end),
    ensures
        pytest::details_end(pytest::log_lines(content), i) == end,
{
    let texts = lines_of(content);
    let lines = pytest::log_lines(content);
    let limit = if i + 30 < lines.len() {
        i + 30
    } else {
        lines.len() as int
    };
    let window = lines.take(limit);
    assert forall|l: int| i + 1 <= l < end implies !pytest::ends_details()(#[trigger] window[l]) by {
        assert(!"FAILED"@.is_prefix_of(texts[l]));
        lemma_facts(content, l);
    }
    if end < limit {
        lemma_facts(content, end);
        assert(pytest::ends_details()(window[end]));
    }
    lemma_next_where_is(window, pytest::ends_details(), i + 1, end);
}

/// Each line of the short summary that names a failed test gives one error, in the order of the
/// log, and nothing else gives any. The path tells the file and the name; what is said of the
/// failure tells the kind and the message. The lines behind it, up to where they end, tell the line
/// number, which is the last one given, and the traceback, which holds what is explained, if there
/// is a message.
pub proof fn law_pytest_errors_tell_their_lines(
    content: Seq<char>,
    i: int,
    end: int,
    job_name: Seq<char>,
    log_filename: Seq<char>,
)
    requires
        is_told_until(lines_of(content), i, end),
        failed_test(lines_of(content)[i]) is Some,
    ensures
        ({
            let texts = lines_of(content);
            let errors = PytestParser.errors_in(content, job_name, log_filename);
            let failure = failed_test(texts[i])->0;
            let error = errors[failures_before(texts, i)];
            let parts = pieces(failure.test_path, "::"@);
            let told = explained(texts, i, end);
            &&& errors.len() == failures_before(texts, texts.len() as int)
            &&& 0 <= failures_before(texts, i) < errors.len()
            &&& error.framework == "pytest"@
            &&& error.test_file == parts[0]
            &&& error.test_name == joined(parts.skip(1), "::"@)
            &&& !failure.error_info.contains(':') ==> error.error_type == trimmed(
                failure.error_info,
            ) && error.message == Seq::<char>::empty()
            &&& forall|kind: Seq<char>, rest: Seq<char>|
                failure.error_info == #[trigger] (kind + ":"@ + rest) && !kind.contains(':')
                    ==> error.error_type == trimmed(kind) && error.message == trimmed(rest)
            &&& no_number(texts, i, end) ==> error.line is None
            &&& forall|k: int| #[trigger]
                is_last_number(texts, i, end, k) ==> error.line == number_on(texts[k])
            &&& error.occurrences.len() == 1
            &&& error.occurrences[0].job == job_name
            &&& error.occurrences[0].log_file == log_filename
            &&& error.occurrences[0].traceback == if error.message.len() == 0 || told.len() == 0 {
                None
            } else {
                Some(joined(told, "\n"@))
            }
        }),
{
    let texts = lines_of(content);
    let failure = failed_test(texts[i])->0;
    lemma_errors(content, texts.len() as int, i, job_name, log_filename);
    lemma_facts(content, i);
    lemma_window(content, i, end);
    lemma_told(content, i, end);
    law_pytest_names_are_parts_of_the_path(failure.test_path);
    let error = PytestParser.errors_in(content, job_name, log_filename)[failures_before(texts, i)];
    reveal_strlit(":");
    assert(":"@ =~= seq![':']);
    law_mentioned_characters_are_held(failure.error_info, ':');
    assert forall|kind: Seq<char>, rest: Seq<char>|
        failure.error_info == #[trigger] (kind + ":"@ + rest) && !kind.contains(
            ':',
        ) implies error.error_type == trimmed(kind) && error.message == trimmed(rest) by {
        law_text_is_cut_at_the_first(kind, ':', rest);
    }
}

/// A log gives as many errors as it has lines that name a failed test.
pub proof fn law_pytest_errors_are_all_named(
    content: Seq<char>,
    job_name: Seq<char>,
    log_filename: Seq<char>,
)
    ensures
        PytestParser.errors_in(content, job_name, log_filename).len() == failures_before(
            lines_of(content),
            lines_of(content).len() as int,
        ),
{
    lemma_errors(content, lines_of(content).len() as int, 0, job_name, log_filename);
}

} // verus!
