//! The analysis of the logs of a run.
use super::overview::{build_jobs_overview, jobs_overview};
use crate::models::{
    ErrorOccurrenceModel, Findings, FindingsModel, FindingsSummary, FindingsSummaryModel,
    FrameworkSummary, FrameworkSummaryModel, RunMetadata, RunMetadataModel, TestError,
    TestErrorModel,
};
use crate::number::{decimal, decimal_text};
use crate::parsers::{all_parsers, parser_list, LogParser, TestErrorParser};
use crate::seqs::{lemma_next_where, lemma_next_where_is, next_where, put_item, take_item};
use crate::text::{ends_with, join, joined, replace, replaced};
use vstd::prelude::*;

verus! {

// ---------------------------------------------------------------------------
// Log files
// ---------------------------------------------------------------------------

/// Whether a file is a log: its name has the extension `log`.
pub open spec fn is_log_name(filename: Seq<char>) -> bool {
    filename.len() > 4 && ".log"@.is_suffix_of(filename)
}

/// Whether a file is a log.
pub fn is_log_file(filename: &str) -> (yes: bool)
    ensures
        yes == is_log_name(filename@),
{
    filename.unicode_len() > 4 && ends_with(filename, ".log")
}

/// `s` without `suffix` at its end, if it ends with it.
pub open spec fn without_suffix(s: Seq<char>, suffix: Seq<char>) -> Option<Seq<char>> {
    if suffix.is_suffix_of(s) {
        Some(s.take(s.len() - suffix.len()))
    } else {
        None
    }
}

/// The name of a log without how its job ended.
pub open spec fn log_stem(filename: Seq<char>) -> Seq<char> {
    match without_suffix(filename, "-failure.log"@) {
        Some(stem) => stem,
        None => match without_suffix(filename, "-success.log"@) {
            Some(stem) => stem,
            None => match without_suffix(filename, "-cancelled.log"@) {
                Some(stem) => stem,
                None => filename,
            },
        },
    }
}

/// The job that a log is of, as its name tells it.
pub open spec fn job_of_log(filename: Seq<char>) -> Seq<char> {
    replaced(log_stem(filename), '_', ' ')
}

fn strip_suffix<'a>(text: &'a str, suffix: &str) -> (stem: Option<&'a str>)
    ensures
        stem.deep_view() == without_suffix(text@, suffix@),
{
    if ends_with(text, suffix) {
        let length: usize = text.unicode_len() - suffix.unicode_len();
        let stem = text.substring_char(0, length);
        assert(stem@ =~= text@.take(text@.len() - suffix@.len()));
        Some(stem)
    } else {
        None
    }
}

/// The job that a log is of, as its name tells it.
pub fn job_name_of(filename: &str) -> (name: String)
    ensures
        name@ == job_of_log(filename@),
{
    let stem = match strip_suffix(filename, "-failure.log") {
        Some(stem) => stem,
        None => match strip_suffix(filename, "-success.log") {
            Some(stem) => stem,
            None => match strip_suffix(filename, "-cancelled.log") {
                Some(stem) => stem,
                None => filename,
            },
        },
    };
    replace(stem, '_', ' ')
}

/// Whether no log was written after the findings.
pub open spec fn are_fresh(findings_time: i128, log_times: Seq<i128>) -> bool {
    forall|i: int| 0 <= i < log_times.len() ==> log_times[i] <= findings_time
}

/// Whether findings written at `findings_time` are newer than all logs: no log was written after
/// them.
pub fn findings_are_fresh(findings_time: i128, log_times: &Vec<i128>) -> (fresh: bool)
    ensures
        fresh <==> forall|i: int| 0 <= i < log_times@.len() ==> log_times@[i] <= findings_time,
        fresh == are_fresh(findings_time, log_times@),
{
    let mut i: usize = 0;
    while i < log_times.len()
        invariant
            i <= log_times@.len(),
            forall|j: int| 0 <= j < i ==> log_times@[j] <= findings_time,
        decreases log_times@.len() - i,
    {
        if log_times[i] > findings_time {
            return false;
        }
        i += 1;
    }
    true
}

/// The errors that the first `n` readers find in a log.
pub open spec fn errors_by(
    parsers: Seq<LogParser>,
    n: int,
    content: Seq<char>,
    filename: Seq<char>,
) -> Seq<TestErrorModel>
    decreases n,
{
    if n <= 0 {
        seq![]
    } else {
        errors_by(parsers, n - 1, content, filename) + parsers[n - 1].errors_in(
            content,
            job_of_log(filename),
            filename,
        )
    }
}

/// The errors in the log `filename`.
pub open spec fn errors_in_log(content: Seq<char>, filename: Seq<char>) -> Seq<TestErrorModel> {
    errors_by(parser_list(), parser_list().len() as int, content, filename)
}

/// Runs all readers on the log `filename`.
pub fn parse_log(content: &str, filename: &str) -> (errors: Vec<TestError>)
    ensures
        errors.deep_view() == errors_in_log(content@, filename@),
{
    let job_name = job_name_of(filename);
    let parsers = all_parsers();
    let mut errors: Vec<TestError> = Vec::new();
    let mut i: usize = 0;
    assert(errors.deep_view() =~= seq![]);
    while i < parsers.len()
        invariant
            i <= parsers@.len(),
            parsers@ == parser_list(),
            job_name@ == job_of_log(filename@),
            errors.deep_view() == errors_by(parser_list(), i as int, content@, filename@),
        decreases parsers@.len() - i,
    {
        let ghost before = errors.deep_view();
        let mut more = parsers[i].parse(content, job_name.as_str(), filename);
        let ghost added = more.deep_view();
        errors.append(&mut more);
        assert(errors.deep_view() =~= before + added);
        i += 1;
    }
    errors
}

// ---------------------------------------------------------------------------
// Merging
// ---------------------------------------------------------------------------

/// What makes two errors the same: framework, file, test and kind.
pub open spec fn signature(error: TestErrorModel) -> Seq<char> {
    error.framework + "::"@ + error.test_file + "::"@ + error.test_name + "::"@ + error.error_type
}

/// What makes two errors the same.
pub fn error_signature(error: &TestError) -> (text: String)
    ensures
        text@ == signature(error.deep_view()),
{
    let mut text = error.framework.clone();
    text.append("::");
    text.append(error.test_file.as_str());
    text.append("::");
    text.append(error.test_name.as_str());
    text.append("::");
    text.append(error.error_type.as_str());
    text
}

/// Holds of the errors with the signature `wanted`.
pub open spec fn has_signature(wanted: Seq<char>) -> spec_fn(TestErrorModel) -> bool {
    |error: TestErrorModel| signature(error) == wanted
}

/// `error` seen at `more` places too.
pub open spec fn seen_too(
    error: TestErrorModel,
    more: Seq<ErrorOccurrenceModel>,
) -> TestErrorModel {
    TestErrorModel { occurrences: error.occurrences + more, ..error }
}

/// `known` with `error` added: to the error that is the same, else at the end.
pub open spec fn merged_with(known: Seq<TestErrorModel>, error: TestErrorModel) -> Seq<
    TestErrorModel,
> {
    let k = next_where(known, has_signature(signature(error)), 0);
    if k < known.len() {
        known.update(k, seen_too(known[k], error.occurrences))
    } else {
        known.push(error)
    }
}

/// The different errors among `errors`, each with all its places.
pub open spec fn merged(errors: Seq<TestErrorModel>) -> Seq<TestErrorModel>
    decreases errors.len(),
{
    if errors.len() == 0 {
        seq![]
    } else {
        merged_with(merged(errors.drop_last()), errors.last())
    }
}

/// Adds one error to the errors known so far, whose signatures are `signatures`.
fn merge_one(known: &mut Vec<TestError>, signatures: &mut Vec<String>, error: TestError)
    requires
        old(signatures)@.len() == old(known)@.len(),
        forall|i: int|
            0 <= i < old(known)@.len() ==> #[trigger] old(signatures)@[i]@ == signature(
                old(known).deep_view()[i],
            ),
    ensures
        final(known).deep_view() == merged_with(old(known).deep_view(), error.deep_view()),
        final(signatures)@.len() == final(known)@.len(),
        forall|i: int|
            0 <= i < final(known)@.len() ==> #[trigger] final(signatures)@[i]@ == signature(
                final(known).deep_view()[i],
            ),
{
    let ghost start = known.deep_view();
    let ghost added = error.deep_view();
    let wanted = error_signature(&error);
    let mut k: usize = 0;
    while k < signatures.len() && signatures[k] != wanted
        invariant
            k <= signatures@.len(),
            signatures@.len() == start.len(),
            forall|i: int|
                0 <= i < start.len() ==> #[trigger] signatures@[i]@ == signature(start[i]),
            wanted@ == signature(added),
            forall|j: int| 0 <= j < k ==> !has_signature(wanted@)(#[trigger] start[j]),
        decreases signatures@.len() - k,
    {
        assert(signatures@[k as int]@ == signature(start[k as int]));
        k += 1;
    }
    proof {
        if k < signatures@.len() {
            assert(signatures@[k as int]@ == signature(start[k as int]));
        }
        lemma_next_where_is(start, has_signature(wanted@), 0, k as int);
    }
    if k < known.len() {
        let mut more = error.occurrences;
        let mut same = take_item(known, k);
        let ghost places = same.occurrences.deep_view();
        same.occurrences.append(&mut more);
        assert(same.occurrences.deep_view() =~= places + added.occurrences);
        assert(same.deep_view() == seen_too(start[k as int], added.occurrences));
        put_item(known, k, same);
        assert(known.deep_view() =~= start.update(k as int, same.deep_view()));
    } else {
        known.push(error);
        signatures.push(wanted);
        assert(known.deep_view() =~= start.push(added));
    }
}

/// Merges errors with the same signature.
pub fn merge_errors(errors: Vec<TestError>) -> (result: Vec<TestError>)
    ensures
        result.deep_view() == merged(errors.deep_view()),
{
    let ghost all = errors.deep_view();
    let mut known: Vec<TestError> = Vec::new();
    let mut signatures: Vec<String> = Vec::new();
    assert(known.deep_view() =~= seq![]);
    assert(all.take(0) =~= seq![]);
    for error in it: errors.into_iter()
        invariant
            it.seq() == errors@,
            all == errors.deep_view(),
            known.deep_view() == merged(all.take(it.index() as int)),
            signatures@.len() == known@.len(),
            forall|i: int|
                0 <= i < known@.len() ==> #[trigger] signatures@[i]@ == signature(
                    known.deep_view()[i],
                ),
    {
        assert(error == errors@[it.index() as int]);
        assert(all.take(it.index() + 1).drop_last() =~= all.take(it.index() as int));
        merge_one(&mut known, &mut signatures, error);
    }
    assert(all.take(all.len() as int) =~= all);
    known
}

/// The number of places in all of `errors`.
pub open spec fn total_occurrences(errors: Seq<TestErrorModel>) -> nat
    decreases errors.len(),
{
    if errors.len() == 0 {
        0
    } else {
        total_occurrences(errors.drop_last()) + errors.last().occurrences.len()
    }
}

/// The places of the errors with the signature `wanted`, one after the other.
pub open spec fn places_of(errors: Seq<TestErrorModel>, wanted: Seq<char>) -> Seq<
    ErrorOccurrenceModel,
>
    decreases errors.len(),
{
    if errors.len() == 0 {
        seq![]
    } else if signature(errors.last()) == wanted {
        places_of(errors.drop_last(), wanted) + errors.last().occurrences
    } else {
        places_of(errors.drop_last(), wanted)
    }
}

/// Whether no two of `errors` have the same signature.
pub open spec fn all_different(errors: Seq<TestErrorModel>) -> bool {
    forall|i: int, j: int|
        0 <= i < j < errors.len() ==> signature(#[trigger] errors[i]) != signature(
            #[trigger] errors[j],
        )
}

/// Whether one of `errors` has the signature `wanted`.
pub open spec fn occurs(errors: Seq<TestErrorModel>, wanted: Seq<char>) -> bool {
    exists|i: int| 0 <= i < errors.len() && signature(#[trigger] errors[i]) == wanted
}

/// Changing one error changes the number of places by the difference.
proof fn lemma_total_update(errors: Seq<TestErrorModel>, k: int, error: TestErrorModel)
    requires
        0 <= k < errors.len(),
    ensures
        total_occurrences(errors.update(k, error)) == total_occurrences(errors)
            - errors[k].occurrences.len() + error.occurrences.len(),
    decreases errors.len(),
{
    let changed = errors.update(k, error);
    if k == errors.len() - 1 {
        assert(changed.drop_last() =~= errors.drop_last());
    } else {
        lemma_total_update(errors.drop_last(), k, error);
        assert(changed.drop_last() =~= errors.drop_last().update(k, error));
    }
}

/// Merging keeps every place: as many come out as went in.
pub proof fn law_merging_keeps_occurrences(errors: Seq<TestErrorModel>)
    ensures
        total_occurrences(merged(errors)) == total_occurrences(errors),
    decreases errors.len(),
{
    if errors.len() > 0 {
        let known = merged(errors.drop_last());
        let error = errors.last();
        let k = next_where(known, has_signature(signature(error)), 0);
        law_merging_keeps_occurrences(errors.drop_last());
        lemma_next_where(known, has_signature(signature(error)), 0);
        if k < known.len() {
            lemma_total_update(known, k, seen_too(known[k], error.occurrences));
        } else {
            assert(known.push(error).drop_last() =~= known);
        }
    }
}

/// Merging leaves errors with different signatures, those that went in, and no others; each has
/// the places of all errors with its signature, in their order.
pub proof fn law_merging_is_by_signature(errors: Seq<TestErrorModel>)
    ensures
        all_different(merged(errors)),
        forall|wanted: Seq<char>|
            #[trigger] occurs(merged(errors), wanted) <==> occurs(errors, wanted),
        forall|i: int|
            0 <= i < merged(errors).len() ==> (#[trigger] merged(errors)[i]).occurrences
                == places_of(errors, signature(merged(errors)[i])),
    decreases errors.len(),
{
    if errors.len() > 0 {
        let rest = errors.drop_last();
        let known = merged(rest);
        let error = errors.last();
        let wanted = signature(error);
        let k = next_where(known, has_signature(wanted), 0);
        let out = merged(errors);
        law_merging_is_by_signature(rest);
        lemma_next_where(known, has_signature(wanted), 0);
        assert forall|i: int| 0 <= i < known.len() implies signature(#[trigger] out[i])
            == signature(known[i]) by {}
        if k < known.len() {
            assert(has_signature(wanted)(known[k]));
        } else {
            assert forall|i: int| 0 <= i < known.len() implies signature(#[trigger] known[i])
                != wanted by {
                assert(!has_signature(wanted)(known[i]));
            }
        }
        assert forall|other: Seq<char>| #[trigger]
            occurs(out, other) <==> occurs(errors, other) by {
            assert(occurs(known, other) <==> occurs(rest, other));
            if occurs(out, other) {
                let i = choose|i: int| 0 <= i < out.len() && signature(#[trigger] out[i]) == other;
                if i < known.len() {
                    assert(signature(known[i]) == other);
                    let j = choose|j: int|
                        0 <= j < rest.len() && signature(#[trigger] rest[j]) == other;
                    assert(errors[j] == rest[j]);
                } else {
                    assert(signature(errors[errors.len() - 1]) == other);
                }
            }
            if occurs(errors, other) {
                let j = choose|j: int|
                    0 <= j < errors.len() && signature(#[trigger] errors[j]) == other;
                if j < rest.len() {
                    assert(signature(rest[j]) == other);
                    let i = choose|i: int|
                        0 <= i < known.len() && signature(#[trigger] known[i]) == other;
                    assert(signature(out[i]) == other);
                } else if k < known.len() {
                    assert(signature(out[k]) == other);
                } else {
                    assert(signature(out[known.len() as int]) == other);
                }
            }
        }
        assert forall|i: int| 0 <= i < out.len() implies (#[trigger] out[i]).occurrences
            == places_of(errors, signature(out[i])) by {
            if i < known.len() {
                assert(known[i].occurrences == places_of(rest, signature(known[i])));
                if i != k {
                    if k < known.len() {
                        assert(signature(known[i]) != signature(known[k]));
                    }
                }
            } else {
                assert(!occurs(merged(rest), wanted));
                lemma_no_places(rest, wanted);
                assert(seq![] + error.occurrences =~= error.occurrences);
            }
        }
    }
}

/// A signature that occurs nowhere has no places.
proof fn lemma_no_places(errors: Seq<TestErrorModel>, wanted: Seq<char>)
    requires
        !occurs(errors, wanted),
    ensures
        places_of(errors, wanted) =~= seq![],
    decreases errors.len(),
{
    if errors.len() > 0 {
        let rest = errors.drop_last();
        assert(signature(errors[errors.len() - 1]) != wanted);
        assert(!occurs(rest, wanted)) by {
            if occurs(rest, wanted) {
                let i = choose|i: int| 0 <= i < rest.len() && signature(#[trigger] rest[i]) == wanted;
                assert(signature(errors[i]) == wanted);
            }
        }
        lemma_no_places(rest, wanted);
    }
}

/// Errors with different signatures stay as they are when they are merged.
pub proof fn law_merging_keeps_different_errors(errors: Seq<TestErrorModel>)
    requires
        all_different(errors),
    ensures
        merged(errors) == errors,
    decreases errors.len(),
{
    if errors.len() > 0 {
        let rest = errors.drop_last();
        let wanted = signature(errors.last());
        assert(all_different(rest)) by {
            assert forall|i: int, j: int| 0 <= i < j < rest.len() implies signature(
                #[trigger] rest[i],
            ) != signature(#[trigger] rest[j]) by {
                assert(signature(errors[i]) != signature(errors[j]));
            }
        }
        law_merging_keeps_different_errors(rest);
        assert forall|i: int| 0 <= i < rest.len() implies !has_signature(wanted)(
            #[trigger] rest[i],
        ) by {
            assert(signature(errors[i]) != signature(errors[errors.len() - 1]));
        }
        lemma_next_where_is(rest, has_signature(wanted), 0, rest.len() as int);
        assert(rest.push(errors.last()) =~= errors);
    } else {
        assert(errors =~= seq![]);
    }
}

/// Merging twice does no more than merging once.
pub proof fn law_merging_is_idempotent(errors: Seq<TestErrorModel>)
    ensures
        merged(merged(errors)) == merged(errors),
{
    law_merging_is_by_signature(errors);
    law_merging_keeps_different_errors(merged(errors));
}

// ---------------------------------------------------------------------------
// Counting
// ---------------------------------------------------------------------------

/// Holds of the counts of the framework `name`.
pub open spec fn is_of(name: Seq<char>) -> spec_fn((Seq<char>, FrameworkSummaryModel)) -> bool {
    |entry: (Seq<char>, FrameworkSummaryModel)| entry.0 == name
}

/// `tally` with `error` counted under its framework.
pub open spec fn tallied_with(
    tally: Seq<(Seq<char>, FrameworkSummaryModel)>,
    error: TestErrorModel,
) -> Seq<(Seq<char>, FrameworkSummaryModel)> {
    let k = next_where(tally, is_of(error.framework), 0);
    if k < tally.len() {
        tally.update(
            k,
            (
                tally[k].0,
                FrameworkSummaryModel {
                    unique_errors: tally[k].1.unique_errors + 1,
                    total_occurrences: tally[k].1.total_occurrences + error.occurrences.len(),
                },
            ),
        )
    } else {
        tally.push(
            (
                error.framework,
                FrameworkSummaryModel {
                    unique_errors: 1,
                    total_occurrences: error.occurrences.len(),
                },
            ),
        )
    }
}

/// The counts of each framework, in the order in which the frameworks occur.
pub open spec fn tallied(errors: Seq<TestErrorModel>) -> Seq<(Seq<char>, FrameworkSummaryModel)>
    decreases errors.len(),
{
    if errors.len() == 0 {
        seq![]
    } else {
        tallied_with(tallied(errors.drop_last()), errors.last())
    }
}

/// The number of errors in a tally.
pub open spec fn tally_errors(tally: Seq<(Seq<char>, FrameworkSummaryModel)>) -> nat
    decreases tally.len(),
{
    if tally.len() == 0 {
        0
    } else {
        tally_errors(tally.drop_last()) + tally.last().1.unique_errors
    }
}

/// The number of places in a tally.
pub open spec fn tally_occurrences(tally: Seq<(Seq<char>, FrameworkSummaryModel)>) -> nat
    decreases tally.len(),
{
    if tally.len() == 0 {
        0
    } else {
        tally_occurrences(tally.drop_last()) + tally.last().1.total_occurrences
    }
}

/// Changing one entry of a tally changes its sums by the difference; no entry exceeds them.
proof fn lemma_tally_update(
    tally: Seq<(Seq<char>, FrameworkSummaryModel)>,
    k: int,
    entry: (Seq<char>, FrameworkSummaryModel),
)
    requires
        0 <= k < tally.len(),
    ensures
        tally_errors(tally.update(k, entry)) == tally_errors(tally) - tally[k].1.unique_errors
            + entry.1.unique_errors,
        tally_occurrences(tally.update(k, entry)) == tally_occurrences(tally)
            - tally[k].1.total_occurrences + entry.1.total_occurrences,
        tally[k].1.unique_errors <= tally_errors(tally),
        tally[k].1.total_occurrences <= tally_occurrences(tally),
    decreases tally.len(),
{
    let changed = tally.update(k, entry);
    if k == tally.len() - 1 {
        assert(changed.drop_last() =~= tally.drop_last());
    } else {
        lemma_tally_update(tally.drop_last(), k, entry);
        assert(changed.drop_last() =~= tally.drop_last().update(k, entry));
    }
}

/// Each framework stands in the tally once, and the counts of all frameworks add up to the number
/// of errors and of places.
pub proof fn law_tally_adds_up(errors: Seq<TestErrorModel>)
    ensures
        tally_errors(tallied(errors)) == errors.len(),
        tally_occurrences(tallied(errors)) == total_occurrences(errors),
        forall|i: int, j: int|
            0 <= i < j < tallied(errors).len() ==> (#[trigger] tallied(errors)[i]).0 != (
            #[trigger] tallied(errors)[j]).0,
    decreases errors.len(),
{
    if errors.len() > 0 {
        let tally = tallied(errors.drop_last());
        let error = errors.last();
        let k = next_where(tally, is_of(error.framework), 0);
        let out = tallied(errors);
        law_tally_adds_up(errors.drop_last());
        lemma_next_where(tally, is_of(error.framework), 0);
        if k < tally.len() {
            lemma_tally_update(tally, k, out[k]);
        } else {
            assert(out.drop_last() =~= tally);
            assert forall|i: int| 0 <= i < tally.len() implies (#[trigger] tally[i]).0
                != error.framework by {
                assert(!is_of(error.framework)(tally[i]));
            }
        }
        assert forall|i: int, j: int| 0 <= i < j < out.len() implies (#[trigger] out[i]).0 != (
        #[trigger] out[j]).0 by {
            assert(out[i].0 == tally[i].0);
            if j < tally.len() {
                assert(out[j].0 == tally[j].0);
            }
        }
    }
}

/// Holds of the errors of the framework `name`.
pub open spec fn is_error_of(name: Seq<char>) -> spec_fn(TestErrorModel) -> bool {
    |error: TestErrorModel| error.framework == name
}

/// Whether one of `errors` is of the framework `name`.
pub open spec fn has_error_of(errors: Seq<TestErrorModel>, name: Seq<char>) -> bool {
    exists|i: int| 0 <= i < errors.len() && (#[trigger] errors[i]).framework == name
}

/// Whether a tally has an entry for the framework `name`.
pub open spec fn is_tallied(
    tally: Seq<(Seq<char>, FrameworkSummaryModel)>,
    name: Seq<char>,
) -> bool {
    exists|i: int| 0 <= i < tally.len() && (#[trigger] tally[i]).0 == name
}

/// The counts of the framework `name` among `errors`.
pub open spec fn counts_of(errors: Seq<TestErrorModel>, name: Seq<char>) -> FrameworkSummaryModel {
    let own = errors.filter(is_error_of(name));
    FrameworkSummaryModel {
        unique_errors: own.len(),
        total_occurrences: total_occurrences(own),
    }
}

/// One more error adds to the counts of its framework, and to no other.
proof fn lemma_counts_step(errors: Seq<TestErrorModel>, name: Seq<char>)
    requires
        errors.len() > 0,
    ensures
        ({
            let before = counts_of(errors.drop_last(), name);
            let error = errors.last();
            counts_of(errors, name) == if error.framework == name {
                FrameworkSummaryModel {
                    unique_errors: before.unique_errors + 1,
                    total_occurrences: before.total_occurrences + error.occurrences.len(),
                }
            } else {
                before
            }
        }),
{
    let rest = errors.drop_last();
    let own = rest.filter(is_error_of(name));
    rest.lemma_filter_push(errors.last(), is_error_of(name));
    assert(rest.push(errors.last()) =~= errors);
    assert(own.push(errors.last()).drop_last() =~= own);
}

/// A framework that no error has counts nothing.
proof fn lemma_counts_of_none(errors: Seq<TestErrorModel>, name: Seq<char>)
    requires
        !has_error_of(errors, name),
    ensures
        counts_of(errors, name) == (FrameworkSummaryModel {
            unique_errors: 0,
            total_occurrences: 0,
        }),
    decreases errors.len(),
{
    if errors.len() > 0 {
        let rest = errors.drop_last();
        assert(errors[errors.len() - 1].framework != name);
        assert(!has_error_of(rest, name)) by {
            if has_error_of(rest, name) {
                let i = choose|i: int| 0 <= i < rest.len() && (#[trigger] rest[i]).framework == name;
                assert(errors[i].framework == name);
            }
        }
        lemma_counts_of_none(rest, name);
        lemma_counts_step(errors, name);
    } else {
        reveal(Seq::filter);
    }
}

/// The tally has an entry for exactly the frameworks of the errors, and the counts of each are over
/// its errors.
pub proof fn law_tally_is_by_framework(errors: Seq<TestErrorModel>)
    ensures
        forall|name: Seq<char>| #[trigger]
            is_tallied(tallied(errors), name) <==> has_error_of(errors, name),
        forall|i: int|
            0 <= i < tallied(errors).len() ==> (#[trigger] tallied(errors)[i]).1 == counts_of(
                errors,
                tallied(errors)[i].0,
            ),
    decreases errors.len(),
{
    let out = tallied(errors);
    if errors.len() > 0 {
        let rest = errors.drop_last();
        let error = errors.last();
        let tally = tallied(rest);
        let k = next_where(tally, is_of(error.framework), 0);
        law_tally_is_by_framework(rest);
        law_tally_adds_up(rest);
        lemma_next_where(tally, is_of(error.framework), 0);
        if k < tally.len() {
            assert(is_of(error.framework)(tally[k]));
        } else {
            assert forall|i: int| 0 <= i < tally.len() implies (#[trigger] tally[i]).0
                != error.framework by {
                assert(!is_of(error.framework)(tally[i]));
            }
            assert(!is_tallied(tally, error.framework));
            lemma_counts_of_none(rest, error.framework);
        }
        assert forall|i: int| 0 <= i < out.len() implies (#[trigger] out[i]).1 == counts_of(
            errors,
            out[i].0,
        ) by {
            lemma_counts_step(errors, out[i].0);
            if i < tally.len() {
                assert(tally[i].1 == counts_of(rest, tally[i].0));
                assert(out[i].0 == tally[i].0);
                if i != k && k < tally.len() {
                    if i < k {
                        assert(tally[i].0 != tally[k].0);
                    } else {
                        assert(tally[k].0 != tally[i].0);
                    }
                }
            }
        }
        assert forall|name: Seq<char>| #[trigger]
            is_tallied(out, name) <==> has_error_of(errors, name) by {
            assert(is_tallied(tally, name) <==> has_error_of(rest, name));
            if is_tallied(out, name) {
                let i = choose|i: int| 0 <= i < out.len() && (#[trigger] out[i]).0 == name;
                if i < tally.len() {
                    assert(tally[i].0 == name);
                    let j = choose|j: int|
                        0 <= j < rest.len() && (#[trigger] rest[j]).framework == name;
                    assert(errors[j].framework == name);
                } else {
                    assert(errors[errors.len() - 1].framework == name);
                }
            }
            if has_error_of(errors, name) {
                let j = choose|j: int|
                    0 <= j < errors.len() && (#[trigger] errors[j]).framework == name;
                if j < rest.len() {
                    assert(rest[j].framework == name);
                    let i = choose|i: int| 0 <= i < tally.len() && (#[trigger] tally[i]).0 == name;
                    assert(out[i].0 == name);
                } else {
                    assert(out[k].0 == name);
                }
            }
        }
    } else {
        assert forall|name: Seq<char>|
            !(#[trigger] is_tallied(out, name)) && !has_error_of(errors, name) by {}
    }
}

/// Counts the places of all errors.
pub fn count_occurrences(errors: &Vec<TestError>) -> (total: usize)
    requires
        total_occurrences(errors.deep_view()) <= usize::MAX,
    ensures
        total == total_occurrences(errors.deep_view()),
{
    let ghost all = errors.deep_view();
    let mut total: usize = 0;
    let mut i: usize = 0;
    assert(all.take(0) =~= seq![]);
    while i < errors.len()
        invariant
            i <= errors@.len(),
            all == errors.deep_view(),
            total == total_occurrences(all.take(i as int)),
            total_occurrences(all) <= usize::MAX,
        decreases errors@.len() - i,
    {
        assert(all[i as int] == errors@[i as int].deep_view());
        assert(all.take(i + 1).drop_last() =~= all.take(i as int));
        proof {
            lemma_total_of_prefix(all, i + 1);
        }
        total += errors[i].occurrences.len();
        i += 1;
    }
    assert(all.take(i as int) =~= all);
    total
}

/// A beginning of a list of errors has no more places than the whole list.
proof fn lemma_total_of_prefix(errors: Seq<TestErrorModel>, n: int)
    requires
        0 <= n <= errors.len(),
    ensures
        total_occurrences(errors.take(n)) <= total_occurrences(errors),
    decreases errors.len() - n,
{
    if n < errors.len() {
        lemma_total_of_prefix(errors, n + 1);
        assert(errors.take(n + 1).drop_last() =~= errors.take(n));
    } else {
        assert(errors.take(n) =~= errors);
    }
}

/// Counts one more error under its framework.
fn tally_one(tally: &mut Vec<(String, FrameworkSummary)>, error: &TestError)
    requires
        tally_errors(old(tally).deep_view()) < usize::MAX,
        tally_occurrences(old(tally).deep_view()) + error.occurrences@.len() <= usize::MAX,
    ensures
        final(tally).deep_view() == tallied_with(old(tally).deep_view(), error.deep_view()),
{
    let ghost start = tally.deep_view();
    let ghost name = error.framework@;
    let mut k: usize = 0;
    while k < tally.len() && tally[k].0 != error.framework
        invariant
            k <= tally@.len(),
            start == tally.deep_view(),
            name == error.framework@,
            forall|j: int| 0 <= j < k ==> !is_of(name)(#[trigger] start[j]),
        decreases tally@.len() - k,
    {
        assert(start[k as int].0 == tally@[k as int].0@);
        k += 1;
    }
    proof {
        if k < tally@.len() {
            assert(start[k as int].0 == tally@[k as int].0@);
        }
        lemma_next_where_is(start, is_of(name), 0, k as int);
    }
    if k < tally.len() {
        proof {
            lemma_tally_update(start, k as int, start[k as int]);
            assert(start[k as int].1 == tally@[k as int].1.deep_view());
        }
        let entry = (
            tally[k].0.clone(),
            FrameworkSummary {
                unique_errors: tally[k].1.unique_errors + 1,
                total_occurrences: tally[k].1.total_occurrences + error.occurrences.len(),
            },
        );
        tally[k] = entry;
        assert(tally.deep_view() =~= start.update(k as int, entry.deep_view()));
    } else {
        let entry = (
            error.framework.clone(),
            FrameworkSummary { unique_errors: 1, total_occurrences: error.occurrences.len() },
        );
        tally.push(entry);
        assert(tally.deep_view() =~= start.push(entry.deep_view()));
    }
}

/// Counts errors by framework.
pub fn count_by_framework(errors: &Vec<TestError>) -> (tally: Vec<(String, FrameworkSummary)>)
    requires
        total_occurrences(errors.deep_view()) <= usize::MAX,
    ensures
        tally.deep_view() == tallied(errors.deep_view()),
{
    let ghost all = errors.deep_view();
    let length: usize = errors.len();
    let mut tally: Vec<(String, FrameworkSummary)> = Vec::new();
    let mut i: usize = 0;
    assert(all.take(0) =~= seq![]);
    assert(tally.deep_view() =~= seq![]);
    while i < length
        invariant
            i <= length == errors@.len(),
            all == errors.deep_view(),
            tally.deep_view() == tallied(all.take(i as int)),
            total_occurrences(all) <= usize::MAX,
        decreases length - i,
    {
        assert(all[i as int] == errors@[i as int].deep_view());
        assert(all.take(i + 1).drop_last() =~= all.take(i as int));
        proof {
            law_tally_adds_up(all.take(i as int));
            lemma_total_of_prefix(all, i + 1);
        }
        tally_one(&mut tally, &errors[i]);
        i += 1;
    }
    assert(all.take(i as int) =~= all);
    tally
}

// ---------------------------------------------------------------------------
// Findings
// ---------------------------------------------------------------------------

/// What the analysis of a run finds, given the errors in its logs.
pub open spec fn findings_of(
    metadata: RunMetadataModel,
    errors: Seq<TestErrorModel>,
    jobs_analyzed: nat,
    analyzed_at: Seq<char>,
) -> FindingsModel {
    FindingsModel {
        analyzed_at,
        run_id: metadata.run_id,
        jobs_overview: jobs_overview(metadata.jobs),
        errors: merged(errors),
        summary: FindingsSummaryModel {
            total_unique_errors: merged(errors).len(),
            total_error_occurrences: total_occurrences(errors),
            jobs_analyzed,
            by_framework: tallied(merged(errors)),
        },
    }
}

/// Puts together what the analysis of a run found: the errors of its logs, merged and counted, and
/// the overview of its jobs.
pub fn build_findings(
    metadata: &RunMetadata,
    errors: Vec<TestError>,
    jobs_analyzed: usize,
    analyzed_at: String,
) -> (findings: Findings)
    requires
        total_occurrences(errors.deep_view()) <= usize::MAX,
    ensures
        findings.deep_view() == findings_of(
            metadata.deep_view(),
            errors.deep_view(),
            jobs_analyzed as nat,
            analyzed_at@,
        ),
{
    proof {
        law_merging_keeps_occurrences(errors.deep_view());
    }
    let merged_errors = merge_errors(errors);
    let total: usize = count_occurrences(&merged_errors);
    let by_framework = count_by_framework(&merged_errors);
    Findings {
        analyzed_at,
        run_id: metadata.run_id.clone(),
        jobs_overview: build_jobs_overview(metadata),
        summary: FindingsSummary {
            total_unique_errors: merged_errors.len(),
            total_error_occurrences: total,
            jobs_analyzed,
            by_framework,
        },
        errors: merged_errors,
    }
}

/// The counts of one framework in the summary line.
pub open spec fn framework_part(entry: (Seq<char>, FrameworkSummaryModel)) -> Seq<char> {
    entry.0 + ": "@ + decimal(entry.1.unique_errors) + " unique, "@ + decimal(
        entry.1.total_occurrences,
    ) + " total"@
}

/// The counts of all frameworks in the summary line.
pub open spec fn framework_parts(tally: Seq<(Seq<char>, FrameworkSummaryModel)>) -> Seq<Seq<char>> {
    Seq::new(tally.len(), |i: int| framework_part(tally[i]))
}

/// The summary of the errors as it is printed, behind an empty line.
pub open spec fn summary_text(summary: FindingsSummaryModel) -> Seq<char> {
    if summary.total_unique_errors == 0 {
        "\nNo parsed test errors found.\n"@
    } else {
        "\nTest errors: "@ + decimal(summary.total_unique_errors) + " unique ("@ + decimal(
            summary.total_error_occurrences,
        ) + " occurrences) ["@ + joined(framework_parts(summary.by_framework), "; "@) + "]\n"@
    }
}

/// Writes the summary of the errors as it is printed.
pub fn summary_report(summary: &FindingsSummary) -> (text: String)
    ensures
        text@ == summary_text(summary.deep_view()),
{
    if summary.total_unique_errors == 0 {
        return "\nNo parsed test errors found.\n".to_owned();
    }
    let ghost tally = summary.by_framework.deep_view();
    let mut parts: Vec<String> = Vec::new();
    let mut i: usize = 0;
    assert(parts.deep_view() =~= framework_parts(tally).take(0));
    while i < summary.by_framework.len()
        invariant
            i <= summary.by_framework@.len(),
            tally == summary.by_framework.deep_view(),
            parts.deep_view() == framework_parts(tally).take(i as int),
        decreases summary.by_framework@.len() - i,
    {
        let ghost before = parts.deep_view();
        let entry = &summary.by_framework[i];
        assert(tally[i as int] == entry.deep_view());
        let mut part = entry.0.clone();
        part.append(": ");
        part.append(decimal_text(entry.1.unique_errors as u128).as_str());
        part.append(" unique, ");
        part.append(decimal_text(entry.1.total_occurrences as u128).as_str());
        part.append(" total");
        assert(part@ == framework_part(tally[i as int]));
        parts.push(part);
        i += 1;
        assert(parts.deep_view() =~= before.push(part@));
        assert(parts.deep_view() =~= framework_parts(tally).take(i as int));
    }
    assert(framework_parts(tally).take(i as int) =~= framework_parts(tally));
    let mut text = "\nTest errors: ".to_owned();
    text.append(decimal_text(summary.total_unique_errors as u128).as_str());
    text.append(" unique (");
    text.append(decimal_text(summary.total_error_occurrences as u128).as_str());
    text.append(" occurrences) [");
    text.append(join(&parts, "; ").as_str());
    text.append("]\n");
    text
}

} // verus!
