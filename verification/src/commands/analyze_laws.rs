//! What the analysis of a run keeps of its logs and its jobs.
use super::analyze::{
    are_fresh, counts_of, errors_by, errors_in_log, findings_of, framework_parts, has_error_of, is_log_name,
    is_tallied, job_of_log, law_merging_is_by_signature, law_merging_keeps_occurrences,
    law_tally_adds_up, law_tally_is_by_framework, log_stem, merged, occurs, signature,
    summary_text, tally_errors, tally_occurrences, total_occurrences,
};
use super::overview::{conclusion_rank, count_of, counted_jobs, job_overviews, jobs_overview};
use crate::github::{is_free_of, log_name, sanitized};
use crate::models::{
    FindingsSummaryModel, JobModel, JobOverview, JobOverviewModel, RunMetadataModel, TestErrorModel,
};
use crate::number::decimal;
use crate::order::{in_order, lemma_sorting_keeps_values, lemma_sorting_orders, precedes};
use crate::parsers::laws::{is_from, law_errors_name_their_log};
use crate::parsers::{
    parser_list, JestParser, PytestParser, RustTestParser, TestErrorParser,
};
use crate::text::joined;
use vstd::prelude::*;

verus! {

// ---------------------------------------------------------------------------
// Log files
// ---------------------------------------------------------------------------

/// The name of the log of a job holds none of the characters that a job name may hold but a file
/// name may not.
pub proof fn law_log_names_are_safe(name: Seq<char>)
    ensures
        sanitized(name).len() == name.len(),
        is_free_of(sanitized(name), '/'),
        is_free_of(sanitized(name), '\\'),
        is_free_of(sanitized(name), ':'),
        is_free_of(sanitized(name), ' '),
{
}

/// The log of a job is found again: its name is that of a log.
pub proof fn law_logs_are_found_again(job: JobModel)
    ensures
        is_log_name(log_name(job)),
{
    let name = log_name(job);
    reveal_strlit("-");
    reveal_strlit(".log");
    assert(name.subrange(name.len() - 4, name.len() as int) =~= ".log"@);
}

/// What a job is called that is named by its log: a space stands for every character that the name
/// of the log does not keep.
pub open spec fn name_in_logs(name: Seq<char>) -> Seq<char> {
    Seq::new(
        name.len(),
        |i: int|
            if name[i] == '/' || name[i] == '\\' || name[i] == ':' || name[i] == '_' {
                ' '
            } else {
                name[i]
            },
    )
}

/// A job that failed, passed or was cancelled is named by its log, but for the characters that the
/// name of the log does not keep.
pub proof fn law_logs_name_their_jobs(job: JobModel)
    requires
        ({
            ||| job.conclusion == Some("failure"@)
            ||| job.conclusion == Some("success"@)
            ||| job.conclusion == Some("cancelled"@)
        }),
    ensures
        job_of_log(log_name(job)) == name_in_logs(job.name),
        is_free_of(job.name, '/') && is_free_of(job.name, '\\') && is_free_of(job.name, ':')
            && is_free_of(job.name, '_') ==> job_of_log(log_name(job)) == job.name,
{
    let stem = sanitized(job.name);
    let name = log_name(job);
    let word = job.conclusion->0;
    let k = stem.len() as int;
    reveal_strlit("-");
    reveal_strlit(".log");
    reveal_strlit("failure");
    reveal_strlit("success");
    reveal_strlit("cancelled");
    reveal_strlit("-failure.log");
    reveal_strlit("-success.log");
    reveal_strlit("-cancelled.log");
    assert(name.len() == k + 5 + word.len());
    assert(name.take(k) =~= stem);
    if word == "failure"@ {
        assert(name.subrange(k, name.len() as int) =~= "-failure.log"@);
    } else if word == "success"@ {
        assert(name.subrange(k, name.len() as int) =~= "-success.log"@);
        assert(name[name.len() - 5] == 's');
        assert("-failure.log"@[7] == 'e');
        assert(!"-failure.log"@.is_suffix_of(name)) by {
            if "-failure.log"@.is_suffix_of(name) {
                assert(name.subrange(name.len() - 12, name.len() as int)[7] == name[name.len() - 5]);
            }
        }
    } else {
        assert(name.subrange(k, name.len() as int) =~= "-cancelled.log"@);
        assert(name[name.len() - 5] == 'd');
        assert(!"-failure.log"@.is_suffix_of(name)) by {
            if "-failure.log"@.is_suffix_of(name) {
                assert(name.subrange(name.len() - 12, name.len() as int)[7] == name[name.len() - 5]);
            }
        }
        assert(!"-success.log"@.is_suffix_of(name)) by {
            if "-success.log"@.is_suffix_of(name) {
                assert(name.subrange(name.len() - 12, name.len() as int)[7] == name[name.len() - 5]);
            }
        }
    }
    assert(log_stem(name) =~= stem);
    assert(job_of_log(name) =~= name_in_logs(job.name));
    if is_free_of(job.name, '/') && is_free_of(job.name, '\\') && is_free_of(job.name, ':')
        && is_free_of(job.name, '_') {
        assert(name_in_logs(job.name) =~= job.name);
    }
}

/// In the name of a log, an underscore stands for each of the characters that a file name may not
/// hold, and every other character of the name of the job stays.
pub proof fn law_log_names_keep_other_characters(job: JobModel, i: int)
    requires
        0 <= i < job.name.len(),
    ensures
        ({
            let c = job.name[i];
            log_name(job)[i] == if c == '/' || c == '\\' || c == ':' || c == ' ' {
                '_'
            } else {
                c
            }
        }),
{
}

/// The name of a log tells how its job ended, behind the name of the job and a hyphen.
pub proof fn law_log_names_tell_the_conclusion(job: JobModel)
    ensures
        job.conclusion is Some ==> log_name(job).skip(job.name.len() as int) == "-"@
            + job.conclusion->0 + ".log"@,
        job.conclusion is None ==> log_name(job).skip(job.name.len() as int) == "-unknown.log"@,
{
    let tail = log_name(job).skip(job.name.len() as int);
    if job.conclusion is Some {
        assert(tail =~= "-"@ + job.conclusion->0 + ".log"@);
    } else {
        reveal_strlit("-");
        reveal_strlit("unknown");
        reveal_strlit(".log");
        reveal_strlit("-unknown.log");
        assert("-unknown.log"@ =~= "-"@ + "unknown"@ + ".log"@);
        assert(tail =~= "-"@ + "unknown"@ + ".log"@);
    }
}

/// The logs are the files whose names have something before the extension `log`.
pub proof fn law_logs_have_an_extension(filename: Seq<char>)
    ensures
        is_log_name(filename) <==> exists|stem: Seq<char>|
            stem.len() > 0 && filename == #[trigger] (stem + ".log"@),
{
    reveal_strlit(".log");
    if is_log_name(filename) {
        let stem = filename.take(filename.len() - 4);
        assert(filename.subrange(filename.len() - 4, filename.len() as int) == ".log"@);
        assert(filename =~= stem + ".log"@);
    }
    if exists|stem: Seq<char>| stem.len() > 0 && filename == #[trigger] (stem + ".log"@) {
        let stem = choose|stem: Seq<char>| stem.len() > 0 && filename == #[trigger] (stem
            + ".log"@);
        assert(filename.subrange(filename.len() - 4, filename.len() as int) =~= ".log"@);
    }
}

/// `s` with a space for every underscore.
pub open spec fn spaced(s: Seq<char>) -> Seq<char> {
    Seq::new(
        s.len(),
        |i: int|
            if s[i] == '_' {
                ' '
            } else {
                s[i]
            },
    )
}

/// The job of a log is what stands before the ending that tells of a failure, a success or a
/// cancellation, with spaces for underscores. The name of any other log is kept whole.
pub proof fn law_endings_are_no_part_of_the_job(stem: Seq<char>)
    ensures
        job_of_log(stem + "-failure.log"@) == spaced(stem),
        job_of_log(stem + "-success.log"@) == spaced(stem),
        job_of_log(stem + "-cancelled.log"@) == spaced(stem),
        !"-failure.log"@.is_suffix_of(stem) && !"-success.log"@.is_suffix_of(stem)
            && !"-cancelled.log"@.is_suffix_of(stem) ==> job_of_log(stem) == spaced(stem),
{
    reveal_strlit("-failure.log");
    reveal_strlit("-success.log");
    reveal_strlit("-cancelled.log");
    let failed = stem + "-failure.log"@;
    let passed = stem + "-success.log"@;
    let cancelled = stem + "-cancelled.log"@;
    let k = stem.len() as int;
    assert(failed.subrange(k, failed.len() as int) =~= "-failure.log"@);
    assert(passed.subrange(k, passed.len() as int) =~= "-success.log"@);
    assert(cancelled.subrange(k, cancelled.len() as int) =~= "-cancelled.log"@);
    assert(failed.take(k) =~= stem && passed.take(k) =~= stem && cancelled.take(k) =~= stem);
    assert(passed[passed.len() - 5] == 's');
    assert(cancelled[cancelled.len() - 5] == 'd');
    assert(!"-failure.log"@.is_suffix_of(passed)) by {
        assert(passed.subrange(passed.len() - 12, passed.len() as int)[7] == 's');
    }
    assert(!"-failure.log"@.is_suffix_of(cancelled)) by {
        assert(cancelled.subrange(cancelled.len() - 12, cancelled.len() as int)[7] == 'd');
    }
    assert(!"-success.log"@.is_suffix_of(cancelled)) by {
        assert(cancelled.subrange(cancelled.len() - 12, cancelled.len() as int)[7] == 'd');
    }
    assert(job_of_log(failed) =~= spaced(stem));
    assert(job_of_log(passed) =~= spaced(stem));
    assert(job_of_log(cancelled) =~= spaced(stem));
    if !"-failure.log"@.is_suffix_of(stem) && !"-success.log"@.is_suffix_of(stem)
        && !"-cancelled.log"@.is_suffix_of(stem) {
        assert(job_of_log(stem) =~= spaced(stem));
    }
}

/// The errors in a log are those that the readers of pytest, Jest and Rust find in it, one reader
/// after the other, for the job that the log is of.
pub proof fn law_all_readers_read_a_log(content: Seq<char>, filename: Seq<char>)
    ensures
        errors_in_log(content, filename) == PytestParser.errors_in(
            content,
            job_of_log(filename),
            filename,
        ) + JestParser.errors_in(content, job_of_log(filename), filename)
            + RustTestParser.errors_in(content, job_of_log(filename), filename),
{
    let parsers = parser_list();
    let job = job_of_log(filename);
    let first = PytestParser.errors_in(content, job, filename);
    assert(errors_by(parsers, 0, content, filename) =~= seq![]);
    assert(parsers[0].errors_in(content, job, filename) == first);
    assert(errors_by(parsers, 1, content, filename) =~= first);
    assert(errors_by(parsers, 2, content, filename) == first + JestParser.errors_in(
        content,
        job,
        filename,
    ));
    assert(errors_by(parsers, 3, content, filename) == errors_by(parsers, 2, content, filename)
        + RustTestParser.errors_in(content, job, filename));
}

/// Every error in a log was seen once, in this log and in the job that it is of.
pub proof fn law_log_errors_are_of_the_log(content: Seq<char>, filename: Seq<char>)
    ensures
        forall|i: int|
            0 <= i < errors_in_log(content, filename).len() ==> {
                let error = #[trigger] errors_in_log(content, filename)[i];
                is_from(error, error.framework, job_of_log(filename), filename)
            },
        total_occurrences(errors_in_log(content, filename)) == errors_in_log(
            content,
            filename,
        ).len(),
{
    let n = parser_list().len() as int;
    lemma_errors_by(n, content, filename);
    lemma_single_places(errors_in_log(content, filename));
}

proof fn lemma_errors_by(n: int, content: Seq<char>, filename: Seq<char>)
    requires
        0 <= n <= parser_list().len(),
    ensures
        forall|i: int|
            0 <= i < errors_by(parser_list(), n, content, filename).len() ==> {
                let error = #[trigger] errors_by(parser_list(), n, content, filename)[i];
                is_from(error, error.framework, job_of_log(filename), filename)
            },
    decreases n,
{
    if n > 0 {
        let parser = parser_list()[n - 1];
        lemma_errors_by(n - 1, content, filename);
        law_errors_name_their_log(parser, content, job_of_log(filename), filename);
        let before = errors_by(parser_list(), n - 1, content, filename);
        let own = parser.errors_in(content, job_of_log(filename), filename);
        let errors = errors_by(parser_list(), n, content, filename);
        assert(errors == before + own);
        assert forall|i: int| 0 <= i < errors.len() implies {
            let error = #[trigger] errors[i];
            is_from(error, error.framework, job_of_log(filename), filename)
        } by {
            if i < before.len() {
                assert(errors[i] == before[i]);
            } else {
                assert(errors[i] == own[i - before.len()]);
            }
        }
    }
}

proof fn lemma_single_places(errors: Seq<TestErrorModel>)
    requires
        forall|i: int| 0 <= i < errors.len() ==> (#[trigger] errors[i]).occurrences.len() == 1,
    ensures
        total_occurrences(errors) == errors.len(),
    decreases errors.len(),
{
    if errors.len() > 0 {
        let rest = errors.drop_last();
        assert forall|i: int| 0 <= i < rest.len() implies (
        #[trigger] rest[i]).occurrences.len() == 1 by {
            assert(rest[i] == errors[i]);
        }
        lemma_single_places(rest);
    }
}

// ---------------------------------------------------------------------------
// Findings
// ---------------------------------------------------------------------------

/// The summary of the findings counts what the findings hold, in all and by framework, and the
/// findings hold each error of the logs once.
pub proof fn law_findings_add_up(
    metadata: RunMetadataModel,
    errors: Seq<TestErrorModel>,
    jobs_analyzed: nat,
    analyzed_at: Seq<char>,
)
    ensures
        ({
            let findings = findings_of(metadata, errors, jobs_analyzed, analyzed_at);
            let summary = findings.summary;
            &&& summary.total_unique_errors == findings.errors.len()
            &&& summary.total_error_occurrences == total_occurrences(findings.errors)
            &&& summary.total_unique_errors == tally_errors(summary.by_framework)
            &&& summary.total_error_occurrences == tally_occurrences(summary.by_framework)
            &&& forall|name: Seq<char>| #[trigger]
                is_tallied(summary.by_framework, name) <==> has_error_of(findings.errors, name)
            &&& forall|i: int|
                0 <= i < summary.by_framework.len() ==> (#[trigger] summary.by_framework[i]).1
                    == counts_of(findings.errors, summary.by_framework[i].0)
            &&& forall|wanted: Seq<char>| #[trigger]
                occurs(findings.errors, wanted) <==> occurs(errors, wanted)
            &&& forall|i: int, j: int|
                0 <= i < j < findings.errors.len() ==> signature(#[trigger] findings.errors[i])
                    != signature(#[trigger] findings.errors[j])
        }),
{
    law_merging_keeps_occurrences(errors);
    law_merging_is_by_signature(errors);
    law_tally_adds_up(merged(errors));
    law_tally_is_by_framework(merged(errors));
}

/// Findings are fresh beside some logs and others exactly if they are beside each of them; beside one
/// log, if it was not written later; and beside none.
pub proof fn law_later_logs_make_findings_stale(
    findings_time: i128,
    first: Seq<i128>,
    second: Seq<i128>,
    log_time: i128,
)
    ensures
        are_fresh(findings_time, first + second) <==> are_fresh(findings_time, first) && are_fresh(
            findings_time,
            second,
        ),
        are_fresh(findings_time, seq![log_time]) <==> !(findings_time < log_time),
        are_fresh(findings_time, Seq::<i128>::empty()),
{
    let all = first + second;
    if are_fresh(findings_time, all) {
        assert forall|i: int| 0 <= i < first.len() implies first[i] <= findings_time by {
            assert(all[i] == first[i]);
        }
        assert forall|i: int| 0 <= i < second.len() implies second[i] <= findings_time by {
            assert(all[first.len() + i] == second[i]);
        }
    }
    if are_fresh(findings_time, seq![log_time]) {
        assert(seq![log_time][0] <= findings_time);
    }
}

/// The findings name the run, say when they were made and how many logs were read, and hold the
/// merged errors and the overview of the jobs.
pub proof fn law_findings_are_of_the_run(
    metadata: RunMetadataModel,
    errors: Seq<TestErrorModel>,
    jobs_analyzed: nat,
    analyzed_at: Seq<char>,
)
    ensures
        ({
            let findings = findings_of(metadata, errors, jobs_analyzed, analyzed_at);
            &&& findings.run_id == metadata.run_id
            &&& findings.analyzed_at == analyzed_at
            &&& findings.summary.jobs_analyzed == jobs_analyzed
            &&& findings.errors == merged(errors)
            &&& findings.jobs_overview == jobs_overview(metadata.jobs)
        }),
{
}

/// The places of some errors and of others add up to those of all of them; those of one error are
/// the ones that it lists.
pub proof fn law_places_add_up(
    first: Seq<TestErrorModel>,
    second: Seq<TestErrorModel>,
    error: TestErrorModel,
)
    ensures
        total_occurrences(first + second) == total_occurrences(first) + total_occurrences(second),
        total_occurrences(seq![error]) == error.occurrences.len(),
    decreases second.len(),
{
    if second.len() > 0 {
        assert((first + second).drop_last() =~= first + second.drop_last());
        law_places_add_up(first, second.drop_last(), error);
    } else {
        assert(first + second =~= first);
    }
    assert(seq![error].drop_last() =~= seq![]);
    assert(total_occurrences(seq![error].drop_last()) == 0);
}

/// How the counts of a framework are shown.
pub open spec fn shown_framework(name: Seq<char>, unique: nat, total: nat) -> Seq<char> {
    name + ": "@ + decimal(unique) + " unique, "@ + decimal(total) + " total"@
}

/// The printed summary counts the errors and their places, in all and for each framework in the
/// order of the summary; it says so if there are none.
pub proof fn law_summary_is_shown(summary: FindingsSummaryModel, parts: Seq<Seq<char>>)
    requires
        parts.len() == summary.by_framework.len(),
        forall|i: int|
            0 <= i < parts.len() ==> #[trigger] parts[i] == shown_framework(
                summary.by_framework[i].0,
                summary.by_framework[i].1.unique_errors,
                summary.by_framework[i].1.total_occurrences,
            ),
    ensures
        summary.total_unique_errors == 0 ==> summary_text(summary)
            == "\nNo parsed test errors found.\n"@,
        summary.total_unique_errors > 0 ==> summary_text(summary) == "\nTest errors: "@ + decimal(
            summary.total_unique_errors,
        ) + " unique ("@ + decimal(summary.total_error_occurrences) + " occurrences) ["@ + joined(
            parts,
            "; "@,
        ) + "]\n"@,
{
    assert(framework_parts(summary.by_framework) =~= parts);
}

// ---------------------------------------------------------------------------
// The overview of the jobs
// ---------------------------------------------------------------------------

/// The overview has an entry for each job, and lists them by conclusion and then by name: failed
/// jobs first, then those that were cancelled, timed out, passed and were skipped, and then all
/// others.
pub proof fn law_overview_is_in_order(jobs: Seq<JobModel>)
    ensures
        jobs_overview(jobs).to_multiset() == job_overviews(jobs).to_multiset(),
        jobs_overview(jobs).len() == jobs.len(),
        forall|i: int, j: int|
            0 <= i < j < jobs_overview(jobs).len() ==> {
                let a = #[trigger] jobs_overview(jobs)[i];
                let b = #[trigger] jobs_overview(jobs)[j];
                ||| conclusion_rank(a.conclusion) < conclusion_rank(b.conclusion)
                ||| conclusion_rank(a.conclusion) == conclusion_rank(b.conclusion) && !precedes(
                    b.job_name,
                    a.job_name,
                )
            },
{
    lemma_sorting_keeps_values::<JobOverview>(job_overviews(jobs));
    lemma_sorting_orders::<JobOverview>(job_overviews(jobs));
    assert(in_order::<JobOverview>(jobs_overview(jobs)));
}

/// The jobs that failed, were cancelled or passed are no more than all jobs.
pub proof fn law_counted_jobs_fit(overview: Seq<JobOverviewModel>)
    ensures
        counted_jobs(overview) <= overview.len(),
{
    lemma_counted_jobs_fit(overview, overview.len() as int);
}

proof fn lemma_counted_jobs_fit(overview: Seq<JobOverviewModel>, n: int)
    requires
        0 <= n <= overview.len(),
    ensures
        count_of(overview, n, "failure"@) + count_of(overview, n, "cancelled"@) + count_of(
            overview,
            n,
            "success"@,
        ) <= n,
    decreases n,
{
    if n > 0 {
        lemma_counted_jobs_fit(overview, n - 1);
        reveal_strlit("failure");
        reveal_strlit("cancelled");
        reveal_strlit("success");
        assert("failure"@[0] != "cancelled"@[0]);
        assert("failure"@[0] != "success"@[0]);
        assert("cancelled"@[0] != "success"@[0]);
    }
}

} // verus!
