//! What the overview of the jobs of a run says of the jobs.
use super::overview::{
    conclusion_rank, count_of, failed_steps, job_lines, job_overview, job_overviews, jobs_overview,
    overview_text, step_lines, total_of,
};
use crate::durations::{is_distance, law_duration_is_the_distance};
use crate::models::{
    FailedStepOverviewModel, JobModel, JobOverview, JobOverviewModel, StepModel,
};
use crate::number::{decimal, signed_decimal};
use crate::order::{
    lemma_filter_within, lemma_precedes_irreflexive, lemma_sorting_is_stable,
    lemma_sorting_keeps_members, lemma_sorting_keeps_values, lemma_sorting_orders, precedes, tied,
    Ranked,
};
use crate::text::joined;
use vstd::prelude::*;

verus! {

// ---------------------------------------------------------------------------
// Jobs and their steps
// ---------------------------------------------------------------------------

/// How a job or a step is said to have ended.
pub open spec fn ending(conclusion: Option<Seq<char>>) -> Seq<char> {
    if conclusion is Some {
        conclusion->0
    } else {
        "unknown"@
    }
}

/// Whether something ended well or was skipped.
pub open spec fn went_well(conclusion: Option<Seq<char>>) -> bool {
    conclusion == Some("success"@) || conclusion == Some("skipped"@)
}

/// How many of the first `n` steps neither succeeded nor were skipped.
pub open spec fn troubles_before(steps: Seq<StepModel>, n: int) -> int
    decreases n,
{
    if n <= 0 {
        0
    } else {
        troubles_before(steps, n - 1) + if went_well(steps[n - 1].conclusion) {
            0int
        } else {
            1
        }
    }
}

/// Whether a listed step is the step.
pub open spec fn is_step(listed: FailedStepOverviewModel, step: StepModel) -> bool {
    &&& listed.name == step.name
    &&& listed.number == step.number
    &&& listed.conclusion == ending(step.conclusion)
    &&& is_distance(step.started_at, step.completed_at, listed.duration_secs)
}

/// Whether `listed` holds the steps that neither succeeded nor were skipped, in their order, and no
/// others.
pub open spec fn are_troubles(
    listed: Seq<FailedStepOverviewModel>,
    steps: Seq<StepModel>,
) -> bool {
    &&& listed.len() == troubles_before(steps, steps.len() as int)
    &&& forall|i: int|
        0 <= i < steps.len() && !went_well((#[trigger] steps[i]).conclusion) ==> {
            let k = troubles_before(steps, i);
            0 <= k < listed.len() && is_step(listed[k], steps[i])
        }
}

/// Whether an entry of the overview is that of the job. The steps that neither succeeded nor were
/// skipped are listed of a job that itself neither succeeded nor was skipped, whatever else its
/// conclusion is; no steps are listed of any other job.
pub open spec fn is_entry(entry: JobOverviewModel, job: JobModel) -> bool {
    &&& entry.job_name == job.name
    &&& entry.conclusion == ending(job.conclusion)
    &&& is_distance(job.started_at, job.completed_at, entry.duration_secs)
    &&& went_well(job.conclusion) ==> entry.failed_steps.len() == 0
    &&& !went_well(job.conclusion) ==> are_troubles(entry.failed_steps, job.steps)
}

proof fn lemma_word(conclusion: Option<Seq<char>>)
    ensures
        went_well(conclusion) <==> ending(conclusion) == "success"@ || ending(conclusion)
            == "skipped"@,
{
    reveal_strlit("unknown");
    reveal_strlit("success");
    reveal_strlit("skipped");
    assert("unknown"@[0] != "success"@[0]);
    assert("unknown"@[0] != "skipped"@[0]);
}

proof fn lemma_steps(steps: Seq<StepModel>, n: int, i: int)
    requires
        0 <= n <= steps.len(),
    ensures
        failed_steps(steps, n).len() == troubles_before(steps, n),
        0 <= i < n && !went_well(steps[i].conclusion) ==> {
            let k = troubles_before(steps, i);
            0 <= k < failed_steps(steps, n).len() && is_step(failed_steps(steps, n)[k], steps[i])
        },
    decreases n,
{
    if n > 0 {
        let step = steps[n - 1];
        lemma_steps(steps, n - 1, i);
        lemma_word(step.conclusion);
        law_duration_is_the_distance(step.started_at, step.completed_at);
    }
}

/// The entry of a job has its name, its conclusion and its duration, and lists its steps as
/// [`is_entry`] says.
pub proof fn law_entries_tell_their_jobs(job: JobModel)
    ensures
        is_entry(job_overview(job), job),
{
    let listed = job_overview(job).failed_steps;
    let n = job.steps.len() as int;
    lemma_word(job.conclusion);
    law_duration_is_the_distance(job.started_at, job.completed_at);
    if !went_well(job.conclusion) {
        lemma_steps(job.steps, n, 0);
        assert forall|i: int|
            0 <= i < n && !went_well((#[trigger] job.steps[i]).conclusion) implies ({
            let k = troubles_before(job.steps, i);
            0 <= k < listed.len() && is_step(listed[k], job.steps[i])
        }) by {
            lemma_steps(job.steps, n, i);
        }
    }
}

/// Every job of a run has an entry in the overview, and every entry is that of a job.
pub proof fn law_every_job_is_in_the_overview(jobs: Seq<JobModel>)
    ensures
        jobs_overview(jobs).len() == jobs.len(),
        forall|q: int|
            0 <= q < jobs.len() ==> exists|k: int|
                0 <= k < jobs.len() && is_entry(#[trigger] jobs_overview(jobs)[k], #[trigger] jobs[q]),
        forall|k: int|
            0 <= k < jobs.len() ==> exists|q: int|
                0 <= q < jobs.len() && is_entry(#[trigger] jobs_overview(jobs)[k], #[trigger] jobs[q]),
        jobs_overview(jobs).to_multiset() == Seq::new(
            jobs.len(),
            |q: int| job_overview(jobs[q]),
        ).to_multiset(),
{
    let given = job_overviews(jobs);
    let sorted = jobs_overview(jobs);
    lemma_sorting_keeps_values::<JobOverview>(given);
    assert(given =~= Seq::new(jobs.len(), |q: int| job_overview(jobs[q])));
    assert forall|q: int| 0 <= q < jobs.len() implies exists|k: int|
        0 <= k < jobs.len() && is_entry(#[trigger] sorted[k], #[trigger] jobs[q]) by {
        law_entries_tell_their_jobs(jobs[q]);
        assert(given[q] == job_overview(jobs[q]));
        lemma_sorting_keeps_members::<JobOverview>(given, given[q]);
        let k = choose|k: int| 0 <= k < sorted.len() && sorted[k] == given[q];
        assert(is_entry(sorted[k], jobs[q]));
    }
    assert forall|k: int| 0 <= k < jobs.len() implies exists|q: int|
        0 <= q < jobs.len() && is_entry(#[trigger] sorted[k], #[trigger] jobs[q]) by {
        lemma_sorting_keeps_members::<JobOverview>(given, sorted[k]);
        let q = choose|q: int| 0 <= q < given.len() && given[q] == sorted[k];
        law_entries_tell_their_jobs(jobs[q]);
        assert(is_entry(sorted[k], jobs[q]));
    }
}

// ---------------------------------------------------------------------------
// The order of the jobs
// ---------------------------------------------------------------------------

/// The conclusions with a place of their own, in their order.
pub open spec fn placed_conclusions() -> Seq<Seq<char>> {
    seq!["failure"@, "cancelled"@, "timed_out"@, "success"@, "skipped"@]
}

proof fn lemma_rank(word: Seq<char>)
    ensures
        forall|p: int|
            0 <= p < 5 && word == #[trigger] placed_conclusions()[p] ==> conclusion_rank(word) == p,
        !placed_conclusions().contains(word) <==> conclusion_rank(word) == 5,
        conclusion_rank(word) <= 5,
        conclusion_rank(word) < 5 ==> word == placed_conclusions()[conclusion_rank(word) as int],
{
    let all = placed_conclusions();
    reveal_strlit("failure");
    reveal_strlit("cancelled");
    reveal_strlit("timed_out");
    reveal_strlit("success");
    reveal_strlit("skipped");
    assert("success"@[1] != "skipped"@[1]);
    assert("failure"@[0] == 'f' && "cancelled"@[0] == 'c' && "timed_out"@[0] == 't'
        && "success"@[0] == 's' && "skipped"@[0] == 's');
    assert(all[0] == "failure"@ && all[1] == "cancelled"@ && all[2] == "timed_out"@ && all[3]
        == "success"@ && all[4] == "skipped"@);
    assert(all.contains(all[0]) && all.contains(all[1]) && all.contains(all[2]) && all.contains(
        all[3],
    ) && all.contains(all[4]));
}

/// Of two entries of the overview, the first has the earlier conclusion: failed jobs come first,
/// then those that were cancelled, timed out, passed and were skipped, and then all others. Of two
/// with the same conclusion, and of two of the others, the first does not have the later name.
pub proof fn law_troubled_jobs_come_first(jobs: Seq<JobModel>, i: int, j: int)
    requires
        0 <= i < j < jobs_overview(jobs).len(),
    ensures
        ({
            let a = jobs_overview(jobs)[i];
            let b = jobs_overview(jobs)[j];
            let placed = placed_conclusions();
            &&& forall|p: int, q: int|
                0 <= p < 5 && 0 <= q < 5 && a.conclusion == #[trigger] placed[p] && b.conclusion
                    == #[trigger] placed[q] ==> p <= q
            &&& placed.contains(b.conclusion) ==> placed.contains(a.conclusion)
            &&& a.conclusion == b.conclusion ==> !precedes(b.job_name, a.job_name)
            &&& !placed.contains(a.conclusion) ==> !precedes(b.job_name, a.job_name)
        }),
{
    let a = jobs_overview(jobs)[i];
    let b = jobs_overview(jobs)[j];
    lemma_sorting_orders::<JobOverview>(job_overviews(jobs));
    assert(JobOverview::le(a, b));
    lemma_rank(a.conclusion);
    lemma_rank(b.conclusion);
}

/// Jobs with one name and one conclusion keep their order in the overview.
pub proof fn law_like_jobs_keep_their_order(jobs: Seq<JobModel>, like: JobOverviewModel)
    ensures
        ({
            let alike = |entry: JobOverviewModel|
                entry.job_name == like.job_name && entry.conclusion == like.conclusion;
            jobs_overview(jobs).filter(alike) == Seq::new(
                jobs.len(),
                |q: int| job_overview(jobs[q]),
            ).filter(alike)
        }),
{
    let alike = |entry: JobOverviewModel|
        entry.job_name == like.job_name && entry.conclusion == like.conclusion;
    let given = job_overviews(jobs);
    let sorted = jobs_overview(jobs);
    let ties = tied::<JobOverview>(like);
    lemma_sorting_is_stable::<JobOverview>(given, like);
    lemma_precedes_irreflexive(like.job_name);
    assert forall|entry: JobOverviewModel| #[trigger] alike(entry) implies ties(entry) by {}
    lemma_filter_within(given, ties, alike);
    lemma_filter_within(sorted, ties, alike);
    assert(given =~= Seq::new(jobs.len(), |q: int| job_overview(jobs[q])));
}

// ---------------------------------------------------------------------------
// The printed overview
// ---------------------------------------------------------------------------

/// How a job or a step is shown to have ended: its conclusion, and its duration if it is known.
pub open spec fn shown_ending(conclusion: Seq<char>, duration: Option<i64>) -> Seq<char> {
    if duration is Some {
        " ["@ + conclusion + ", "@ + signed_decimal(duration->0 as int) + "s]\n"@
    } else {
        " ["@ + conclusion + "]\n"@
    }
}

proof fn lemma_count_of(
    overview: Seq<JobOverviewModel>,
    job: JobOverviewModel,
    n: int,
    conclusion: Seq<char>,
)
    requires
        0 <= n <= overview.len(),
    ensures
        count_of(overview.push(job), n, conclusion) == count_of(overview, n, conclusion),
        job_lines(overview.push(job), n) == job_lines(overview, n),
    decreases n,
{
    if n > 0 {
        lemma_count_of(overview, job, n - 1, conclusion);
        assert(overview.push(job)[n - 1] == overview[n - 1]);
    }
}

/// One more job counts for its own conclusion only.
pub proof fn law_jobs_count_for_their_conclusion(
    overview: Seq<JobOverviewModel>,
    job: JobOverviewModel,
    conclusion: Seq<char>,
)
    ensures
        total_of(overview.push(job), conclusion) == total_of(overview, conclusion) + if job.conclusion
            == conclusion {
            1int
        } else {
            0
        },
        total_of(seq![], conclusion) == 0,
{
    lemma_count_of(overview, job, overview.len() as int, conclusion);
}

proof fn lemma_step_lines(
    steps: Seq<FailedStepOverviewModel>,
    step: FailedStepOverviewModel,
    n: int,
)
    requires
        0 <= n <= steps.len(),
    ensures
        step_lines(steps.push(step), n) == step_lines(steps, n),
    decreases n,
{
    if n > 0 {
        lemma_step_lines(steps, step, n - 1);
        assert(steps.push(step)[n - 1] == steps[n - 1]);
    }
}

/// One more step is shown in a line of its own, behind the others.
pub proof fn law_steps_are_shown(
    steps: Seq<FailedStepOverviewModel>,
    step: FailedStepOverviewModel,
)
    ensures
        step_lines(steps.push(step), (steps.len() + 1) as int) == step_lines(
            steps,
            steps.len() as int,
        ) + ("    → Step "@ + decimal(step.number as nat) + ": "@ + step.name + shown_ending(
            step.conclusion,
            step.duration_secs,
        )),
        step_lines(seq![], 0) == Seq::<char>::empty(),
{
    let n = steps.len() as int;
    lemma_step_lines(steps, step, n);
    assert(steps.push(step)[n] == step);
    let line = "    → Step "@ + decimal(step.number as nat) + ": "@ + step.name + shown_ending(
        step.conclusion,
        step.duration_secs,
    );
    assert(super::overview::step_line(step) =~= line) by {
        reveal_strlit("s");
        reveal_strlit("]\n");
        reveal_strlit("s]\n");
        assert("s]\n"@ =~= "s"@ + "]\n"@);
    }
}

/// One more job that neither succeeded nor was skipped is shown in a line of its own, behind the
/// others, with its steps behind it; any other job is not shown.
pub proof fn law_troubled_jobs_are_shown(
    overview: Seq<JobOverviewModel>,
    job: JobOverviewModel,
)
    ensures
        job_lines(overview.push(job), (overview.len() + 1) as int) == job_lines(
            overview,
            overview.len() as int,
        ) + if job.conclusion == "success"@ || job.conclusion == "skipped"@ {
            Seq::<char>::empty()
        } else {
            "  ✗ "@ + job.job_name + shown_ending(job.conclusion, job.duration_secs) + step_lines(
                job.failed_steps,
                job.failed_steps.len() as int,
            )
        },
        job_lines(seq![], 0) == Seq::<char>::empty(),
{
    let n = overview.len() as int;
    let before = job_lines(overview, n);
    lemma_count_of(overview, job, n, seq![]);
    assert(overview.push(job)[n] == job);
    let line = "  ✗ "@ + job.job_name + shown_ending(job.conclusion, job.duration_secs)
        + step_lines(job.failed_steps, job.failed_steps.len() as int);
    assert(super::overview::job_line(job) =~= line) by {
        reveal_strlit("s");
        reveal_strlit("]\n");
        reveal_strlit("s]\n");
        assert("s]\n"@ =~= "s"@ + "]\n"@);
    }
    assert(before + Seq::<char>::empty() =~= before);
}

/// A count in the header, which is left out if it is zero.
pub open spec fn shown_count(count: int, label: Seq<char>) -> Seq<Seq<char>> {
    if count == 0 {
        Seq::empty()
    } else {
        seq![decimal(count as nat) + label]
    }
}

/// The printed overview starts with a header that counts all jobs, those that failed, were
/// cancelled and passed, and the rest; the lines of the jobs follow, and how many passed, if any did.
pub proof fn law_overview_is_shown(overview: Seq<JobOverviewModel>, total_jobs: nat)
    requires
        overview.len() <= total_jobs,
    ensures
        ({
            let failed = total_of(overview, "failure"@) as int;
            let cancelled = total_of(overview, "cancelled"@) as int;
            let passed = total_of(overview, "success"@) as int;
            let other = total_jobs - failed - cancelled - passed;
            let counts = shown_count(failed, " failed"@) + shown_count(cancelled, " cancelled"@)
                + shown_count(passed, " passed"@) + shown_count(other, " other"@);
            overview_text(overview, total_jobs) == "\nJobs overview ("@ + decimal(total_jobs)
                + " total, "@ + joined(counts, ", "@) + "):\n"@ + job_lines(
                overview,
                overview.len() as int,
            ) + if passed == 0 {
                Seq::<char>::empty()
            } else {
                "  ✓ "@ + decimal(passed as nat) + " jobs passed\n"@
            }
        }),
{
    super::analyze_laws::law_counted_jobs_fit(overview);
}

} // verus!
