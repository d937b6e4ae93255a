//! The overview of the jobs of a run.
use crate::durations::{compute_duration, duration_of};
use crate::github::{conclusion_text, conclusion_word};
use crate::models::{
    FailedStepOverview, FailedStepOverviewModel, Job, JobModel, JobOverview, JobOverviewModel,
    RunMetadata, Step, StepModel,
};
use crate::number::{decimal, decimal_text, signed_decimal, signed_decimal_text};
use crate::order::{
    lemma_precedes_irreflexive, lemma_precedes_total, lemma_precedes_transitive, precedes,
    sort_stably, stably_sorted, text_precedes, Ranked,
};
use crate::text::{join, joined, same};
use vstd::prelude::*;

verus! {

// ---------------------------------------------------------------------------
// Building
// ---------------------------------------------------------------------------

/// The place of a conclusion in the overview: what needs attention comes first.
pub open spec fn conclusion_rank(conclusion: Seq<char>) -> u8 {
    if conclusion == "failure"@ {
        0
    } else if conclusion == "cancelled"@ {
        1
    } else if conclusion == "timed_out"@ {
        2
    } else if conclusion == "success"@ {
        3
    } else if conclusion == "skipped"@ {
        4
    } else {
        5
    }
}

/// The place of a conclusion in the overview.
pub fn conclusion_sort_key(conclusion: &str) -> (key: u8)
    ensures
        key == conclusion_rank(conclusion@),
{
    if same(conclusion, "failure") {
        0
    } else if same(conclusion, "cancelled") {
        1
    } else if same(conclusion, "timed_out") {
        2
    } else if same(conclusion, "success") {
        3
    } else if same(conclusion, "skipped") {
        4
    } else {
        5
    }
}

/// Whether a conclusion is neither success nor skipped.
pub open spec fn needs_attention(conclusion: Seq<char>) -> bool {
    conclusion != "success"@ && conclusion != "skipped"@
}

fn is_worth_a_look(conclusion: &str) -> (yes: bool)
    ensures
        yes == needs_attention(conclusion@),
{
    !same(conclusion, "success") && !same(conclusion, "skipped")
}

/// A step in the overview.
pub open spec fn step_overview(step: StepModel) -> FailedStepOverviewModel {
    FailedStepOverviewModel {
        name: step.name,
        conclusion: conclusion_word(step.conclusion),
        number: step.number,
        duration_secs: duration_of(step.started_at, step.completed_at),
    }
}

/// Those of the first `n` steps that neither succeeded nor were skipped.
pub open spec fn failed_steps(steps: Seq<StepModel>, n: int) -> Seq<FailedStepOverviewModel>
    decreases n,
{
    if n <= 0 {
        seq![]
    } else if needs_attention(conclusion_word(steps[n - 1].conclusion)) {
        failed_steps(steps, n - 1).push(step_overview(steps[n - 1]))
    } else {
        failed_steps(steps, n - 1)
    }
}

/// A job in the overview. The steps are listed of a job that neither succeeded nor was skipped.
pub open spec fn job_overview(job: JobModel) -> JobOverviewModel {
    let conclusion = conclusion_word(job.conclusion);
    JobOverviewModel {
        job_name: job.name,
        conclusion,
        duration_secs: duration_of(job.started_at, job.completed_at),
        failed_steps: if needs_attention(conclusion) {
            failed_steps(job.steps, job.steps.len() as int)
        } else {
            seq![]
        },
    }
}

/// Jobs in the overview, in the order in which they are given.
pub open spec fn job_overviews(jobs: Seq<JobModel>) -> Seq<JobOverviewModel> {
    Seq::new(jobs.len(), |i: int| job_overview(jobs[i]))
}

/// The overview of the jobs of a run: by conclusion, then by name.
pub open spec fn jobs_overview(jobs: Seq<JobModel>) -> Seq<JobOverviewModel> {
    stably_sorted::<JobOverview>(job_overviews(jobs))
}

impl Ranked for JobOverview {
    open spec fn le(a: JobOverviewModel, b: JobOverviewModel) -> bool {
        ||| conclusion_rank(a.conclusion) < conclusion_rank(b.conclusion)
        ||| conclusion_rank(a.conclusion) == conclusion_rank(b.conclusion) && !precedes(
            b.job_name,
            a.job_name,
        )
    }

    proof fn le_total(a: JobOverviewModel, b: JobOverviewModel) {
        if precedes(a.job_name, b.job_name) && precedes(b.job_name, a.job_name) {
            lemma_precedes_transitive(a.job_name, b.job_name, a.job_name);
            lemma_precedes_irreflexive(a.job_name);
        }
    }

    proof fn le_transitive(a: JobOverviewModel, b: JobOverviewModel, c: JobOverviewModel) {
        if precedes(c.job_name, a.job_name) {
            lemma_precedes_total(b.job_name, c.job_name);
            if precedes(b.job_name, c.job_name) {
                lemma_precedes_transitive(b.job_name, c.job_name, a.job_name);
            }
        }
    }

    fn ranks_le(&self, other: &Self) -> (yes: bool) {
        let mine: u8 = conclusion_sort_key(self.conclusion.as_str());
        let theirs: u8 = conclusion_sort_key(other.conclusion.as_str());
        mine < theirs || mine == theirs && !text_precedes(
            other.job_name.as_str(),
            self.job_name.as_str(),
        )
    }
}

fn list_failed_steps(steps: &Vec<Step>) -> (result: Vec<FailedStepOverview>)
    ensures
        result.deep_view() == failed_steps(steps.deep_view(), steps@.len() as int),
{
    let ghost all = steps.deep_view();
    let mut result: Vec<FailedStepOverview> = Vec::new();
    let mut i: usize = 0;
    assert(result.deep_view() =~= seq![]);
    while i < steps.len()
        invariant
            i <= steps@.len(),
            all == steps.deep_view(),
            result.deep_view() == failed_steps(all, i as int),
        decreases steps@.len() - i,
    {
        let step = &steps[i];
        assert(all[i as int] == step.deep_view());
        let conclusion = conclusion_text(&step.conclusion);
        if is_worth_a_look(conclusion.as_str()) {
            let ghost before = result.deep_view();
            let item = FailedStepOverview {
                name: step.name.clone(),
                conclusion,
                number: step.number,
                duration_secs: compute_duration(&step.started_at, &step.completed_at),
            };
            result.push(item);
            assert(item.deep_view() == step_overview(all[i as int]));
            assert(result.deep_view() =~= before.push(item.deep_view()));
        }
        i += 1;
    }
    result
}

fn overview_of_job(job: &Job) -> (result: JobOverview)
    ensures
        result.deep_view() == job_overview(job.deep_view()),
{
    let conclusion = conclusion_text(&job.conclusion);
    let failed = if is_worth_a_look(conclusion.as_str()) {
        list_failed_steps(&job.steps)
    } else {
        let none: Vec<FailedStepOverview> = Vec::new();
        assert(none.deep_view() =~= seq![]);
        none
    };
    JobOverview {
        job_name: job.name.clone(),
        conclusion,
        duration_secs: compute_duration(&job.started_at, &job.completed_at),
        failed_steps: failed,
    }
}

/// Builds the overview of the jobs of a run.
pub fn build_jobs_overview(metadata: &RunMetadata) -> (overview: Vec<JobOverview>)
    ensures
        overview.deep_view() == jobs_overview(metadata.jobs.deep_view()),
{
    let ghost all = metadata.jobs.deep_view();
    let mut overview: Vec<JobOverview> = Vec::new();
    let mut i: usize = 0;
    assert(overview.deep_view() =~= job_overviews(all).take(0));
    while i < metadata.jobs.len()
        invariant
            i <= metadata.jobs@.len(),
            all == metadata.jobs.deep_view(),
            overview.deep_view() == job_overviews(all).take(i as int),
        decreases metadata.jobs@.len() - i,
    {
        let ghost before = overview.deep_view();
        let item = overview_of_job(&metadata.jobs[i]);
        assert(item.deep_view() == job_overview(all[i as int]));
        overview.push(item);
        i += 1;
        assert(overview.deep_view() =~= before.push(item.deep_view()));
        assert(overview.deep_view() =~= job_overviews(all).take(i as int));
    }
    assert(job_overviews(all).take(i as int) =~= job_overviews(all));
    sort_stably(&mut overview);
    overview
}

// ---------------------------------------------------------------------------
// Printing
// ---------------------------------------------------------------------------

/// How many of the first `n` jobs ended with `conclusion`.
pub open spec fn count_of(overview: Seq<JobOverviewModel>, n: int, conclusion: Seq<char>) -> nat
    decreases n,
{
    if n <= 0 {
        0
    } else if overview[n - 1].conclusion == conclusion {
        count_of(overview, n - 1, conclusion) + 1
    } else {
        count_of(overview, n - 1, conclusion)
    }
}

/// How many jobs ended with `conclusion`.
pub open spec fn total_of(overview: Seq<JobOverviewModel>, conclusion: Seq<char>) -> nat {
    count_of(overview, overview.len() as int, conclusion)
}

/// How many jobs failed, were cancelled or passed.
pub open spec fn counted_jobs(overview: Seq<JobOverviewModel>) -> nat {
    total_of(overview, "failure"@) + total_of(overview, "cancelled"@) + total_of(
        overview,
        "success"@,
    )
}

/// A count with its label, unless it is zero.
pub open spec fn count_part(count: nat, label: Seq<char>) -> Seq<Seq<char>> {
    if count > 0 {
        seq![decimal(count) + label]
    } else {
        seq![]
    }
}

/// The counts in the header of the overview of `total_jobs` jobs.
pub open spec fn count_parts(overview: Seq<JobOverviewModel>, total_jobs: nat) -> Seq<Seq<char>> {
    count_part(total_of(overview, "failure"@), " failed"@) + count_part(
        total_of(overview, "cancelled"@),
        " cancelled"@,
    ) + count_part(total_of(overview, "success"@), " passed"@) + count_part(
        (total_jobs - counted_jobs(overview)) as nat,
        " other"@,
    )
}

/// How a duration follows a conclusion.
pub open spec fn duration_suffix(duration: Option<i64>) -> Seq<char> {
    match duration {
        Some(seconds) => ", "@ + signed_decimal(seconds as int) + "s"@,
        None => seq![],
    }
}

/// The line of a failed step.
pub open spec fn step_line(step: FailedStepOverviewModel) -> Seq<char> {
    "    → Step "@ + decimal(step.number as nat) + ": "@ + step.name + " ["@ + step.conclusion
        + duration_suffix(step.duration_secs) + "]\n"@
}

/// The lines of the first `n` steps.
pub open spec fn step_lines(steps: Seq<FailedStepOverviewModel>, n: int) -> Seq<char>
    decreases n,
{
    if n <= 0 {
        seq![]
    } else {
        step_lines(steps, n - 1) + step_line(steps[n - 1])
    }
}

/// The lines of a job and its failed steps.
pub open spec fn job_line(job: JobOverviewModel) -> Seq<char> {
    "  ✗ "@ + job.job_name + " ["@ + job.conclusion + duration_suffix(job.duration_secs) + "]\n"@
        + step_lines(job.failed_steps, job.failed_steps.len() as int)
}

/// The lines of those of the first `n` jobs that neither succeeded nor were skipped.
pub open spec fn job_lines(overview: Seq<JobOverviewModel>, n: int) -> Seq<char>
    decreases n,
{
    if n <= 0 {
        seq![]
    } else if needs_attention(overview[n - 1].conclusion) {
        job_lines(overview, n - 1) + job_line(overview[n - 1])
    } else {
        job_lines(overview, n - 1)
    }
}

/// The line that tells how many jobs passed, unless none did.
pub open spec fn passed_line(passed: nat) -> Seq<char> {
    if passed > 0 {
        "  ✓ "@ + decimal(passed) + " jobs passed\n"@
    } else {
        seq![]
    }
}

/// The overview as it is printed, behind an empty line.
pub open spec fn overview_text(overview: Seq<JobOverviewModel>, total_jobs: nat) -> Seq<char> {
    "\nJobs overview ("@ + decimal(total_jobs) + " total, "@ + joined(
        count_parts(overview, total_jobs),
        ", "@,
    ) + "):\n"@ + job_lines(overview, overview.len() as int) + passed_line(
        total_of(overview, "success"@),
    )
}

/// Counts the jobs that ended with `conclusion`.
pub fn count_jobs(overview: &Vec<JobOverview>, conclusion: &str) -> (count: usize)
    ensures
        count == total_of(overview.deep_view(), conclusion@),
        count <= overview@.len(),
{
    let ghost all = overview.deep_view();
    let mut count: usize = 0;
    let mut i: usize = 0;
    while i < overview.len()
        invariant
            i <= overview@.len(),
            all == overview.deep_view(),
            count <= i,
            count == count_of(all, i as int, conclusion@),
        decreases overview@.len() - i,
    {
        assert(all[i as int] == overview@[i as int].deep_view());
        if same(overview[i].conclusion.as_str(), conclusion) {
            count += 1;
        }
        i += 1;
    }
    count
}

fn push_count(parts: &mut Vec<String>, count: usize, label: &str)
    ensures
        final(parts).deep_view() == old(parts).deep_view() + count_part(count as nat, label@),
{
    let ghost before = parts.deep_view();
    if count > 0 {
        let mut part = decimal_text(count as u128);
        part.append(label);
        parts.push(part);
        assert(parts.deep_view() =~= before + seq![part@]);
    } else {
        assert(parts.deep_view() =~= before + seq![]);
    }
}

fn append_duration(text: &mut String, duration: Option<i64>)
    ensures
        final(text)@ == old(text)@ + duration_suffix(duration),
{
    let ghost before = text@;
    match duration {
        Some(seconds) => {
            let digits = signed_decimal_text(seconds);
            text.append(", ");
            text.append(digits.as_str());
            text.append("s");
            assert(text@ =~= before + (", "@ + digits@ + "s"@));
        },
        None => {
            assert(text@ =~= before + seq![]);
        },
    }
}

fn step_text(step: &FailedStepOverview) -> (text: String)
    ensures
        text@ == step_line(step.deep_view()),
{
    let mut text = "    → Step ".to_owned();
    text.append(decimal_text(step.number as u128).as_str());
    text.append(": ");
    text.append(step.name.as_str());
    text.append(" [");
    text.append(step.conclusion.as_str());
    append_duration(&mut text, step.duration_secs);
    text.append("]\n");
    text
}

fn job_text(job: &JobOverview) -> (text: String)
    ensures
        text@ == job_line(job.deep_view()),
{
    let ghost steps = job.failed_steps.deep_view();
    let mut text = "  ✗ ".to_owned();
    text.append(job.job_name.as_str());
    text.append(" [");
    text.append(job.conclusion.as_str());
    append_duration(&mut text, job.duration_secs);
    text.append("]\n");
    let ghost head = text@;
    let mut i: usize = 0;
    assert(head + seq![] =~= head);
    while i < job.failed_steps.len()
        invariant
            i <= job.failed_steps@.len(),
            steps == job.failed_steps.deep_view(),
            text@ == head + step_lines(steps, i as int),
        decreases job.failed_steps@.len() - i,
    {
        assert(steps[i as int] == job.failed_steps@[i as int].deep_view());
        let line = step_text(&job.failed_steps[i]);
        text.append(line.as_str());
        assert(text@ =~= head + (step_lines(steps, i as int) + line@));
        i += 1;
    }
    text
}

/// Writes the overview as it is printed.
pub fn print_jobs_overview(overview: &Vec<JobOverview>, total_jobs: usize) -> (text: String)
    requires
        counted_jobs(overview.deep_view()) <= total_jobs,
    ensures
        text@ == overview_text(overview.deep_view(), total_jobs as nat),
{
    let ghost all = overview.deep_view();
    let failed: usize = count_jobs(overview, "failure");
    let cancelled: usize = count_jobs(overview, "cancelled");
    let passed: usize = count_jobs(overview, "success");
    let mut parts: Vec<String> = Vec::new();
    assert(parts.deep_view() =~= seq![]);
    push_count(&mut parts, failed, " failed");
    push_count(&mut parts, cancelled, " cancelled");
    push_count(&mut parts, passed, " passed");
    let other: usize = total_jobs - failed - cancelled - passed;
    push_count(&mut parts, other, " other");
    assert(parts.deep_view() =~= count_parts(all, total_jobs as nat));
    let mut text = "\nJobs overview (".to_owned();
    text.append(decimal_text(total_jobs as u128).as_str());
    text.append(" total, ");
    text.append(join(&parts, ", ").as_str());
    text.append("):\n");
    let ghost head = text@;
    let mut i: usize = 0;
    assert(head + seq![] =~= head);
    while i < overview.len()
        invariant
            i <= overview@.len(),
            all == overview.deep_view(),
            text@ == head + job_lines(all, i as int),
        decreases overview@.len() - i,
    {
        let job = &overview[i];
        assert(all[i as int] == job.deep_view());
        if is_worth_a_look(job.conclusion.as_str()) {
            let lines = job_text(job);
            text.append(lines.as_str());
            assert(text@ =~= head + (job_lines(all, i as int) + lines@));
        }
        i += 1;
    }
    let ghost body = text@;
    if passed > 0 {
        let digits = decimal_text(passed as u128);
        text.append("  ✓ ");
        text.append(digits.as_str());
        text.append(" jobs passed\n");
        assert(text@ =~= body + ("  ✓ "@ + digits@ + " jobs passed\n"@));
    } else {
        assert(text@ =~= body + seq![]);
    }
    text
}

} // verus!
