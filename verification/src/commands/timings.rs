//! How long the jobs of a pull request take over its runs.
use crate::durations::{compute_duration, duration_of};
use crate::models::{copy_text, Job, JobModel, RunMetadata, RunMetadataModel};
use crate::number::{decimal, decimal_text, signed_decimal, signed_decimal_text};
use crate::order::{not_before, put, put_entry, sort_stably, stably_sorted, Ranked};
use crate::seqs::{lemma_next_where, lemma_next_where_is, next_where, put_item, take_item};
use vstd::prelude::*;

verus! {

// ---------------------------------------------------------------------------
// The report
// ---------------------------------------------------------------------------

/// When a job ran in one run.
pub struct JobTiming {
    pub started_at: Option<String>,
    pub completed_at: Option<String>,
    pub duration_secs: Option<i64>,
    pub conclusion: Option<String>,
}

/// The value of a [`JobTiming`].
#[verifier::ext_equal]
pub struct JobTimingModel {
    pub started_at: Option<Seq<char>>,
    pub completed_at: Option<Seq<char>>,
    pub duration_secs: Option<i64>,
    pub conclusion: Option<Seq<char>>,
}

impl DeepView for JobTiming {
    type V = JobTimingModel;

    open spec fn deep_view(&self) -> JobTimingModel {
        JobTimingModel {
            started_at: self.started_at.deep_view(),
            completed_at: self.completed_at.deep_view(),
            duration_secs: self.duration_secs,
            conclusion: self.conclusion.deep_view(),
        }
    }
}

/// The timing of the job with this name in this run.
pub struct NamedTiming {
    pub job_name: String,
    pub run_id: String,
    pub timing: JobTiming,
}

/// The value of a [`NamedTiming`].
#[verifier::ext_equal]
pub struct NamedTimingModel {
    pub job_name: Seq<char>,
    pub run_id: Seq<char>,
    pub timing: JobTimingModel,
}

impl DeepView for NamedTiming {
    type V = NamedTimingModel;

    open spec fn deep_view(&self) -> NamedTimingModel {
        NamedTimingModel {
            job_name: self.job_name@,
            run_id: self.run_id@,
            timing: self.timing.deep_view(),
        }
    }
}

/// A job over the runs, its timings in the order of the run identifiers. The average duration is
/// `total_secs / timed_runs`; there is none if the duration is known in no run.
pub struct JobTimingAnalysis {
    pub job_name: String,
    pub runs: Vec<(String, JobTiming)>,
    pub total_secs: u128,
    pub timed_runs: usize,
    pub min_duration_secs: Option<i64>,
    pub max_duration_secs: Option<i64>,
}

/// The value of a [`JobTimingAnalysis`].
#[verifier::ext_equal]
pub struct JobTimingAnalysisModel {
    pub job_name: Seq<char>,
    pub runs: Seq<(Seq<char>, JobTimingModel)>,
    pub total_secs: nat,
    pub timed_runs: nat,
    pub min_duration_secs: Option<i64>,
    pub max_duration_secs: Option<i64>,
}

impl DeepView for JobTimingAnalysis {
    type V = JobTimingAnalysisModel;

    open spec fn deep_view(&self) -> JobTimingAnalysisModel {
        JobTimingAnalysisModel {
            job_name: self.job_name@,
            runs: self.runs.deep_view(),
            total_secs: self.total_secs as nat,
            timed_runs: self.timed_runs as nat,
            min_duration_secs: self.min_duration_secs,
            max_duration_secs: self.max_duration_secs,
        }
    }
}

/// The report on the jobs of a pull request.
pub struct TimingsReport {
    pub analyzed_at: String,
    pub pr_number: Option<u64>,
    pub runs_analyzed: Vec<String>,
    pub jobs: Vec<JobTimingAnalysis>,
}

/// The value of a [`TimingsReport`].
#[verifier::ext_equal]
pub struct TimingsReportModel {
    pub analyzed_at: Seq<char>,
    pub pr_number: Option<u64>,
    pub runs_analyzed: Seq<Seq<char>>,
    pub jobs: Seq<JobTimingAnalysisModel>,
}

impl DeepView for TimingsReport {
    type V = TimingsReportModel;

    open spec fn deep_view(&self) -> TimingsReportModel {
        TimingsReportModel {
            analyzed_at: self.analyzed_at@,
            pr_number: self.pr_number,
            runs_analyzed: self.runs_analyzed.deep_view(),
            jobs: self.jobs.deep_view(),
        }
    }
}

// ---------------------------------------------------------------------------
// The timings of the runs
// ---------------------------------------------------------------------------

/// The timing of a job in the run `run_id`.
pub open spec fn timing_of(run_id: Seq<char>, job: JobModel) -> NamedTimingModel {
    NamedTimingModel {
        job_name: job.name,
        run_id,
        timing: JobTimingModel {
            started_at: job.started_at,
            completed_at: job.completed_at,
            duration_secs: duration_of(job.started_at, job.completed_at),
            conclusion: job.conclusion,
        },
    }
}

/// The timings of the jobs of a run.
pub open spec fn run_timings(run: RunMetadataModel) -> Seq<NamedTimingModel> {
    Seq::new(run.jobs.len(), |i: int| timing_of(run.run_id, run.jobs[i]))
}

/// The timings of the jobs of the first `n` runs.
pub open spec fn timings_before(runs: Seq<RunMetadataModel>, n: int) -> Seq<NamedTimingModel>
    decreases n,
{
    if n <= 0 {
        seq![]
    } else {
        timings_before(runs, n - 1) + run_timings(runs[n - 1])
    }
}

/// Whether no duration is negative.
pub open spec fn durations_are_valid(timings: Seq<NamedTimingModel>) -> bool {
    forall|i: int|
        0 <= i < timings.len() ==> ((#[trigger] timings[i]).timing.duration_secs matches Some(
            seconds,
        ) ==> 0 <= seconds)
}

fn timing(run_id: &String, job: &Job) -> (result: NamedTiming)
    ensures
        result.deep_view() == timing_of(run_id@, job.deep_view()),
        result.timing.duration_secs matches Some(seconds) ==> 0 <= seconds,
{
    NamedTiming {
        job_name: job.name.clone(),
        run_id: run_id.clone(),
        timing: JobTiming {
            started_at: copy_text(&job.started_at),
            completed_at: copy_text(&job.completed_at),
            duration_secs: compute_duration(&job.started_at, &job.completed_at),
            conclusion: copy_text(&job.conclusion),
        },
    }
}

/// Lists when the jobs of the runs ran, run by run.
pub fn list_timings(runs: &Vec<RunMetadata>) -> (timings: Vec<NamedTiming>)
    ensures
        timings.deep_view() == timings_before(runs.deep_view(), runs@.len() as int),
        durations_are_valid(timings.deep_view()),
{
    let ghost all = runs.deep_view();
    let mut timings: Vec<NamedTiming> = Vec::new();
    let mut i: usize = 0;
    assert(timings.deep_view() =~= seq![]);
    while i < runs.len()
        invariant
            i <= runs@.len(),
            all == runs.deep_view(),
            timings.deep_view() == timings_before(all, i as int),
            durations_are_valid(timings.deep_view()),
        decreases runs@.len() - i,
    {
        let run = &runs[i];
        let ghost model = run.deep_view();
        assert(all[i as int] == model);
        let ghost start = timings.deep_view();
        let mut j: usize = 0;
        assert(timings.deep_view() =~= start + run_timings(model).take(0));
        while j < run.jobs.len()
            invariant
                j <= run.jobs@.len(),
                model == run.deep_view(),
                timings.deep_view() == start + run_timings(model).take(j as int),
                durations_are_valid(timings.deep_view()),
            decreases run.jobs@.len() - j,
        {
            let ghost before = timings.deep_view();
            assert(model.jobs[j as int] == run.jobs@[j as int].deep_view());
            let next = timing(&run.run_id, &run.jobs[j]);
            timings.push(next);
            assert(timings.deep_view() =~= before.push(next.deep_view()));
            assert(timings.deep_view() =~= start + run_timings(model).take(j + 1));
            j += 1;
        }
        assert(run_timings(model).take(j as int) =~= run_timings(model));
        i += 1;
    }
    timings
}

// ---------------------------------------------------------------------------
// The timings of a job
// ---------------------------------------------------------------------------

/// The timings of one job, in the order of the run identifiers.
pub struct JobRuns {
    pub job_name: String,
    pub runs: Vec<(String, JobTiming)>,
}

/// The value of a [`JobRuns`].
#[verifier::ext_equal]
pub struct JobRunsModel {
    pub job_name: Seq<char>,
    pub runs: Seq<(Seq<char>, JobTimingModel)>,
}

impl DeepView for JobRuns {
    type V = JobRunsModel;

    open spec fn deep_view(&self) -> JobRunsModel {
        JobRunsModel { job_name: self.job_name@, runs: self.runs.deep_view() }
    }
}

/// Holds of the timings of the job `job_name`.
pub open spec fn is_job(job_name: Seq<char>) -> spec_fn(JobRunsModel) -> bool {
    |job: JobRunsModel| job.job_name == job_name
}

/// The timings by job once one more is known.
pub open spec fn grouped_with(known: Seq<JobRunsModel>, next: NamedTimingModel) -> Seq<
    JobRunsModel,
> {
    let k = next_where(known, is_job(next.job_name), 0);
    if k < known.len() {
        known.update(
            k,
            JobRunsModel { runs: put(known[k].runs, next.run_id, next.timing), ..known[k] },
        )
    } else {
        known.push(
            JobRunsModel {
                job_name: next.job_name,
                runs: put(Seq::<(Seq<char>, JobTimingModel)>::empty(), next.run_id, next.timing),
            },
        )
    }
}

/// The first `n` timings by job, the jobs in the order in which they were first seen.
pub open spec fn grouped(timings: Seq<NamedTimingModel>, n: int) -> Seq<JobRunsModel>
    decreases n,
{
    if n <= 0 {
        seq![]
    } else {
        grouped_with(grouped(timings, n - 1), timings[n - 1])
    }
}

/// The sum of the known durations among the first `n`.
pub open spec fn total_secs(runs: Seq<(Seq<char>, JobTimingModel)>, n: int) -> int
    decreases n,
{
    if n <= 0 {
        0
    } else {
        match runs[n - 1].1.duration_secs {
            Some(seconds) => total_secs(runs, n - 1) + seconds,
            None => total_secs(runs, n - 1),
        }
    }
}

/// How many of the first `n` durations are known.
pub open spec fn timed_runs(runs: Seq<(Seq<char>, JobTimingModel)>, n: int) -> nat
    decreases n,
{
    if n <= 0 {
        0
    } else {
        match runs[n - 1].1.duration_secs {
            Some(seconds) => timed_runs(runs, n - 1) + 1,
            None => timed_runs(runs, n - 1),
        }
    }
}

/// The shortest known duration among the first `n`.
pub open spec fn shortest(runs: Seq<(Seq<char>, JobTimingModel)>, n: int) -> Option<i64>
    decreases n,
{
    if n <= 0 {
        None
    } else {
        match (shortest(runs, n - 1), runs[n - 1].1.duration_secs) {
            (Some(least), Some(seconds)) => Some(
                if seconds < least {
                    seconds
                } else {
                    least
                },
            ),
            (None, seconds) => seconds,
            (least, None) => least,
        }
    }
}

/// The longest known duration among the first `n`.
pub open spec fn longest(runs: Seq<(Seq<char>, JobTimingModel)>, n: int) -> Option<i64>
    decreases n,
{
    if n <= 0 {
        None
    } else {
        match (longest(runs, n - 1), runs[n - 1].1.duration_secs) {
            (Some(most), Some(seconds)) => Some(
                if seconds > most {
                    seconds
                } else {
                    most
                },
            ),
            (None, seconds) => seconds,
            (most, None) => most,
        }
    }
}

/// What is told of the timings of a job.
pub open spec fn analysis_of(job: JobRunsModel) -> JobTimingAnalysisModel {
    let n = job.runs.len() as int;
    JobTimingAnalysisModel {
        job_name: job.job_name,
        runs: job.runs,
        total_secs: total_secs(job.runs, n) as nat,
        timed_runs: timed_runs(job.runs, n),
        min_duration_secs: shortest(job.runs, n),
        max_duration_secs: longest(job.runs, n),
    }
}

/// What is told of the timings of all jobs, in the order in which they were first seen.
pub open spec fn analyses(timings: Seq<NamedTimingModel>) -> Seq<JobTimingAnalysisModel> {
    let jobs = grouped(timings, timings.len() as int);
    Seq::new(jobs.len(), |i: int| analysis_of(jobs[i]))
}

/// The jobs by average duration, the slowest first.
pub open spec fn jobs_by_average(timings: Seq<NamedTimingModel>) -> Seq<JobTimingAnalysisModel> {
    stably_sorted::<JobTimingAnalysis>(analyses(timings))
}

/// The identifiers of the runs.
pub open spec fn run_ids(runs: Seq<RunMetadataModel>) -> Seq<Seq<char>> {
    Seq::new(runs.len(), |i: int| runs[i].run_id)
}

/// The report on runs in their order.
pub open spec fn timings_report_of(runs: Seq<RunMetadataModel>, analyzed_at: Seq<char>) -> (
    TimingsReportModel) {
    TimingsReportModel {
        analyzed_at,
        pr_number: if runs.len() > 0 {
            runs[0].pr_number
        } else {
            None
        },
        runs_analyzed: run_ids(runs),
        jobs: jobs_by_average(timings_before(runs, runs.len() as int)),
    }
}

// ---------------------------------------------------------------------------
// The order of the jobs
// ---------------------------------------------------------------------------

/// Comparing two averages by their whole parts and then by what is left is comparing them.
proof fn lemma_compare_averages(total: int, count: int, other_total: int, other_count: int)
    requires
        total >= 0,
        other_total >= 0,
        count > 0,
        other_count > 0,
    ensures
        total * other_count >= other_total * count <==> {
            ||| total / count > other_total / other_count
            ||| total / count == other_total / other_count && (total % count) * other_count >= (
            other_total % other_count) * count
        },
{
    let q = total / count;
    let r = total % count;
    let p = other_total / other_count;
    let s = other_total % other_count;
    vstd::arithmetic::div_mod::lemma_fundamental_div_mod(total, count);
    vstd::arithmetic::div_mod::lemma_fundamental_div_mod(other_total, other_count);
    assert(0 <= r < count && 0 <= s < other_count);
    let both = count * other_count;
    assert(total * other_count == q * both + r * other_count) by (nonlinear_arith)
        requires
            total == count * q + r,
            both == count * other_count,
    ;
    assert(other_total * count == p * both + s * count) by (nonlinear_arith)
        requires
            other_total == other_count * p + s,
            both == count * other_count,
    ;
    assert(0 <= r * other_count < both) by (nonlinear_arith)
        requires
            0 <= r < count,
            other_count > 0,
            both == count * other_count,
    ;
    assert(0 <= s * count < both) by (nonlinear_arith)
        requires
            0 <= s < other_count,
            count > 0,
            both == count * other_count,
    ;
    if q > p {
        assert(q * both >= p * both + both) by (nonlinear_arith)
            requires
                q >= p + 1,
                both >= 0,
        ;
    } else if q < p {
        assert(p * both >= q * both + both) by (nonlinear_arith)
            requires
                p >= q + 1,
                both >= 0,
        ;
    }
}

impl Ranked for JobTimingAnalysis {
    open spec fn le(a: JobTimingAnalysisModel, b: JobTimingAnalysisModel) -> bool {
        ||| b.timed_runs == 0
        ||| a.timed_runs > 0 && a.total_secs * b.timed_runs >= b.total_secs * a.timed_runs
    }

    proof fn le_total(a: JobTimingAnalysisModel, b: JobTimingAnalysisModel) {
    }

    proof fn le_transitive(
        a: JobTimingAnalysisModel,
        b: JobTimingAnalysisModel,
        c: JobTimingAnalysisModel,
    ) {
        if c.timed_runs > 0 {
            assert(a.total_secs * c.timed_runs >= c.total_secs * a.timed_runs) by (nonlinear_arith)
                requires
                    a.timed_runs > 0,
                    b.timed_runs > 0,
                    c.timed_runs > 0,
                    a.total_secs * b.timed_runs >= b.total_secs * a.timed_runs,
                    b.total_secs * c.timed_runs >= c.total_secs * b.timed_runs,
            {
                assert((a.total_secs * b.timed_runs) * c.timed_runs >= (b.total_secs * a.timed_runs)
                    * c.timed_runs);
                assert((b.total_secs * c.timed_runs) * a.timed_runs >= (c.total_secs * b.timed_runs)
                    * a.timed_runs);
                assert((a.total_secs * c.timed_runs) * b.timed_runs >= (c.total_secs * a.timed_runs)
                    * b.timed_runs);
            }
        }
    }

    fn ranks_le(&self, other: &Self) -> (yes: bool) {
        if other.timed_runs == 0 {
            return true;
        }
        if self.timed_runs == 0 {
            return false;
        }
        let count: u128 = self.timed_runs as u128;
        let other_count: u128 = other.timed_runs as u128;
        let whole: u128 = self.total_secs / count;
        let other_whole: u128 = other.total_secs / other_count;
        proof {
            lemma_compare_averages(
                self.total_secs as int,
                count as int,
                other.total_secs as int,
                other_count as int,
            );
        }
        if whole != other_whole {
            return whole > other_whole;
        }
        let rest: u128 = self.total_secs % count;
        let other_rest: u128 = other.total_secs % other_count;
        assert(rest * other_count <= u128::MAX && other_rest * count <= u128::MAX) by (
            nonlinear_arith)
            requires
                0 <= rest < count <= u64::MAX,
                0 <= other_rest < other_count <= u64::MAX,
        ;
        rest * other_count >= other_rest * count
    }
}

// ---------------------------------------------------------------------------
// Building the report
// ---------------------------------------------------------------------------

/// Whether no duration of a job is negative.
pub open spec fn is_valid_job(runs: Seq<(Seq<char>, JobTimingModel)>) -> bool {
    forall|i: int|
        0 <= i < runs.len() ==> ((#[trigger] runs[i]).1.duration_secs matches Some(seconds)
            ==> 0 <= seconds)
}

/// A timing that is not negative does not make the timings of a job negative.
proof fn lemma_put_is_valid(
    runs: Seq<(Seq<char>, JobTimingModel)>,
    key: Seq<char>,
    timing: JobTimingModel,
)
    requires
        is_valid_job(runs),
        timing.duration_secs matches Some(seconds) ==> 0 <= seconds,
    ensures
        is_valid_job(put(runs, key, timing)),
{
    let p = next_where(runs, not_before(key), 0);
    let out = put(runs, key, timing);
    lemma_next_where(runs, not_before::<JobTimingModel>(key), 0);
    assert forall|i: int| 0 <= i < out.len() implies ((#[trigger] out[i]).1.duration_secs matches Some(
        seconds,
    ) ==> 0 <= seconds) by {
        if i == p {
            assert(out[i] == (key, timing));
        } else if i < p || out.len() == runs.len() {
            assert(out[i] == runs[i]);
        } else {
            assert(out[i] == runs[i - 1]);
        }
    }
}

/// Adds a timing to those of its job.
fn group(known: &mut Vec<JobRuns>, next: NamedTiming)
    requires
        forall|i: int| 0 <= i < old(known)@.len() ==> is_valid_job(
            (#[trigger] old(known).deep_view()[i]).runs,
        ),
        next.timing.duration_secs matches Some(seconds) ==> 0 <= seconds,
    ensures
        final(known).deep_view() == grouped_with(old(known).deep_view(), next.deep_view()),
        forall|i: int| 0 <= i < final(known)@.len() ==> is_valid_job(
            (#[trigger] final(known).deep_view()[i]).runs,
        ),
{
    let ghost start = known.deep_view();
    let ghost model = next.deep_view();
    let mut k: usize = 0;
    while k < known.len() && known[k].job_name != next.job_name
        invariant
            k <= known@.len(),
            start == known.deep_view(),
            model == next.deep_view(),
            forall|j: int| 0 <= j < k ==> !is_job(model.job_name)(#[trigger] start[j]),
        decreases known@.len() - k,
    {
        assert(start[k as int] == known@[k as int].deep_view());
        k += 1;
    }
    proof {
        if k < known@.len() {
            assert(start[k as int] == known@[k as int].deep_view());
        }
        lemma_next_where_is(start, is_job(model.job_name), 0, k as int);
    }
    if k < known.len() {
        let mut job = take_item(known, k);
        proof {
            lemma_put_is_valid(start[k as int].runs, model.run_id, model.timing);
        }
        put_entry(&mut job.runs, next.run_id, next.timing);
        put_item(known, k, job);
        assert(known.deep_view() =~= start.update(k as int, job.deep_view()));
    } else {
        let mut runs: Vec<(String, JobTiming)> = Vec::new();
        assert(runs.deep_view() =~= Seq::<(Seq<char>, JobTimingModel)>::empty());
        proof {
            lemma_put_is_valid(runs.deep_view(), model.run_id, model.timing);
        }
        put_entry(&mut runs, next.run_id, next.timing);
        let job = JobRuns { job_name: next.job_name, runs };
        known.push(job);
        assert(known.deep_view() =~= start.push(job.deep_view()));
    }
}

/// Tells of the timings of a job.
pub fn analyze_job(job: JobRuns) -> (analysis: JobTimingAnalysis)
    requires
        is_valid_job(job.deep_view().runs),
    ensures
        analysis.deep_view() == analysis_of(job.deep_view()),
{
    let ghost runs = job.runs.deep_view();
    let mut total: u128 = 0;
    let mut count: usize = 0;
    let mut min: Option<i64> = None;
    let mut max: Option<i64> = None;
    let mut i: usize = 0;
    while i < job.runs.len()
        invariant
            i <= job.runs@.len(),
            runs == job.runs.deep_view(),
            is_valid_job(runs),
            count <= i,
            total <= i64::MAX * i,
            total == total_secs(runs, i as int),
            count == timed_runs(runs, i as int),
            min == shortest(runs, i as int),
            max == longest(runs, i as int),
        decreases job.runs@.len() - i,
    {
        assert(runs[i as int].1 == job.runs@[i as int].1.deep_view());
        assert(i64::MAX * i + i64::MAX == i64::MAX * (i + 1));
        match job.runs[i].1.duration_secs {
            Some(seconds) => {
                total += seconds as u128;
                count += 1;
                min = match min {
                    Some(least) if least <= seconds => Some(least),
                    _ => Some(seconds),
                };
                max = match max {
                    Some(most) if most >= seconds => Some(most),
                    _ => Some(seconds),
                };
            },
            None => {},
        }
        i += 1;
    }
    JobTimingAnalysis {
        job_name: job.job_name,
        runs: job.runs,
        total_secs: total,
        timed_runs: count,
        min_duration_secs: min,
        max_duration_secs: max,
    }
}

/// Tells of the timings of all jobs, the one with the longest average duration first.
pub fn rank_jobs(timings: Vec<NamedTiming>) -> (jobs: Vec<JobTimingAnalysis>)
    requires
        durations_are_valid(timings.deep_view()),
    ensures
        jobs.deep_view() == jobs_by_average(timings.deep_view()),
{
    let ghost all = timings.deep_view();
    let mut known: Vec<JobRuns> = Vec::new();
    assert(known.deep_view() =~= seq![]);
    for next in it: timings.into_iter()
        invariant
            it.seq() == timings@,
            all == timings.deep_view(),
            durations_are_valid(all),
            known.deep_view() == grouped(all, it.index() as int),
            forall|i: int| 0 <= i < known@.len() ==> is_valid_job(
                (#[trigger] known.deep_view()[i]).runs,
            ),
    {
        assert(all[it.index() as int] == next.deep_view());
        group(&mut known, next);
    }
    let ghost groups = known.deep_view();
    let mut jobs: Vec<JobTimingAnalysis> = Vec::new();
    assert(jobs.deep_view() =~= analyses(all).take(0));
    for job in it: known.into_iter()
        invariant
            it.seq() == known@,
            groups == known.deep_view(),
            groups == grouped(all, all.len() as int),
            forall|i: int| 0 <= i < groups.len() ==> is_valid_job((#[trigger] groups[i]).runs),
            jobs.deep_view() == analyses(all).take(it.index() as int),
    {
        let ghost before = jobs.deep_view();
        assert(groups[it.index() as int] == job.deep_view());
        let analysis = analyze_job(job);
        jobs.push(analysis);
        assert(jobs.deep_view() =~= before.push(analysis.deep_view()));
        assert(jobs.deep_view() =~= analyses(all).take(it.index() + 1));
    }
    assert(analyses(all).take(groups.len() as int) =~= analyses(all));
    sort_stably(&mut jobs);
    jobs
}

/// Builds the report on runs that are in their order.
pub fn build_timings(runs: &Vec<RunMetadata>, analyzed_at: String) -> (report: TimingsReport)
    ensures
        report.deep_view() == timings_report_of(runs.deep_view(), analyzed_at@),
{
    let ghost all = runs.deep_view();
    let jobs = rank_jobs(list_timings(runs));
    let mut ids: Vec<String> = Vec::new();
    let mut i: usize = 0;
    assert(ids.deep_view() =~= run_ids(all).take(0));
    while i < runs.len()
        invariant
            i <= runs@.len(),
            all == runs.deep_view(),
            ids.deep_view() == run_ids(all).take(i as int),
        decreases runs@.len() - i,
    {
        let ghost before = ids.deep_view();
        assert(all[i as int] == runs@[i as int].deep_view());
        ids.push(runs[i].run_id.clone());
        assert(ids.deep_view() =~= before.push(all[i as int].run_id));
        assert(ids.deep_view() =~= run_ids(all).take(i + 1));
        i += 1;
    }
    assert(run_ids(all).take(i as int) =~= run_ids(all));
    let pr_number = if runs.len() > 0 {
        assert(all[0] == runs@[0].deep_view());
        runs[0].pr_number
    } else {
        None
    };
    TimingsReport { analyzed_at, pr_number, runs_analyzed: ids, jobs }
}

// ---------------------------------------------------------------------------
// Printing
// ---------------------------------------------------------------------------

/// The places among the first five jobs, and up to `n`, of those with an average.
pub open spec fn slow_places(jobs: Seq<JobTimingAnalysisModel>, n: int) -> Seq<usize>
    decreases n,
{
    if n <= 0 {
        seq![]
    } else if n <= 5 && jobs[n - 1].timed_runs > 0 {
        slow_places(jobs, n - 1).push((n - 1) as usize)
    } else {
        slow_places(jobs, n - 1)
    }
}

/// The line above the slowest jobs.
pub open spec fn slowest_header(runs: nat) -> Seq<char> {
    "Top 5 slowest jobs (by avg, "@ + decimal(runs) + " runs):"@
}

/// A duration, or zero where none is known.
pub open spec fn or_zero(seconds: Option<i64>) -> i64 {
    match seconds {
        Some(n) => n,
        None => 0,
    }
}

/// The line of a slow job, with its place and its average in whole seconds.
pub open spec fn slow_job_line(place: nat, job: JobTimingAnalysisModel, average: Seq<char>) -> Seq<
    char,
> {
    "  "@ + decimal(place) + ". "@ + job.job_name + " — avg "@ + average + "s (min "@
        + signed_decimal(or_zero(job.min_duration_secs) as int) + "s, max "@ + signed_decimal(
        or_zero(job.max_duration_secs) as int,
    ) + "s)"@
}

/// Finds the slowest jobs: the places of those among the first five that have an average.
pub fn slowest(jobs: &Vec<JobTimingAnalysis>) -> (places: Vec<usize>)
    ensures
        places@ == slow_places(jobs.deep_view(), jobs@.len() as int),
{
    let ghost all = jobs.deep_view();
    let mut places: Vec<usize> = Vec::new();
    let mut i: usize = 0;
    while i < jobs.len()
        invariant
            i <= jobs@.len(),
            all == jobs.deep_view(),
            places@ == slow_places(all, i as int),
        decreases jobs@.len() - i,
    {
        assert(all[i as int] == jobs@[i as int].deep_view());
        if i < 5 && jobs[i].timed_runs > 0 {
            places.push(i);
        }
        i += 1;
    }
    places
}

/// Writes the line above the slowest jobs.
pub fn slowest_heading(runs: usize) -> (text: String)
    ensures
        text@ == slowest_header(runs as nat),
{
    let mut text = "Top 5 slowest jobs (by avg, ".to_owned();
    text.append(decimal_text(runs as u128).as_str());
    text.append(" runs):");
    text
}

/// Writes the line of a slow job.
pub fn slow_job_text(place: usize, job: &JobTimingAnalysis, average: &str) -> (text: String)
    ensures
        text@ == slow_job_line(place as nat, job.deep_view(), average@),
{
    let min: i64 = job.min_duration_secs.unwrap_or(0);
    let max: i64 = job.max_duration_secs.unwrap_or(0);
    let mut text = "  ".to_owned();
    text.append(decimal_text(place as u128).as_str());
    text.append(". ");
    text.append(job.job_name.as_str());
    text.append(" — avg ");
    text.append(average);
    text.append("s (min ");
    text.append(signed_decimal_text(min).as_str());
    text.append("s, max ");
    text.append(signed_decimal_text(max).as_str());
    text.append("s)");
    text
}

} // verus!
