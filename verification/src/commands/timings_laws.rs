//! What the report on the timings keeps of the timings.
use super::timings::{
    analyses, analysis_of, grouped, is_job, is_valid_job, jobs_by_average, longest, run_timings,
    shortest, slow_job_line, slow_places, slowest_header, timed_runs, timings_before, timings_report_of, total_secs, JobRunsModel,
    JobTimingAnalysis, JobTimingAnalysisModel, JobTimingModel, NamedTimingModel,
};
use crate::durations::{is_distance, law_duration_is_the_distance};
use crate::models::{JobModel, RunMetadataModel};
use crate::number::{decimal, signed_decimal};
use crate::order::{
    ascending, holds, in_order, lemma_put, lemma_sorting_keeps_members, lemma_sorting_keeps_values,
    lemma_sorting_orders, put, Ranked,
};
use crate::seqs::{lemma_next_where, next_where};
use vstd::prelude::*;

verus! {

// ---------------------------------------------------------------------------
// The durations of a job
// ---------------------------------------------------------------------------

/// Whether `seconds` is the duration of a job in one of the first `n` runs.
pub open spec fn is_duration(runs: Seq<(Seq<char>, JobTimingModel)>, n: int, seconds: i64) -> bool {
    exists|i: int| 0 <= i < n && (#[trigger] runs[i]).1.duration_secs == Some(seconds)
}

proof fn lemma_extremes(runs: Seq<(Seq<char>, JobTimingModel)>, n: int)
    requires
        0 <= n <= runs.len(),
    ensures
        match (shortest(runs, n), longest(runs, n)) {
            (Some(min), Some(max)) => {
                &&& is_duration(runs, n, min)
                &&& is_duration(runs, n, max)
                &&& forall|seconds: i64| #[trigger]
                    is_duration(runs, n, seconds) ==> min <= seconds <= max
                &&& timed_runs(runs, n) > 0
                &&& min * timed_runs(runs, n) <= total_secs(runs, n) <= max * timed_runs(runs, n)
            },
            (None, None) => {
                &&& forall|seconds: i64| !(#[trigger] is_duration(runs, n, seconds))
                &&& timed_runs(runs, n) == 0
                &&& total_secs(runs, n) == 0
            },
            _ => false,
        },
    decreases n,
{
    if n > 0 {
        lemma_extremes(runs, n - 1);
        assert forall|seconds: i64| #[trigger] is_duration(runs, n, seconds) <==> is_duration(
            runs,
            n - 1,
            seconds,
        ) || runs[n - 1].1.duration_secs == Some(seconds) by {
            if is_duration(runs, n - 1, seconds) {
                let i = choose|i: int|
                    0 <= i < n - 1 && (#[trigger] runs[i]).1.duration_secs == Some(seconds);
                assert(0 <= i < n && runs[i].1.duration_secs == Some(seconds));
            }
        }
        match (shortest(runs, n - 1), longest(runs, n - 1), runs[n - 1].1.duration_secs) {
            (Some(min), Some(max), Some(seconds)) => {
                let count = timed_runs(runs, n - 1);
                let total = total_secs(runs, n - 1);
                let low = shortest(runs, n)->0;
                let high = longest(runs, n)->0;
                assert(low * (count + 1) <= total + seconds) by (nonlinear_arith)
                    requires
                        low <= min,
                        low <= seconds,
                        min * count <= total,
                ;
                assert(total + seconds <= high * (count + 1)) by (nonlinear_arith)
                    requires
                        max <= high,
                        seconds <= high,
                        total <= max * count,
                ;
            },
            (None, None, Some(seconds)) => {
                assert(runs[n - 1].1.duration_secs == Some(seconds));
                assert(is_duration(runs, n, seconds));
                assert(timed_runs(runs, n) == 1);
                assert(seconds * timed_runs(runs, n) == seconds);
            },
            _ => {},
        }
    }
}

/// The shortest and the longest duration of a job are durations of it, every other lies between
/// them, and so does the average.
pub proof fn law_average_lies_between(job: JobRunsModel)
    requires
        is_valid_job(job.runs),
    ensures
        match (analysis_of(job).min_duration_secs, analysis_of(job).max_duration_secs) {
            (Some(min), Some(max)) => {
                let told = analysis_of(job);
                let n = job.runs.len() as int;
                &&& is_duration(job.runs, n, min)
                &&& is_duration(job.runs, n, max)
                &&& forall|seconds: i64| #[trigger]
                    is_duration(job.runs, n, seconds) ==> min <= seconds <= max
                &&& told.timed_runs > 0
                &&& min * told.timed_runs <= told.total_secs <= max * told.timed_runs
            },
            (None, None) => {
                &&& analysis_of(job).timed_runs == 0
                &&& forall|seconds: i64|
                    !(#[trigger] is_duration(job.runs, job.runs.len() as int, seconds))
            },
            _ => false,
        },
{
    let n = job.runs.len() as int;
    lemma_extremes(job.runs, n);
    lemma_total_is_valid(job.runs, n);
}

proof fn lemma_total_is_valid(runs: Seq<(Seq<char>, JobTimingModel)>, n: int)
    requires
        0 <= n <= runs.len(),
        is_valid_job(runs),
    ensures
        total_secs(runs, n) >= 0,
    decreases n,
{
    if n > 0 {
        lemma_total_is_valid(runs, n - 1);
        assert(runs[n - 1].1.duration_secs matches Some(seconds) ==> 0 <= seconds);
    }
}

// ---------------------------------------------------------------------------
// The timings by job
// ---------------------------------------------------------------------------

/// Whether the timing `i` is the last of its job and run among the first `n`.
pub open spec fn is_latest(timings: Seq<NamedTimingModel>, n: int, i: int) -> bool {
    &&& 0 <= i < n
    &&& forall|j: int|
        i < j < n ==> !((#[trigger] timings[j]).job_name == timings[i].job_name && timings[j].run_id
            == timings[i].run_id)
}

/// Whether `timing` is the last of the job and run among the first `n`.
pub open spec fn is_latest_timing(
    timings: Seq<NamedTimingModel>,
    n: int,
    job_name: Seq<char>,
    run_id: Seq<char>,
    timing: JobTimingModel,
) -> bool {
    exists|i: int| #[trigger]
        is_latest(timings, n, i) && timings[i] == (NamedTimingModel { job_name, run_id, timing })
}

/// Whether the jobs have different names.
pub open spec fn jobs_differ(jobs: Seq<JobRunsModel>) -> bool {
    forall|a: int, b: int|
        0 <= a < b < jobs.len() ==> (#[trigger] jobs[a]).job_name != (#[trigger] jobs[b]).job_name
}

/// Whether `timing` is what is listed for the job in the run.
pub open spec fn is_grouped(
    jobs: Seq<JobRunsModel>,
    job_name: Seq<char>,
    run_id: Seq<char>,
    timing: JobTimingModel,
) -> bool {
    exists|k: int|
        0 <= k < jobs.len() && (#[trigger] jobs[k]).job_name == job_name && holds(
            jobs[k].runs,
            run_id,
            timing,
        )
}

/// A later timing replaces what was the latest of its job and run, and nothing else.
proof fn lemma_latest_step(
    timings: Seq<NamedTimingModel>,
    n: int,
    job_name: Seq<char>,
    run_id: Seq<char>,
    timing: JobTimingModel,
)
    requires
        0 < n <= timings.len(),
    ensures
        is_latest_timing(timings, n, job_name, run_id, timing) <==> {
            let next = timings[n - 1];
            if next.job_name == job_name && next.run_id == run_id {
                next.timing == timing
            } else {
                is_latest_timing(timings, n - 1, job_name, run_id, timing)
            }
        },
{
    let next = timings[n - 1];
    let wanted = NamedTimingModel { job_name, run_id, timing };
    if is_latest_timing(timings, n, job_name, run_id, timing) {
        let i = choose|i: int| #[trigger] is_latest(timings, n, i) && timings[i] == wanted;
        if next.job_name == job_name && next.run_id == run_id {
            if i < n - 1 {
                assert(!(timings[n - 1].job_name == timings[i].job_name && timings[n - 1].run_id
                    == timings[i].run_id));
            }
        } else {
            assert(is_latest(timings, n - 1, i));
        }
    }
    if next.job_name == job_name && next.run_id == run_id {
        if next.timing == timing {
            assert(is_latest(timings, n, n - 1));
            assert(timings[n - 1] == wanted);
        }
    } else if is_latest_timing(timings, n - 1, job_name, run_id, timing) {
        let i = choose|i: int| #[trigger] is_latest(timings, n - 1, i) && timings[i] == wanted;
        assert(is_latest(timings, n, i));
    }
}

proof fn lemma_grouped(timings: Seq<NamedTimingModel>, n: int)
    requires
        0 <= n <= timings.len(),
    ensures
        jobs_differ(grouped(timings, n)),
        forall|k: int|
            0 <= k < grouped(timings, n).len() ==> ascending((#[trigger] grouped(timings, n)[k]).runs),
        forall|job_name: Seq<char>, run_id: Seq<char>, timing: JobTimingModel| #[trigger]
            is_grouped(grouped(timings, n), job_name, run_id, timing) <==> is_latest_timing(
                timings,
                n,
                job_name,
                run_id,
                timing,
            ),
    decreases n,
{
    let jobs = grouped(timings, n);
    if n > 0 {
        let known = grouped(timings, n - 1);
        let next = timings[n - 1];
        let p = next_where(known, is_job(next.job_name), 0);
        let base = if p < known.len() {
            known[p].runs
        } else {
            Seq::<(Seq<char>, JobTimingModel)>::empty()
        };
        lemma_grouped(timings, n - 1);
        lemma_next_where(known, is_job(next.job_name), 0);
        lemma_put(base, next.run_id, next.timing);
        assert forall|k: int| 0 <= k < known.len() && k != p implies (
        #[trigger] known[k]).job_name != next.job_name && jobs[k] == known[k] by {
            if p < known.len() {
                assert(is_job(next.job_name)(known[p]));
                if k < p {
                    assert(known[k].job_name != known[p].job_name);
                } else {
                    assert(known[p].job_name != known[k].job_name);
                }
            } else {
                assert(!is_job(next.job_name)(known[k]));
            }
        }
        if p < known.len() {
            assert(is_job(next.job_name)(known[p]));
        }
        assert(jobs[p].job_name == next.job_name);
        assert(jobs[p].runs == put(base, next.run_id, next.timing));
        assert forall|job_name: Seq<char>, run_id: Seq<char>, timing: JobTimingModel| #[trigger]
            is_grouped(jobs, job_name, run_id, timing) <==> is_latest_timing(
                timings,
                n,
                job_name,
                run_id,
                timing,
            ) by {
            lemma_latest_step(timings, n, job_name, run_id, timing);
            assert(is_grouped(known, job_name, run_id, timing) <==> is_latest_timing(
                timings,
                n - 1,
                job_name,
                run_id,
                timing,
            ));
            if job_name == next.job_name {
                assert(is_grouped(jobs, job_name, run_id, timing) <==> holds(
                    jobs[p].runs,
                    run_id,
                    timing,
                ));
                assert(is_grouped(known, job_name, run_id, timing) <==> holds(
                    base,
                    run_id,
                    timing,
                ));
            } else {
                if is_grouped(jobs, job_name, run_id, timing) {
                    let k = choose|k: int|
                        0 <= k < jobs.len() && (#[trigger] jobs[k]).job_name == job_name && holds(
                            jobs[k].runs,
                            run_id,
                            timing,
                        );
                    assert(known[k].job_name == job_name);
                }
                if is_grouped(known, job_name, run_id, timing) {
                    let k = choose|k: int|
                        0 <= k < known.len() && (#[trigger] known[k]).job_name == job_name && holds(
                            known[k].runs,
                            run_id,
                            timing,
                        );
                    assert(jobs[k].job_name == job_name);
                }
            }
        }
    } else {
        assert forall|job_name: Seq<char>, run_id: Seq<char>, timing: JobTimingModel|
            !(#[trigger] is_grouped(jobs, job_name, run_id, timing)) && !is_latest_timing(
                timings,
                n,
                job_name,
                run_id,
                timing,
            ) by {}
    }
}

/// Whether `timing` is what the report lists for the job in the run.
pub open spec fn is_reported(
    jobs: Seq<JobTimingAnalysisModel>,
    job_name: Seq<char>,
    run_id: Seq<char>,
    timing: JobTimingModel,
) -> bool {
    exists|k: int|
        0 <= k < jobs.len() && (#[trigger] jobs[k]).job_name == job_name && holds(
            jobs[k].runs,
            run_id,
            timing,
        )
}

/// For a job and a run, the report lists the last timing that there is for the two, and nothing
/// else.
pub proof fn law_timings_are_kept(
    timings: Seq<NamedTimingModel>,
    job_name: Seq<char>,
    run_id: Seq<char>,
    timing: JobTimingModel,
)
    ensures
        is_reported(jobs_by_average(timings), job_name, run_id, timing) <==> is_latest_timing(
            timings,
            timings.len() as int,
            job_name,
            run_id,
            timing,
        ),
{
    let n = timings.len() as int;
    let jobs = grouped(timings, n);
    let told = analyses(timings);
    let sorted = jobs_by_average(timings);
    lemma_grouped(timings, n);
    assert(is_grouped(jobs, job_name, run_id, timing) <==> is_latest_timing(
        timings,
        n,
        job_name,
        run_id,
        timing,
    ));
    if is_reported(sorted, job_name, run_id, timing) {
        let k = choose|k: int|
            0 <= k < sorted.len() && (#[trigger] sorted[k]).job_name == job_name && holds(
                sorted[k].runs,
                run_id,
                timing,
            );
        lemma_sorting_keeps_members::<JobTimingAnalysis>(told, sorted[k]);
        let i = choose|i: int| 0 <= i < told.len() && told[i] == sorted[k];
        assert(jobs[i].job_name == job_name);
    }
    if is_grouped(jobs, job_name, run_id, timing) {
        let i = choose|i: int|
            0 <= i < jobs.len() && (#[trigger] jobs[i]).job_name == job_name && holds(
                jobs[i].runs,
                run_id,
                timing,
            );
        assert(told[i].job_name == job_name);
        lemma_sorting_keeps_members::<JobTimingAnalysis>(told, told[i]);
        let k = choose|k: int| 0 <= k < sorted.len() && sorted[k] == told[i];
        assert(sorted[k].job_name == job_name);
    }
}

/// The report has one entry for a job, lists its runs by identifier, and lists the jobs by average
/// duration, the slowest first and those without an average last.
pub proof fn law_jobs_are_in_order(timings: Seq<NamedTimingModel>)
    ensures
        in_order::<JobTimingAnalysis>(jobs_by_average(timings)),
        forall|a: int, b: int|
            0 <= a < b < jobs_by_average(timings).len() ==> (
            #[trigger] jobs_by_average(timings)[a]).job_name != (
            #[trigger] jobs_by_average(timings)[b]).job_name,
        forall|k: int|
            0 <= k < jobs_by_average(timings).len() ==> ascending(
                (#[trigger] jobs_by_average(timings)[k]).runs,
            ),
{
    let n = timings.len() as int;
    let jobs = grouped(timings, n);
    let told = analyses(timings);
    let sorted = jobs_by_average(timings);
    lemma_grouped(timings, n);
    lemma_sorting_orders::<JobTimingAnalysis>(told);
    lemma_sorting_keeps_values::<JobTimingAnalysis>(told);
    assert(told.no_duplicates()) by {
        assert forall|i: int, j: int| 0 <= i < told.len() && 0 <= j < told.len() && i
            != j implies told[i] != told[j] by {
            assert(told[i].job_name == jobs[i].job_name);
            assert(told[j].job_name == jobs[j].job_name);
        }
    }
    told.lemma_multiset_has_no_duplicates();
    sorted.lemma_multiset_has_no_duplicates_conv();
    assert forall|a: int, b: int| 0 <= a < b < sorted.len() implies (
    #[trigger] sorted[a]).job_name != (#[trigger] sorted[b]).job_name by {
        lemma_sorting_keeps_members::<JobTimingAnalysis>(told, sorted[a]);
        lemma_sorting_keeps_members::<JobTimingAnalysis>(told, sorted[b]);
        let i = choose|i: int| 0 <= i < told.len() && told[i] == sorted[a];
        let j = choose|j: int| 0 <= j < told.len() && told[j] == sorted[b];
        assert(jobs[i].job_name == sorted[a].job_name);
        assert(jobs[j].job_name == sorted[b].job_name);
        assert(i != j);
    }
    assert forall|k: int| 0 <= k < sorted.len() implies ascending((#[trigger] sorted[k]).runs) by {
        lemma_sorting_keeps_members::<JobTimingAnalysis>(told, sorted[k]);
        let i = choose|i: int| 0 <= i < told.len() && told[i] == sorted[k];
        assert(jobs[i].runs == sorted[k].runs);
    }
}

proof fn lemma_slow_places(jobs: Seq<JobTimingAnalysisModel>, n: int, place: usize)
    requires
        0 <= n <= jobs.len(),
    ensures
        slow_places(jobs, n).contains(place) <==> place < n && place < 5
            && jobs[place as int].timed_runs > 0,
    decreases n,
{
    if n > 0 {
        lemma_slow_places(jobs, n - 1, place);
        let before = slow_places(jobs, n - 1);
        let places = slow_places(jobs, n);
        if n <= 5 && jobs[n - 1].timed_runs > 0 {
            assert(places == before.push((n - 1) as usize));
            if places.contains(place) {
                let i = choose|i: int| 0 <= i < places.len() && places[i] == place;
                if i < before.len() {
                    assert(before[i] == place);
                }
            }
            if before.contains(place) {
                let i = choose|i: int| 0 <= i < before.len() && before[i] == place;
                assert(places[i] == place);
            }
            if place == n - 1 {
                assert(places[before.len() as int] == place);
            }
        }
    }
}

/// The jobs that are listed as the slowest have an average, and no other job has a longer one.
pub proof fn law_the_slowest_jobs_are_listed(
    timings: Seq<NamedTimingModel>,
    place: usize,
    other: usize,
)
    requires
        ({
            let jobs = jobs_by_average(timings);
            let places = slow_places(jobs, jobs.len() as int);
            &&& places.contains(place)
            &&& other < jobs.len()
            &&& !places.contains(other)
        }),
    ensures
        jobs_by_average(timings)[place as int].timed_runs > 0,
        JobTimingAnalysis::le(
            jobs_by_average(timings)[place as int],
            jobs_by_average(timings)[other as int],
        ),
{
    let jobs = jobs_by_average(timings);
    let n = jobs.len() as int;
    law_jobs_are_in_order(timings);
    lemma_slow_places(jobs, n, place);
    lemma_slow_places(jobs, n, other);
    if jobs[other as int].timed_runs > 0 {
        assert(place < other);
    }
}

/// The places of the slowest jobs come in their order, and are those of the first five jobs that
/// have an average.
pub proof fn law_slow_places_are_in_order(jobs: Seq<JobTimingAnalysisModel>)
    requires
        jobs.len() <= usize::MAX,
    ensures
        ({
            let places = slow_places(jobs, jobs.len() as int);
            &&& forall|i: int, j: int| 0 <= i < j < places.len() ==> places[i] < places[j]
            &&& forall|place: usize| #[trigger]
                places.contains(place) <==> place < 5 && place < jobs.len()
                    && jobs[place as int].timed_runs != 0
        }),
{
    let places = slow_places(jobs, jobs.len() as int);
    lemma_slow_places_ascend(jobs, jobs.len() as int);
    assert forall|place: usize| #[trigger]
        places.contains(place) <==> place < 5 && place < jobs.len()
            && jobs[place as int].timed_runs != 0 by {
        lemma_slow_places(jobs, jobs.len() as int, place);
    }
}

proof fn lemma_slow_places_ascend(jobs: Seq<JobTimingAnalysisModel>, n: int)
    requires
        0 <= n <= jobs.len() <= usize::MAX,
    ensures
        ({
            let places = slow_places(jobs, n);
            &&& forall|i: int, j: int| 0 <= i < j < places.len() ==> places[i] < places[j]
            &&& forall|i: int| 0 <= i < places.len() ==> #[trigger] places[i] < n
        }),
    decreases n,
{
    if n > 0 {
        lemma_slow_places_ascend(jobs, n - 1);
        let before = slow_places(jobs, n - 1);
        let places = slow_places(jobs, n);
        assert forall|i: int| 0 <= i < places.len() implies #[trigger] places[i] < n by {
            if i < before.len() {
                assert(places[i] == before[i]);
            }
        }
        assert forall|i: int, j: int| 0 <= i < j < places.len() implies places[i] < places[j] by {
            assert(places[i] == before[i]);
            if j < before.len() {
                assert(places[j] == before[j]);
            }
        }
    }
}

// ---------------------------------------------------------------------------
// From the runs to the report
// ---------------------------------------------------------------------------

/// How many jobs the first `n` runs have.
pub open spec fn jobs_before(runs: Seq<RunMetadataModel>, n: int) -> int
    decreases n,
{
    if n <= 0 {
        0
    } else {
        jobs_before(runs, n - 1) + runs[n - 1].jobs.len()
    }
}

/// Whether a timing is that of the job.
pub open spec fn is_timing_of(timing: JobTimingModel, job: JobModel) -> bool {
    &&& timing.started_at == job.started_at
    &&& timing.completed_at == job.completed_at
    &&& timing.conclusion == job.conclusion
    &&& is_distance(job.started_at, job.completed_at, timing.duration_secs)
}

proof fn lemma_listed(runs: Seq<RunMetadataModel>, n: int, r: int, q: int)
    requires
        0 <= n <= runs.len(),
    ensures
        timings_before(runs, n).len() == jobs_before(runs, n),
        0 <= r < n && 0 <= q < runs[r].jobs.len() ==> ({
            let k = jobs_before(runs, r) + q;
            let listed = timings_before(runs, n)[k];
            &&& 0 <= k < jobs_before(runs, n)
            &&& listed.job_name == runs[r].jobs[q].name
            &&& listed.run_id == runs[r].run_id
            &&& is_timing_of(listed.timing, runs[r].jobs[q])
        }),
    decreases n,
{
    if n > 0 {
        lemma_listed(runs, n - 1, r, q);
        let own = run_timings(runs[n - 1]);
        if r == n - 1 && 0 <= q < runs[r].jobs.len() {
            let job = runs[r].jobs[q];
            lemma_listed(runs, n - 1, -1, 0);
            assert(timings_before(runs, n)[jobs_before(runs, r) + q] == own[q]);
            law_duration_is_the_distance(job.started_at, job.completed_at);
            lemma_jobs_before(runs, r);
        }
    }
}

proof fn lemma_jobs_before(runs: Seq<RunMetadataModel>, n: int)
    ensures
        jobs_before(runs, n) >= 0,
    decreases n,
{
    if n > 0 {
        lemma_jobs_before(runs, n - 1);
    }
}

/// Every job of every run is listed, run by run and in the order of the jobs, whatever its
/// conclusion: with its name, the run, its start, its end and its conclusion, and as its duration
/// the distance between the two times, if both can be read.
pub proof fn law_every_job_is_timed(runs: Seq<RunMetadataModel>, r: int, q: int)
    requires
        0 <= r < runs.len(),
        0 <= q < runs[r].jobs.len(),
    ensures
        ({
            let listed = timings_before(runs, runs.len() as int);
            let k = jobs_before(runs, r) + q;
            &&& listed.len() == jobs_before(runs, runs.len() as int)
            &&& 0 <= k < listed.len()
            &&& listed[k].job_name == runs[r].jobs[q].name
            &&& listed[k].run_id == runs[r].run_id
            &&& listed[k].timing.started_at == runs[r].jobs[q].started_at
            &&& listed[k].timing.completed_at == runs[r].jobs[q].completed_at
            &&& listed[k].timing.conclusion == runs[r].jobs[q].conclusion
            &&& is_distance(
                runs[r].jobs[q].started_at,
                runs[r].jobs[q].completed_at,
                listed[k].timing.duration_secs,
            )
        }),
{
    lemma_listed(runs, runs.len() as int, r, q);
}

/// Where the timing `k` comes from.
proof fn lemma_origin(runs: Seq<RunMetadataModel>, n: int, k: int) -> (origin: (int, int))
    requires
        0 <= n <= runs.len(),
        0 <= k < jobs_before(runs, n),
    ensures
        0 <= origin.0 < n,
        0 <= origin.1 < runs[origin.0].jobs.len(),
        k == jobs_before(runs, origin.0) + origin.1,
    decreases n,
{
    if k < jobs_before(runs, n - 1) {
        lemma_origin(runs, n - 1, k)
    } else {
        (n - 1, k - jobs_before(runs, n - 1))
    }
}

/// Whether a job comes behind another in the order of the runs and of their jobs.
pub open spec fn comes_behind(r: int, q: int, other_r: int, other_q: int) -> bool {
    r < other_r || r == other_r && q < other_q
}

proof fn lemma_behind(runs: Seq<RunMetadataModel>, r: int, q: int, m: int)
    requires
        0 <= r < m <= runs.len(),
        0 <= q < runs[r].jobs.len(),
    ensures
        jobs_before(runs, r) + q < jobs_before(runs, m),
    decreases m,
{
    lemma_jobs_before(runs, r);
    if r < m - 1 {
        lemma_behind(runs, r, q, m - 1);
    }
}

/// The report lists every job of every run under its name and the run, unless the run has another
/// job of that name behind it, or comes again with one: with the start, the end, the conclusion and
/// the duration of the job.
pub proof fn law_every_job_is_reported(
    runs: Seq<RunMetadataModel>,
    analyzed_at: Seq<char>,
    r: int,
    q: int,
)
    requires
        0 <= r < runs.len(),
        0 <= q < runs[r].jobs.len(),
        forall|s: int, p: int|
            r <= s < runs.len() && 0 <= p < runs[s].jobs.len() && comes_behind(r, q, s, p) ==> (
            runs[s].run_id != runs[r].run_id || (#[trigger] runs[s].jobs[p]).name
                != runs[r].jobs[q].name),
    ensures
        exists|timing: JobTimingModel|
            #![trigger is_timing_of(timing, runs[r].jobs[q])]
            is_timing_of(timing, runs[r].jobs[q]) && is_reported(
                timings_report_of(runs, analyzed_at).jobs,
                runs[r].jobs[q].name,
                runs[r].run_id,
                timing,
            ),
{
    let n = runs.len() as int;
    let timings = timings_before(runs, n);
    let k = jobs_before(runs, r) + q;
    law_every_job_is_timed(runs, r, q);
    let timing = timings[k].timing;
    assert(is_latest(timings, timings.len() as int, k)) by {
        assert forall|j: int| k < j < timings.len() implies !((#[trigger] timings[j]).job_name
            == timings[k].job_name && timings[j].run_id == timings[k].run_id) by {
            let (s, p) = lemma_origin(runs, n, j);
            lemma_listed(runs, n, s, p);
            if s < r {
                lemma_behind(runs, s, p, r);
            }
            assert(comes_behind(r, q, s, p));
            assert(runs[s].run_id != runs[r].run_id || runs[s].jobs[p].name
                != runs[r].jobs[q].name);
        }
    }
    let wanted = NamedTimingModel {
        job_name: runs[r].jobs[q].name,
        run_id: runs[r].run_id,
        timing,
    };
    assert(timings[k] == wanted);
    law_timings_are_kept(timings, wanted.job_name, wanted.run_id, timing);
    assert(is_timing_of(timing, runs[r].jobs[q]));
}

/// The report says when it was made, which runs it is about, in their order, and the pull request
/// of the first of them.
pub proof fn law_report_names_its_runs(runs: Seq<RunMetadataModel>, analyzed_at: Seq<char>)
    ensures
        ({
            let report = timings_report_of(runs, analyzed_at);
            &&& report.analyzed_at == analyzed_at
            &&& report.runs_analyzed.len() == runs.len()
            &&& forall|i: int|
                0 <= i < runs.len() ==> #[trigger] report.runs_analyzed[i] == runs[i].run_id
            &&& runs.len() == 0 ==> report.pr_number is None
            &&& runs.len() > 0 ==> report.pr_number == runs.first().pr_number
        }),
{
}

/// The jobs of a report come by their average duration, the longest first, and jobs without one come
/// last.
pub proof fn law_slower_jobs_come_first(
    runs: Seq<RunMetadataModel>,
    analyzed_at: Seq<char>,
    a: int,
    b: int,
)
    requires
        0 <= a < b < timings_report_of(runs, analyzed_at).jobs.len(),
    ensures
        ({
            let jobs = timings_report_of(runs, analyzed_at).jobs;
            &&& jobs[b].timed_runs > 0 ==> jobs[a].timed_runs > 0
            &&& jobs[b].timed_runs > 0 ==> jobs[a].total_secs * jobs[b].timed_runs
                >= jobs[b].total_secs * jobs[a].timed_runs
        }),
{
    let jobs = timings_report_of(runs, analyzed_at).jobs;
    law_jobs_are_in_order(timings_before(runs, runs.len() as int));
    assert(JobTimingAnalysis::le(jobs[a], jobs[b]));
}

proof fn lemma_sums(
    first: Seq<(Seq<char>, JobTimingModel)>,
    second: Seq<(Seq<char>, JobTimingModel)>,
    n: int,
)
    requires
        0 <= n <= second.len(),
    ensures
        total_secs(first + second, first.len() + n) == total_secs(first, first.len() as int)
            + total_secs(second, n),
        timed_runs(first + second, (first.len() + n) as int) == timed_runs(
            first,
            first.len() as int,
        ) + timed_runs(second, n),
    decreases n,
{
    if n > 0 {
        lemma_sums(first, second, n - 1);
        assert((first + second)[first.len() + n - 1] == second[n - 1]);
    } else {
        lemma_sums_of_start(first, second, first.len() as int);
    }
}

proof fn lemma_sums_of_start(
    first: Seq<(Seq<char>, JobTimingModel)>,
    second: Seq<(Seq<char>, JobTimingModel)>,
    n: int,
)
    requires
        0 <= n <= first.len(),
    ensures
        total_secs(first + second, n) == total_secs(first, n),
        timed_runs(first + second, n) == timed_runs(first, n),
    decreases n,
{
    if n > 0 {
        lemma_sums_of_start(first, second, n - 1);
        assert((first + second)[n - 1] == first[n - 1]);
    }
}

/// What is told of a job has its name and its runs. The durations of some runs and of others add up
/// to that of all of them, and so does how many are known; one run counts if its duration is known.
pub proof fn law_durations_add_up(
    job_name: Seq<char>,
    first: Seq<(Seq<char>, JobTimingModel)>,
    second: Seq<(Seq<char>, JobTimingModel)>,
    run_id: Seq<char>,
    timing: JobTimingModel,
)
    requires
        is_valid_job(first),
        is_valid_job(second),
        timing.duration_secs matches Some(seconds) ==> 0 <= seconds,
    ensures
        ({
            let all = analysis_of(JobRunsModel { job_name, runs: first + second });
            let one = analysis_of(JobRunsModel { job_name, runs: first });
            let other = analysis_of(JobRunsModel { job_name, runs: second });
            &&& all.job_name == job_name
            &&& all.runs == first + second
            &&& all.total_secs == one.total_secs + other.total_secs
            &&& all.timed_runs == one.timed_runs + other.timed_runs
        }),
        ({
            let single = analysis_of(JobRunsModel { job_name, runs: seq![(run_id, timing)] });
            match timing.duration_secs {
                Some(seconds) => single.total_secs == seconds && single.timed_runs == 1,
                None => single.total_secs == 0 && single.timed_runs == 0,
            }
        }),
{
    lemma_sums(first, second, second.len() as int);
    lemma_total_is_valid(first, first.len() as int);
    lemma_total_is_valid(second, second.len() as int);
    let runs = seq![(run_id, timing)];
    assert(runs[0] == (run_id, timing));
    assert(total_secs(runs, 0) == 0 && timed_runs(runs, 0) == 0);
    assert(total_secs(runs, 1) == total_secs(runs, 0) + match timing.duration_secs {
        Some(seconds) => seconds as int,
        None => 0,
    });
}

/// The line of a slow job tells its place, its name, its average, and its shortest and longest
/// duration; one that is not known counts as zero.
pub proof fn law_slow_jobs_are_told(place: nat, job: JobTimingAnalysisModel, average: Seq<char>)
    ensures
        ({
            let min = if job.min_duration_secs is Some {
                job.min_duration_secs->0 as int
            } else {
                0
            };
            let max = if job.max_duration_secs is Some {
                job.max_duration_secs->0 as int
            } else {
                0
            };
            slow_job_line(place, job, average) == "  "@ + decimal(place) + ". "@ + (job.job_name
                + " — avg "@ + average) + ("s (min "@ + signed_decimal(min) + "s, max "@
                + signed_decimal(max) + "s)"@)
        }),
        slowest_header(place) == "Top 5 slowest jobs (by avg, "@ + (decimal(place) + " runs):"@),
{
    let min = if job.min_duration_secs is Some {
        job.min_duration_secs->0 as int
    } else {
        0
    };
    let max = if job.max_duration_secs is Some {
        job.max_duration_secs->0 as int
    } else {
        0
    };
    assert(slow_job_line(place, job, average) =~= "  "@ + decimal(place) + ". "@ + (job.job_name
        + " — avg "@ + average) + ("s (min "@ + signed_decimal(min) + "s, max "@ + signed_decimal(
        max,
    ) + "s)"@));
    assert(slowest_header(place) =~= "Top 5 slowest jobs (by avg, "@ + (decimal(place)
        + " runs):"@));
}

/// Each entry of the report tells of the runs that it lists, and of no others.
pub proof fn law_entries_tell_of_their_runs(
    runs: Seq<RunMetadataModel>,
    analyzed_at: Seq<char>,
    k: int,
)
    requires
        0 <= k < timings_report_of(runs, analyzed_at).jobs.len(),
    ensures
        ({
            let entry = timings_report_of(runs, analyzed_at).jobs[k];
            entry == analysis_of(JobRunsModel { job_name: entry.job_name, runs: entry.runs })
        }),
{
    let timings = timings_before(runs, runs.len() as int);
    let told = analyses(timings);
    let sorted = jobs_by_average(timings);
    lemma_sorting_keeps_members::<JobTimingAnalysis>(told, sorted[k]);
    let i = choose|i: int| 0 <= i < told.len() && told[i] == sorted[k];
    let job = grouped(timings, timings.len() as int)[i];
    assert(told[i] == analysis_of(job));
    assert(job == (JobRunsModel { job_name: job.job_name, runs: job.runs }));
}

} // verus!
