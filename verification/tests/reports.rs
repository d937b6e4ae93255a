//! Downloads, timelines and timings.
use gh_logs_grab::commands::download::{
    base_directory, build_metadata, download_report, pr_number, select_jobs,
};
use gh_logs_grab::commands::runs::{sort_runs, RunEntry};
use gh_logs_grab::commands::timeline::{
    build_timeline, count_status, missing_findings_message, timeline_report, ErrorStatus,
    RunRecord,
};
use gh_logs_grab::commands::timings::{
    analyze_job, build_timings, list_timings, rank_jobs, slow_job_text, slowest, slowest_heading,
    JobRuns, JobTiming, NamedTiming,
};
use gh_logs_grab::github::{PullRequest, WorkflowRun};
use gh_logs_grab::models::{
    ErrorOccurrence, Findings, FindingsSummary, Job, RunMetadata, TestError,
};

fn workflow_run(branch: &str, pull_requests: &[u64]) -> WorkflowRun {
    WorkflowRun {
        head_branch: branch.to_string(),
        event: "push".to_string(),
        head_sha: "sha".to_string(),
        run_number: 12,
        created_at: "c".to_string(),
        updated_at: "u".to_string(),
        html_url: "h".to_string(),
        pull_requests: pull_requests.iter().map(|&number| PullRequest { number }).collect(),
    }
}

fn job(name: &str, conclusion: Option<&str>, times: Option<(&str, &str)>) -> Job {
    Job {
        id: 1,
        name: name.to_string(),
        conclusion: conclusion.map(|word| word.to_string()),
        started_at: times.map(|(start, _)| format!("2024-01-01T{}Z", start)),
        completed_at: times.map(|(_, end)| format!("2024-01-01T{}Z", end)),
        steps: vec![],
    }
}

fn metadata(run_id: &str, run_number: u64, head_sha: &str, jobs: Vec<Job>) -> RunMetadata {
    RunMetadata {
        run_id: run_id.to_string(),
        run_number,
        head_sha: head_sha.to_string(),
        head_branch: "main".to_string(),
        pr_number: Some(run_number + 100),
        html_url: String::new(),
        created_at: String::new(),
        updated_at: String::new(),
        total_jobs: jobs.len(),
        failed_jobs: 2,
        downloaded_at: String::new(),
        jobs,
    }
}

// ---------------------------------------------------------------------------
// Downloads
// ---------------------------------------------------------------------------

#[test]
fn runs_of_a_pull_request_share_a_directory() {
    assert_eq!(base_directory(&workflow_run("x/y", &[47485, 3])), "pr-47485");
    assert_eq!(pr_number(&workflow_run("x/y", &[47485, 3])), Some(47485));
}

#[test]
fn runs_of_a_branch_share_a_directory() {
    assert_eq!(base_directory(&workflow_run("feature/a/b", &[])), "feature_a_b");
    assert_eq!(pr_number(&workflow_run("feature/a/b", &[])), None);
}

#[test]
fn jobs_that_ended_without_success_are_selected() {
    let jobs = vec![
        job("a", Some("success"), None),
        job("b", Some("failure"), None),
        job("c", None, None),
        job("d", Some("skipped"), None),
    ];
    let names = |all: bool| -> Vec<String> {
        select_jobs(&jobs, all).into_iter().map(|job| job.name).collect()
    };
    assert_eq!(names(false), vec!["b", "d"]);
    assert_eq!(names(true), vec!["a", "b", "c", "d"]);
}

#[test]
fn metadata_describes_the_run() {
    let jobs = vec![job("a", None, None), job("b", None, None), job("c", None, None)];
    let kept = build_metadata("99", workflow_run("main", &[5]), jobs, 2, "now".to_string());
    assert_eq!(kept.run_id, "99");
    assert_eq!(kept.run_number, 12);
    assert_eq!(kept.head_sha, "sha");
    assert_eq!(kept.head_branch, "main");
    assert_eq!(kept.pr_number, Some(5));
    assert_eq!(kept.html_url, "h");
    assert_eq!(kept.created_at, "c");
    assert_eq!(kept.updated_at, "u");
    assert_eq!(kept.total_jobs, 3);
    assert_eq!(kept.failed_jobs, 2);
    assert_eq!(kept.downloaded_at, "now");
    assert_eq!(kept.jobs.len(), 3);
}

#[test]
fn downloads_are_reported() {
    assert_eq!(
        download_report(10, 0, "22057860677", "PostHog", "posthog"),
        "Downloaded 10 logs for run 22057860677 (PostHog/posthog repo)\n"
    );
    assert_eq!(
        download_report(10, 3, "5", "o", "r"),
        "Downloaded 7 logs for run 5 (o/r repo) (3 failed)\n"
    );
    assert_eq!(download_report(0, 0, "5", "o", "r"), "No failed jobs for run 5 (o/r repo)\n");
}

// ---------------------------------------------------------------------------
// Runs
// ---------------------------------------------------------------------------

#[test]
fn runs_are_sorted_by_number() {
    let mut runs: Vec<RunEntry> = [5, 3, 5, 1]
        .iter()
        .enumerate()
        .map(|(slot, &number)| RunEntry { slot, metadata: metadata("r", number, "s", vec![]) })
        .collect();
    sort_runs(&mut runs);
    let slots: Vec<usize> = runs.iter().map(|run| run.slot).collect();
    assert_eq!(slots, vec![3, 1, 0, 2]);
}

// ---------------------------------------------------------------------------
// Timelines
// ---------------------------------------------------------------------------

fn error(name: &str, places: usize) -> TestError {
    TestError {
        framework: "pytest".to_string(),
        test_file: "f.py".to_string(),
        test_name: name.to_string(),
        error_type: "K".to_string(),
        message: "m".to_string(),
        line: None,
        occurrences: (0..places)
            .map(|_| ErrorOccurrence {
                job: "j".to_string(),
                log_file: "l".to_string(),
                traceback: None,
            })
            .collect(),
    }
}

fn run(number: u64, errors: Option<Vec<TestError>>) -> RunRecord {
    RunRecord {
        metadata: metadata(&format!("run{}", number), number, &format!("sha{}", number), vec![]),
        findings: errors.map(|errors| Findings {
            analyzed_at: String::new(),
            run_id: String::new(),
            jobs_overview: vec![],
            summary: FindingsSummary {
                total_unique_errors: errors.len(),
                total_error_occurrences: 0,
                jobs_analyzed: 0,
                by_framework: vec![],
            },
            errors,
        }),
    }
}

#[test]
fn timeline_tells_how_errors_developed() {
    let runs = vec![
        run(1, Some(vec![error("stays", 2), error("flaky", 1), error("goes", 1)])),
        run(2, Some(vec![error("stays", 1), error("comes", 3), error("goes", 1)])),
        run(3, Some(vec![error("flaky", 1), error("stays", 1)])),
    ];
    let timeline = build_timeline(&runs, "now".to_string());
    assert_eq!(timeline.analyzed_at, "now");
    assert_eq!(timeline.pr_number, Some(101));
    let told: Vec<(&str, &str)> = timeline
        .error_timeline
        .iter()
        .map(|entry| (entry.test_name.as_str(), entry.status.label()))
        .collect();
    assert_eq!(
        told,
        vec![
            ("comes", "regressed"),
            ("stays", "persistent"),
            ("flaky", "intermittent"),
            ("goes", "fixed"),
        ]
    );
    let comes = &timeline.error_timeline[0];
    assert_eq!(comes.signature, "pytest::f.py::comes::K");
    assert_eq!(comes.first_seen_run, "run2");
    assert_eq!(comes.first_seen_sha, "sha2");
    assert_eq!(comes.last_seen_run, "run2");
    assert_eq!(comes.likely_culprit_commit.as_deref(), Some("sha2"));
    assert_eq!(comes.likely_fix_commit, None);
    assert_eq!(comes.occurrences_by_run, vec![("run2".to_string(), 3)]);
    let stays = &timeline.error_timeline[1];
    assert_eq!(
        stays.occurrences_by_run,
        vec![("run1".to_string(), 2), ("run2".to_string(), 1), ("run3".to_string(), 1)]
    );
    assert_eq!(stays.likely_culprit_commit, None);
    assert_eq!(stays.last_seen_sha, "sha3");
    let goes = &timeline.error_timeline[3];
    assert_eq!(goes.last_seen_run, "run2");
    assert_eq!(goes.likely_fix_commit.as_deref(), Some("sha3"));
    assert_eq!(
        timeline_report(&timeline),
        "\n✓ Timeline analysis:\n\
         \x20 Regressed:    1 errors\n\
         \x20 Persistent:   1 errors\n\
         \x20 Intermittent: 1 errors\n\
         \x20 Fixed:        1 errors\n"
    );
}

#[test]
fn timeline_describes_errors_as_first_found() {
    let mut later = error("e", 1);
    later.message = "later".to_string();
    let runs = vec![run(1, Some(vec![error("e", 2)])), run(2, Some(vec![later, error("e", 5)]))];
    let timeline = build_timeline(&runs, String::new());
    assert_eq!(timeline.error_timeline.len(), 1);
    assert_eq!(timeline.error_timeline[0].message, "m");
    assert_eq!(
        timeline.error_timeline[0].occurrences_by_run,
        vec![("run1".to_string(), 2), ("run2".to_string(), 5)]
    );
}

#[test]
fn timeline_of_one_run_names_its_commit() {
    let timeline = build_timeline(&vec![run(4, Some(vec![error("e", 1)]))], String::new());
    assert_eq!(timeline.error_timeline.len(), 1);
    assert_eq!(timeline.error_timeline[0].status, ErrorStatus::Persistent);
    assert_eq!(timeline.error_timeline[0].likely_culprit_commit.as_deref(), Some("sha4"));
    assert_eq!(count_status(&timeline.error_timeline, ErrorStatus::Persistent), 1);
    assert_eq!(count_status(&timeline.error_timeline, ErrorStatus::Fixed), 0);
}

#[test]
fn timeline_leaves_out_runs_that_were_not_analyzed() {
    let runs = vec![run(1, None), run(2, Some(vec![error("e", 1)])), run(3, None)];
    let timeline = build_timeline(&runs, String::new());
    assert_eq!(timeline.runs_analyzed.len(), 1);
    assert_eq!(timeline.runs_analyzed[0].run_id, "run2");
    assert_eq!(timeline.runs_analyzed[0].run_number, 2);
    assert_eq!(timeline.runs_analyzed[0].head_sha, "sha2");
    assert_eq!(timeline.runs_analyzed[0].failed_jobs, 2);
    assert_eq!(timeline.runs_analyzed[0].unique_errors, 1);
    assert_eq!(timeline.error_timeline[0].status, ErrorStatus::Regressed);
    assert_eq!(
        missing_findings_message("run1"),
        "⚠ No findings.json for run run1 - run `analyze` first"
    );
}

#[test]
fn timeline_lists_errors_of_one_status_by_signature() {
    let runs = vec![run(1, Some(vec![error("c", 1), error("a", 1), error("b", 1)]))];
    let timeline = build_timeline(&runs, String::new());
    let names: Vec<&str> =
        timeline.error_timeline.iter().map(|entry| entry.test_name.as_str()).collect();
    assert_eq!(names, vec!["a", "b", "c"]);
}

#[test]
fn timeline_of_no_runs_is_empty() {
    let timeline = build_timeline(&vec![], "now".to_string());
    assert_eq!(timeline.pr_number, None);
    assert!(timeline.runs_analyzed.is_empty());
    assert!(timeline.error_timeline.is_empty());
}

// ---------------------------------------------------------------------------
// Timings
// ---------------------------------------------------------------------------

fn timing(seconds: Option<i64>) -> JobTiming {
    JobTiming { started_at: None, completed_at: None, duration_secs: seconds, conclusion: None }
}

fn named(job_name: &str, run_id: &str, seconds: Option<i64>) -> NamedTiming {
    NamedTiming {
        job_name: job_name.to_string(),
        run_id: run_id.to_string(),
        timing: timing(seconds),
    }
}

#[test]
fn timings_are_read_from_the_runs() {
    let runs = vec![
        metadata("r2", 1, "s", vec![job("a", Some("failure"), Some(("00:00:10", "00:00:40")))]),
        metadata("r1", 2, "s", vec![job("a", None, None), job("b", None, Some(("00:01:00", "00:00:00")))]),
    ];
    let timings = list_timings(&runs);
    let read: Vec<(&str, &str, Option<i64>)> = timings
        .iter()
        .map(|entry| (entry.job_name.as_str(), entry.run_id.as_str(), entry.timing.duration_secs))
        .collect();
    assert_eq!(read, vec![("a", "r2", Some(30)), ("a", "r1", None), ("b", "r1", Some(60))]);
    assert_eq!(timings[0].timing.conclusion.as_deref(), Some("failure"));
    let report = build_timings(&runs, "now".to_string());
    assert_eq!(report.analyzed_at, "now");
    assert_eq!(report.pr_number, Some(101));
    assert_eq!(report.runs_analyzed, vec!["r2", "r1"]);
    let names: Vec<&str> = report.jobs.iter().map(|job| job.job_name.as_str()).collect();
    assert_eq!(names, vec!["b", "a"]);
    let run_ids: Vec<&str> = report.jobs[1].runs.iter().map(|entry| entry.0.as_str()).collect();
    assert_eq!(run_ids, vec!["r1", "r2"]);
}

#[test]
fn averages_lie_between_the_extremes() {
    let job = JobRuns {
        job_name: "a".to_string(),
        runs: vec![
            ("1".to_string(), timing(Some(30))),
            ("2".to_string(), timing(None)),
            ("3".to_string(), timing(Some(11))),
            ("4".to_string(), timing(Some(20))),
        ],
    };
    let told = analyze_job(job);
    assert_eq!(told.total_secs, 61);
    assert_eq!(told.timed_runs, 3);
    assert_eq!(told.min_duration_secs, Some(11));
    assert_eq!(told.max_duration_secs, Some(30));
}

#[test]
fn jobs_without_durations_have_no_average() {
    let told = analyze_job(JobRuns {
        job_name: "a".to_string(),
        runs: vec![("1".to_string(), timing(None))],
    });
    assert_eq!(told.timed_runs, 0);
    assert_eq!(told.min_duration_secs, None);
    assert_eq!(told.max_duration_secs, None);
}

#[test]
fn the_last_timing_of_a_job_in_a_run_counts() {
    let jobs = rank_jobs(vec![
        named("a", "1", Some(10)),
        named("a", "2", Some(20)),
        named("a", "1", Some(40)),
    ]);
    assert_eq!(jobs.len(), 1);
    assert_eq!(jobs[0].runs.len(), 2);
    assert_eq!(jobs[0].total_secs, 60);
    assert_eq!(jobs[0].timed_runs, 2);
}

#[test]
fn jobs_are_ranked_by_average() {
    let jobs = rank_jobs(vec![
        named("none", "1", None),
        named("third", "1", Some(10)),
        named("second", "1", Some(10)),
        named("second", "2", Some(11)),
        named("first", "1", Some(32)),
        named("first", "2", Some(0)),
        named("first", "3", Some(1)),
        named("tie", "1", Some(10)),
    ]);
    let names: Vec<&str> = jobs.iter().map(|job| job.job_name.as_str()).collect();
    assert_eq!(names, vec!["first", "second", "third", "tie", "none"]);
}

#[test]
fn the_five_slowest_jobs_are_listed() {
    let many = rank_jobs((0..7).map(|n| named(&format!("j{}", n), "1", Some(n))).collect());
    assert_eq!(slowest(&many), vec![0, 1, 2, 3, 4]);
    assert_eq!(many[0].job_name, "j6");
    let few = rank_jobs(vec![named("a", "1", None), named("b", "1", Some(3))]);
    assert_eq!(slowest(&few), vec![0]);
    assert_eq!(slowest_heading(4), "Top 5 slowest jobs (by avg, 4 runs):");
    assert_eq!(
        slow_job_text(1, &few[0], "3"),
        "  1. b — avg 3s (min 3s, max 3s)"
    );
    assert_eq!(slow_job_text(2, &few[1], "0"), "  2. a — avg 0s (min 0s, max 0s)");
}
