//! The analysis of the logs of a run and the overview of its jobs.
use gh_logs_grab::commands::analyze::{
    build_findings, count_by_framework, count_occurrences, error_signature, findings_are_fresh,
    is_log_file, job_name_of, merge_errors, parse_log, summary_report,
};
use gh_logs_grab::commands::overview::{
    build_jobs_overview, conclusion_sort_key, count_jobs, print_jobs_overview,
};
use gh_logs_grab::github::log_filename;
use gh_logs_grab::models::{
    default_framework, ErrorOccurrence, FindingsSummary, FrameworkSummary, Job, RunMetadata, Step,
    TestError,
};

fn error(framework: &str, file: &str, name: &str, kind: &str, logs: &[&str]) -> TestError {
    TestError {
        framework: framework.to_string(),
        test_file: file.to_string(),
        test_name: name.to_string(),
        error_type: kind.to_string(),
        message: logs.join("+"),
        line: None,
        occurrences: logs
            .iter()
            .map(|log| ErrorOccurrence {
                job: "job".to_string(),
                log_file: log.to_string(),
                traceback: None,
            })
            .collect(),
    }
}

fn logs_of(error: &TestError) -> Vec<&str> {
    error.occurrences.iter().map(|place| place.log_file.as_str()).collect()
}

fn job(name: &str, conclusion: Option<&str>, seconds: Option<u32>, steps: Vec<Step>) -> Job {
    Job {
        id: 1,
        name: name.to_string(),
        conclusion: conclusion.map(|word| word.to_string()),
        started_at: seconds.map(|_| "2024-01-01T00:00:00Z".to_string()),
        completed_at: seconds.map(|s| format!("2024-01-01T00:{:02}:{:02}Z", s / 60, s % 60)),
        steps,
    }
}

fn step(number: u64, name: &str, conclusion: Option<&str>, seconds: Option<u32>) -> Step {
    Step {
        name: name.to_string(),
        conclusion: conclusion.map(|word| word.to_string()),
        number,
        started_at: seconds.map(|_| "2024-01-01T00:00:00Z".to_string()),
        completed_at: seconds.map(|s| format!("2024-01-01T00:{:02}:{:02}Z", s / 60, s % 60)),
    }
}

fn metadata(jobs: Vec<Job>) -> RunMetadata {
    RunMetadata {
        run_id: "42".to_string(),
        run_number: 7,
        head_sha: "abc".to_string(),
        head_branch: "main".to_string(),
        pr_number: Some(3),
        html_url: String::new(),
        created_at: String::new(),
        updated_at: String::new(),
        total_jobs: jobs.len(),
        failed_jobs: 0,
        downloaded_at: String::new(),
        jobs,
    }
}

#[test]
fn logs_are_told_by_their_extension() {
    assert!(is_log_file("a-failure.log"));
    assert!(is_log_file("..log"));
    assert!(!is_log_file(".log"));
    assert!(!is_log_file("log"));
    assert!(!is_log_file("a.log.txt"));
    assert!(!is_log_file("metadata.json"));
}

#[test]
fn job_names_are_told_by_log_names() {
    assert_eq!(job_name_of("Core_tests-failure.log"), "Core tests");
    assert_eq!(job_name_of("a-success.log"), "a");
    assert_eq!(job_name_of("a_b-cancelled.log"), "a b");
    assert_eq!(job_name_of("a_b-skipped.log"), "a b-skipped.log");
    assert_eq!(job_name_of("-failure.log"), "");
}

#[test]
fn logs_name_their_jobs() {
    for conclusion in ["failure", "success", "cancelled"] {
        let clean = job("Django tests (22)", Some(conclusion), None, vec![]);
        assert_eq!(job_name_of(&log_filename(&clean)), "Django tests (22)");
        assert!(is_log_file(&log_filename(&clean)));
        let other = job("a/b_c:d\\e f", Some(conclusion), None, vec![]);
        assert_eq!(job_name_of(&log_filename(&other)), "a b c d e f");
    }
}

#[test]
fn findings_are_fresh_unless_a_log_is_newer() {
    assert!(findings_are_fresh(5, &vec![]));
    assert!(findings_are_fresh(5, &vec![4, 5, -1]));
    assert!(!findings_are_fresh(5, &vec![4, 6, 3]));
}

#[test]
fn all_parsers_read_a_log() {
    let log = "FAILED a.py::x - E: 1\nFAIL src/a.test.ts\n---- t stdout ----\n";
    let errors = parse_log(log, "All_tests-failure.log");
    let frameworks: Vec<&str> = errors.iter().map(|error| error.framework.as_str()).collect();
    assert_eq!(frameworks, vec!["pytest", "jest", "rust"]);
    for error in &errors {
        assert_eq!(error.occurrences.len(), 1);
        assert_eq!(error.occurrences[0].job, "All tests");
        assert_eq!(error.occurrences[0].log_file, "All_tests-failure.log");
    }
    assert_eq!(count_occurrences(&errors), 3);
}

#[test]
fn signatures_join_what_makes_an_error() {
    assert_eq!(error_signature(&error("pytest", "f", "n", "K", &[])), "pytest::f::n::K");
    assert_eq!(default_framework(), "pytest");
}

#[test]
fn errors_with_the_same_signature_are_merged() {
    let merged = merge_errors(vec![
        error("pytest", "f", "n", "K", &["1"]),
        error("pytest", "f", "m", "K", &["2"]),
        error("pytest", "f", "n", "K", &["3", "4"]),
        error("jest", "f", "n", "K", &["5"]),
    ]);
    assert_eq!(merged.len(), 3);
    assert_eq!(logs_of(&merged[0]), vec!["1", "3", "4"]);
    assert_eq!(merged[0].message, "1");
    assert_eq!(logs_of(&merged[1]), vec!["2"]);
    assert_eq!(logs_of(&merged[2]), vec!["5"]);
    assert_eq!(count_occurrences(&merged), 5);
}

#[test]
fn merging_twice_changes_nothing() {
    let errors = vec![
        error("a", "f", "n", "K", &["1"]),
        error("a", "f", "n", "K", &["2"]),
        error("b", "f", "n", "K", &["3"]),
    ];
    let once = merge_errors(errors);
    let twice = merge_errors(once.clone());
    assert_eq!(twice.len(), once.len());
    for (a, b) in once.iter().zip(&twice) {
        assert_eq!(error_signature(a), error_signature(b));
        assert_eq!(logs_of(a), logs_of(b));
    }
}

#[test]
fn frameworks_are_counted() {
    let tally = count_by_framework(&vec![
        error("pytest", "f", "n", "K", &["1", "2"]),
        error("jest", "f", "n", "K", &["3"]),
        error("pytest", "f", "m", "K", &["4"]),
    ]);
    assert_eq!(tally.len(), 2);
    assert_eq!(tally[0].0, "pytest");
    assert_eq!(tally[0].1.unique_errors, 2);
    assert_eq!(tally[0].1.total_occurrences, 3);
    assert_eq!(tally[1].0, "jest");
    assert_eq!(tally[1].1.unique_errors, 1);
    assert_eq!(tally[1].1.total_occurrences, 1);
}

#[test]
fn findings_add_up() {
    let run = metadata(vec![job("b", Some("failure"), None, vec![]), job("a", None, None, vec![])]);
    let errors = vec![
        error("pytest", "f", "n", "K", &["1"]),
        error("pytest", "f", "n", "K", &["2"]),
        error("jest", "f", "n", "K", &["3"]),
    ];
    let findings = build_findings(&run, errors, 9, "now".to_string());
    assert_eq!(findings.analyzed_at, "now");
    assert_eq!(findings.run_id, "42");
    assert_eq!(findings.jobs_overview.len(), 2);
    assert_eq!(findings.jobs_overview[0].job_name, "b");
    assert_eq!(findings.errors.len(), 2);
    assert_eq!(findings.summary.total_unique_errors, 2);
    assert_eq!(findings.summary.total_error_occurrences, 3);
    assert_eq!(findings.summary.jobs_analyzed, 9);
    let unique: usize = findings.summary.by_framework.iter().map(|entry| entry.1.unique_errors).sum();
    assert_eq!(unique, 2);
    let total: usize =
        findings.summary.by_framework.iter().map(|entry| entry.1.total_occurrences).sum();
    assert_eq!(total, 3);
    assert_eq!(
        summary_report(&findings.summary),
        "\nTest errors: 2 unique (3 occurrences) [pytest: 1 unique, 2 total; jest: 1 unique, 1 total]\n"
    );
}

#[test]
fn findings_without_errors_say_so() {
    let findings = build_findings(&metadata(vec![]), vec![], 0, String::new());
    assert_eq!(summary_report(&findings.summary), "\nNo parsed test errors found.\n");
}

#[test]
fn conclusions_are_ranked() {
    let words = ["failure", "cancelled", "timed_out", "success", "skipped", "neutral", "unknown"];
    let keys: Vec<u8> = words.iter().map(|word| conclusion_sort_key(word)).collect();
    assert_eq!(keys, vec![0, 1, 2, 3, 4, 5, 5]);
}

#[test]
fn overview_is_in_order() {
    let run = metadata(vec![
        job("z", Some("success"), None, vec![]),
        job("b", Some("failure"), None, vec![]),
        job("m", None, None, vec![]),
        job("a", Some("failure"), None, vec![]),
        job("k", Some("skipped"), None, vec![]),
        job("t", Some("timed_out"), None, vec![]),
        job("c", Some("cancelled"), None, vec![]),
    ]);
    let overview = build_jobs_overview(&run);
    let names: Vec<&str> = overview.iter().map(|job| job.job_name.as_str()).collect();
    assert_eq!(names, vec!["a", "b", "c", "t", "z", "k", "m"]);
    assert_eq!(overview[6].conclusion, "unknown");
}

#[test]
fn overview_lists_the_failed_steps() {
    let steps = || {
        vec![
            step(1, "Set up", Some("success"), Some(1)),
            step(2, "Run", Some("failure"), Some(62)),
            step(3, "Post", None, None),
            step(4, "Skip", Some("skipped"), None),
        ]
    };
    let run = metadata(vec![
        job("bad", Some("failure"), Some(125), steps()),
        job("good", Some("success"), Some(9), steps()),
    ]);
    let overview = build_jobs_overview(&run);
    assert_eq!(overview[0].duration_secs, Some(125));
    let numbers: Vec<u64> = overview[0].failed_steps.iter().map(|step| step.number).collect();
    assert_eq!(numbers, vec![2, 3]);
    assert_eq!(overview[0].failed_steps[0].duration_secs, Some(62));
    assert_eq!(overview[0].failed_steps[1].conclusion, "unknown");
    assert!(overview[1].failed_steps.is_empty());
    assert_eq!(count_jobs(&overview, "failure"), 1);
    assert_eq!(
        print_jobs_overview(&overview, 2),
        "\nJobs overview (2 total, 1 failed, 1 passed):\n\
         \x20 ✗ bad [failure, 125s]\n\
         \x20   → Step 2: Run [failure, 62s]\n\
         \x20   → Step 3: Post [unknown]\n\
         \x20 ✓ 1 jobs passed\n"
    );
}

#[test]
fn overview_counts_the_other_jobs() {
    let run = metadata(vec![
        job("a", Some("cancelled"), None, vec![]),
        job("b", Some("skipped"), None, vec![]),
        job("c", Some("neutral"), None, vec![]),
    ]);
    let overview = build_jobs_overview(&run);
    assert_eq!(
        print_jobs_overview(&overview, 5),
        "\nJobs overview (5 total, 1 cancelled, 4 other):\n  ✗ a [cancelled]\n  ✗ c [neutral]\n"
    );
}

#[test]
fn reports_look_as_described() {
    let mut jobs = vec![
        job(
            "Django tests – Core (22/38)",
            Some("failure"),
            Some(521),
            vec![step(22, "Run Core tests", Some("failure"), Some(429))],
        ),
        job(
            "Discover product tests",
            Some("timed_out"),
            Some(45),
            vec![step(5, "Install pnpm dependencies", Some("failure"), Some(2))],
        ),
        job("Deploy", Some("skipped"), None, vec![]),
    ];
    for n in 0..55 {
        jobs.push(job(&format!("passing {}", n), Some("success"), None, vec![]));
    }
    let overview = build_jobs_overview(&metadata(jobs));
    assert_eq!(
        print_jobs_overview(&overview, 58),
        "\nJobs overview (58 total, 1 failed, 55 passed, 2 other):\n\
         \x20 ✗ Django tests – Core (22/38) [failure, 521s]\n\
         \x20   → Step 22: Run Core tests [failure, 429s]\n\
         \x20 ✗ Discover product tests [timed_out, 45s]\n\
         \x20   → Step 5: Install pnpm dependencies [failure, 2s]\n\
         \x20 ✓ 55 jobs passed\n"
    );
    let summary = FindingsSummary {
        total_unique_errors: 27,
        total_error_occurrences: 28,
        jobs_analyzed: 10,
        by_framework: vec![(
            "pytest".to_string(),
            FrameworkSummary { unique_errors: 27, total_occurrences: 28 },
        )],
    };
    assert_eq!(
        summary_report(&summary),
        "\nTest errors: 27 unique (28 occurrences) [pytest: 27 unique, 28 total]\n"
    );
}
