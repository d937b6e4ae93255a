//! Addresses, headers, the token, pages of jobs and log files.
use gh_logs_grab::durations::{compute_duration, seconds_between};
use gh_logs_grab::github::{
    build_headers, is_complete_url, is_header_token, job_log_url, log_filename, log_step,
    parse_run_url, refusal_message, run_info_url, token_from_output, CommandOutput, InvalidRunUrl,
    JobPages, JobsResponse, LogAction, LogEvent, PageReply, PageStep, TokenError,
};
use gh_logs_grab::models::Job;

fn job(id: u64, name: &str, conclusion: Option<&str>) -> Job {
    Job {
        id,
        name: name.to_string(),
        conclusion: conclusion.map(|word| word.to_string()),
        started_at: None,
        completed_at: None,
        steps: vec![],
    }
}

fn parts(owner: &str, repo: &str, run_id: &str) -> (String, String, String) {
    (owner.to_string(), repo.to_string(), run_id.to_string())
}

#[test]
fn run_addresses_are_read() {
    let url = "https://github.com/PostHog/posthog/actions/runs/19374816456";
    assert!(is_complete_url(url));
    assert_eq!(parse_run_url(url), Ok(parts("PostHog", "posthog", "19374816456")));
}

#[test]
fn run_addresses_are_read_with_a_job_or_a_query() {
    let job_url = "https://github.com/o/r/actions/runs/123/job/456?pr=7";
    assert_eq!(parse_run_url(job_url), Ok(parts("o", "r", "123")));
    let query = "https://github.com/o/r/actions/runs/123?pr=7/8";
    assert_eq!(parse_run_url(query), Ok(parts("o", "r", "123")));
    let slash = "https://github.com/o/r/actions/runs/";
    assert!(is_complete_url(slash));
    assert_eq!(parse_run_url(slash), Ok(parts("o", "r", "")));
}

#[test]
fn other_addresses_are_refused() {
    for url in [
        "",
        "https://github.com/o/r",
        "https://github.com/o/r/pull/1/files/x",
        "https://github.com/o/r/actions/workflows/x",
        "github.com/o/r/actions/runs/1",
    ] {
        assert!(is_complete_url(url));
        assert_eq!(parse_run_url(url), Err(InvalidRunUrl));
    }
    assert_eq!(InvalidRunUrl.message(), "Invalid GitHub Actions run URL format");
}

#[test]
fn addresses_that_end_at_the_runs_are_not_complete() {
    assert!(!is_complete_url("https://github.com/o/r/actions/runs"));
}

#[test]
fn token_is_taken_from_the_output() {
    let output = CommandOutput { success: true, stdout: b" SECRET-REDACTED\n".to_vec() };
    match token_from_output(Some(output)) {
        Ok(token) => assert_eq!(token, "SECRET-REDACTED"),
        Err(_) => panic!("no token"),
    }
}

#[test]
fn token_is_missing_if_the_command_fails() {
    let output = CommandOutput { success: false, stdout: b"x".to_vec() };
    assert!(matches!(token_from_output(Some(output)), Err(TokenError::Missing)));
    assert!(matches!(token_from_output(None), Err(TokenError::Missing)));
    assert_eq!(
        TokenError::missing_message(),
        "No GitHub token found. Set GITHUB_TOKEN env var or use --token"
    );
}

#[test]
fn token_must_be_text() {
    let output = CommandOutput { success: true, stdout: vec![0x61, 0xff] };
    assert!(matches!(token_from_output(Some(output)), Err(TokenError::NotText(_))));
}

#[test]
fn headers_hold_the_token() {
    assert!(is_header_token("abc é"));
    let headers = build_headers("abc é");
    assert_eq!(headers.len(), 4);
    assert_eq!(headers["authorization"].as_bytes(), "Bearer abc é".as_bytes());
    assert_eq!(headers["accept"], "application/vnd.github+json");
    assert_eq!(headers["user-agent"], "gh-logs-grab");
    assert_eq!(headers["X-GitHub-Api-Version"], "2022-11-28");
}

#[test]
fn tokens_with_control_characters_fit_no_header() {
    assert!(!is_header_token("a\nb"));
    assert!(!is_header_token("\u{7f}"));
    assert!(is_header_token("a\tb"));
    assert!(is_header_token(""));
}

#[test]
fn addresses_of_the_service() {
    assert_eq!(run_info_url("o", "r", "5"), "https://api.github.com/repos/o/r/actions/runs/5");
    assert_eq!(
        job_log_url("o", "r", 77),
        "https://api.github.com/repos/o/r/actions/jobs/77/logs"
    );
    assert_eq!(refusal_message("404 Not Found"), "API request failed: 404 Not Found");
}

#[test]
fn pages_are_read_up_to_an_empty_one() {
    let mut pages = JobPages::new();
    assert_eq!(
        pages.next_url("o", "r", "5"),
        "https://api.github.com/repos/o/r/actions/runs/5/jobs?per_page=100&page=1"
    );
    let first = JobsResponse { jobs: vec![job(1, "a", None), job(2, "b", None)] };
    assert!(matches!(pages.step(PageReply::Page(first)), PageStep::More));
    assert_eq!(
        pages.next_url("o", "r", "5"),
        "https://api.github.com/repos/o/r/actions/runs/5/jobs?per_page=100&page=2"
    );
    let second = JobsResponse { jobs: vec![job(3, "c", None)] };
    assert!(matches!(pages.step(PageReply::Page(second)), PageStep::More));
    assert!(matches!(pages.step(PageReply::Page(JobsResponse { jobs: vec![] })), PageStep::Done));
    let ids: Vec<u64> = pages.jobs.iter().map(|job| job.id).collect();
    assert_eq!(ids, vec![1, 2, 3]);
    assert_eq!(pages.pages, 2);
}

#[test]
fn refused_pages_end_the_reading() {
    let mut pages = JobPages::new();
    match pages.step(PageReply::Refused("403 Forbidden".to_string())) {
        PageStep::Fail(text) => assert_eq!(text, "API request failed: 403 Forbidden"),
        _ => panic!("went on"),
    }
    assert_eq!(pages.pages, 0);
}

#[test]
fn log_names_are_safe() {
    assert_eq!(
        log_filename(&job(1, "Django tests / Core: (22\\38)", Some("failure"))),
        "Django_tests___Core__(22_38)-failure.log"
    );
    assert_eq!(log_filename(&job(1, "lint", None)), "lint-unknown.log");
}

#[test]
fn logs_that_exist_are_not_downloaded_again() {
    assert_eq!(log_step(LogEvent::Checked { exists: true }), LogAction::Skip);
    assert_eq!(log_step(LogEvent::Checked { exists: false }), LogAction::Fetch);
    assert_eq!(log_step(LogEvent::Answered { success: true }), LogAction::Save);
    assert_eq!(log_step(LogEvent::Answered { success: false }), LogAction::Skip);
}

fn time(text: &str) -> Option<String> {
    Some(text.to_string())
}

#[test]
fn durations_are_in_seconds() {
    let start = time("2024-01-02T03:04:05Z");
    let end = time("2024-01-02T03:05:10.9+00:00");
    assert_eq!(compute_duration(&start, &end), Some(65));
    let other_zone = time("2024-01-02T04:04:06+01:00");
    assert_eq!(compute_duration(&start, &other_zone), Some(1));
}

#[test]
fn durations_are_symmetric() {
    let start = time("2024-01-02T03:04:05Z");
    let end = time("2023-12-31T23:59:59Z");
    assert_eq!(compute_duration(&start, &end), Some(97446));
    assert_eq!(compute_duration(&end, &start), Some(97446));
}

#[test]
fn durations_need_both_times() {
    let start = time("2024-01-02T03:04:05Z");
    assert_eq!(compute_duration(&start, &None), None);
    assert_eq!(compute_duration(&None, &start), None);
    assert_eq!(compute_duration(&start, &time("yesterday")), None);
    assert_eq!(compute_duration(&time(""), &start), None);
}

#[test]
fn durations_of_the_widest_range_fit() {
    let first = time("0000-01-01T00:00:00+23:59");
    let last = time("9999-12-31T23:59:59-23:59");
    assert_eq!(compute_duration(&first, &last), Some(315569692679));
    assert_eq!(compute_duration(&time("+10000-01-01T00:00:00Z"), &last), None);
}

#[test]
fn seconds_between_two_times() {
    assert_eq!(seconds_between(Some(7), Some(3)), Some(4));
    assert_eq!(seconds_between(Some(-2), Some(3)), Some(5));
    assert_eq!(seconds_between(None, Some(3)), None);
}
