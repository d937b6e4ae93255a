//! Which logs of a run to download, where to, and what to keep beside them.
use crate::github::{WorkflowRun, WorkflowRunModel};
use crate::models::{Job, JobModel, RunMetadata, RunMetadataModel};
use crate::number::{decimal, decimal_text};
use crate::text::{replace, replaced, same};
use vstd::prelude::*;

verus! {

// ---------------------------------------------------------------------------
// Where the logs go
// ---------------------------------------------------------------------------

/// The pull request that a run counts to: the first of those it belongs to.
pub open spec fn pr_of(pull_requests: Seq<u64>) -> Option<u64> {
    if pull_requests.len() > 0 {
        Some(pull_requests[0])
    } else {
        None
    }
}

/// The directory of the runs of a pull request, or of a branch where there is none.
pub open spec fn directory_of(pr_number: Option<u64>, head_branch: Seq<char>) -> Seq<char> {
    match pr_number {
        Some(number) => "pr-"@ + decimal(number as nat),
        None => replaced(head_branch, '/', '_'),
    }
}

/// The name of the directory of a run.
pub open spec fn directory_for(run: WorkflowRunModel) -> Seq<char> {
    directory_of(pr_of(run.pull_requests), run.head_branch)
}

/// The pull request that a run counts to.
pub fn pr_number(run: &WorkflowRun) -> (number: Option<u64>)
    ensures
        number == pr_of(run.deep_view().pull_requests),
{
    if run.pull_requests.len() > 0 {
        assert(run.deep_view().pull_requests[0] == run.pull_requests@[0].deep_view());
        Some(run.pull_requests[0].number)
    } else {
        None
    }
}

/// The name of the directory that holds the run, below the output directory.
pub fn base_directory(run: &WorkflowRun) -> (name: String)
    ensures
        name@ == directory_of(pr_of(run.deep_view().pull_requests), run.head_branch@),
        name@ == directory_for(run.deep_view()),
{
    match pr_number(run) {
        Some(number) => {
            let mut name = "pr-".to_owned();
            name.append(decimal_text(number as u128).as_str());
            name
        },
        None => replace(run.head_branch.as_str(), '/', '_'),
    }
}

// ---------------------------------------------------------------------------
// Which logs
// ---------------------------------------------------------------------------

/// Holds of the jobs that ended and did not succeed.
pub open spec fn is_unsuccessful() -> spec_fn(JobModel) -> bool {
    |job: JobModel| job.conclusion is Some && job.conclusion != Some("success"@)
}

/// The jobs whose logs are downloaded: those that ended and did not succeed, or all.
pub open spec fn selected(jobs: Seq<JobModel>, all: bool) -> Seq<JobModel> {
    if all {
        jobs
    } else {
        jobs.filter(is_unsuccessful())
    }
}

/// Selects the jobs whose logs are downloaded.
pub fn select_jobs(jobs: &Vec<Job>, all: bool) -> (chosen: Vec<Job>)
    ensures
        chosen.deep_view() == selected(jobs.deep_view(), all),
{
    let ghost views = jobs.deep_view();
    let mut chosen: Vec<Job> = Vec::new();
    let mut i: usize = 0;
    assert(views.take(0) =~= seq![]);
    assert(selected(views.take(0), all) =~= seq![]) by {
        reveal(Seq::filter);
    }
    assert(chosen.deep_view() =~= seq![]);
    while i < jobs.len()
        invariant
            i <= jobs@.len(),
            views == jobs.deep_view(),
            chosen.deep_view() == selected(views.take(i as int), all),
        decreases jobs@.len() - i,
    {
        let job = &jobs[i];
        let ghost before = chosen.deep_view();
        assert(views[i as int] == job.deep_view());
        let unsuccessful = match &job.conclusion {
            Some(conclusion) => !same(conclusion.as_str(), "success"),
            None => false,
        };
        proof {
            views.take(i as int).lemma_filter_push(views[i as int], is_unsuccessful());
            assert(views.take(i + 1) =~= views.take(i as int).push(views[i as int]));
        }
        if all || unsuccessful {
            chosen.push(job.copy());
            assert(chosen.deep_view() =~= before.push(views[i as int]));
        }
        i += 1;
    }
    assert(views.take(i as int) =~= views);
    chosen
}

/// Without `all`, the logs of exactly those jobs are downloaded that ended and did not succeed.
pub proof fn law_selection(jobs: Seq<JobModel>, job: JobModel)
    ensures
        selected(jobs, false).contains(job) <==> jobs.contains(job) && job.conclusion is Some
            && job.conclusion != Some("success"@),
        selected(jobs, false).len() <= jobs.len(),
        selected(jobs, true) == jobs,
{
    let chosen = jobs.filter(is_unsuccessful());
    jobs.lemma_filter_len(is_unsuccessful());
    if chosen.contains(job) {
        jobs.lemma_filter_contains_rev(is_unsuccessful(), job);
        let i = choose|i: int| 0 <= i < chosen.len() && chosen[i] == job;
        jobs.lemma_filter_pred(is_unsuccessful(), i);
    }
    if jobs.contains(job) && is_unsuccessful()(job) {
        let i = choose|i: int| 0 <= i < jobs.len() && jobs[i] == job;
        jobs.lemma_filter_contains(is_unsuccessful(), i);
    }
}

// ---------------------------------------------------------------------------
// What is kept beside the logs
// ---------------------------------------------------------------------------

/// What is kept of a run.
pub open spec fn metadata_of(
    run_id: Seq<char>,
    run: WorkflowRunModel,
    jobs: Seq<JobModel>,
    chosen: usize,
    downloaded_at: Seq<char>,
) -> RunMetadataModel {
    RunMetadataModel {
        run_id,
        run_number: run.run_number,
        head_sha: run.head_sha,
        head_branch: run.head_branch,
        pr_number: pr_of(run.pull_requests),
        html_url: run.html_url,
        created_at: run.created_at,
        updated_at: run.updated_at,
        total_jobs: jobs.len() as usize,
        failed_jobs: chosen,
        downloaded_at,
        jobs,
    }
}

/// Puts together what is kept of a run; `chosen` is the number of jobs whose logs are downloaded.
pub fn build_metadata(
    run_id: &str,
    run: WorkflowRun,
    jobs: Vec<Job>,
    chosen: usize,
    downloaded_at: String,
) -> (metadata: RunMetadata)
    ensures
        metadata.deep_view() == metadata_of(
            run_id@,
            run.deep_view(),
            jobs.deep_view(),
            chosen,
            downloaded_at@,
        ),
        metadata.total_jobs == jobs@.len(),
{
    let pr_number = pr_number(&run);
    RunMetadata {
        run_id: run_id.to_owned(),
        run_number: run.run_number,
        head_sha: run.head_sha,
        head_branch: run.head_branch,
        pr_number,
        html_url: run.html_url,
        created_at: run.created_at,
        updated_at: run.updated_at,
        total_jobs: jobs.len(),
        failed_jobs: chosen,
        downloaded_at,
        jobs,
    }
}

// ---------------------------------------------------------------------------
// Printing
// ---------------------------------------------------------------------------

/// How many downloads failed, if any did.
pub open spec fn failure_note(failed: nat) -> Seq<char> {
    if failed > 0 {
        " ("@ + decimal(failed) + " failed)"@
    } else {
        ""@
    }
}

/// The name of a run and its repository.
pub open spec fn run_label(run_id: Seq<char>, owner: Seq<char>, repo: Seq<char>) -> Seq<char> {
    run_id + " ("@ + owner + "/"@ + repo + " repo)"@
}

/// What is told of a download of `chosen` logs of which `failed` failed.
pub open spec fn download_text(chosen: nat, failed: nat, label: Seq<char>) -> Seq<char> {
    if chosen > 0 {
        "Downloaded "@ + decimal((chosen - failed) as nat) + " logs for run "@ + label
            + failure_note(failed) + "\n"@
    } else {
        "No failed jobs for run "@ + label + "\n"@
    }
}

/// Tells of a download of `chosen` logs of which `failed` failed.
pub fn download_report(chosen: usize, failed: usize, run_id: &str, owner: &str, repo: &str) -> (text:
    String)
    requires
        failed <= chosen,
    ensures
        text@ == download_text(chosen as nat, failed as nat, run_label(run_id@, owner@, repo@)),
{
    let mut label = run_id.to_owned();
    label.append(" (");
    label.append(owner);
    label.append("/");
    label.append(repo);
    label.append(" repo)");
    if chosen > 0 {
        let mut text = "Downloaded ".to_owned();
        text.append(decimal_text((chosen - failed) as u128).as_str());
        text.append(" logs for run ");
        text.append(label.as_str());
        if failed > 0 {
            let mut note = " (".to_owned();
            note.append(decimal_text(failed as u128).as_str());
            note.append(" failed)");
            text.append(note.as_str());
        } else {
            text.append("");
        }
        text.append("\n");
        text
    } else {
        let mut text = "No failed jobs for run ".to_owned();
        text.append(label.as_str());
        text.append("\n");
        text
    }
}

} // verus!
