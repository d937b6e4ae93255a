//! What a download takes, where it puts it, and what it keeps.
use super::download::{
    directory_for, directory_of, download_text, is_unsuccessful, metadata_of, pr_of, run_label, selected,
};
use crate::github::WorkflowRunModel;
use crate::models::JobModel;
use crate::number::decimal;
use vstd::prelude::*;

verus! {

/// Whether a job ended otherwise than with success.
pub open spec fn failed_otherwise(job: JobModel) -> bool {
    job.conclusion is Some && job.conclusion->0 != "success"@
}

/// How many of the first `n` jobs ended otherwise than with success.
pub open spec fn failures_before(jobs: Seq<JobModel>, n: int) -> int
    decreases n,
{
    if n <= 0 {
        0
    } else {
        failures_before(jobs, n - 1) + if failed_otherwise(jobs[n - 1]) {
            1int
        } else {
            0
        }
    }
}

proof fn lemma_selected(jobs: Seq<JobModel>, n: int, i: int)
    requires
        0 <= n <= jobs.len(),
    ensures
        ({
            let chosen = jobs.take(n).filter(is_unsuccessful());
            &&& chosen.len() == failures_before(jobs, n)
            &&& 0 <= i < n && failed_otherwise(jobs[i]) ==> 0 <= failures_before(jobs, i)
                < chosen.len() && chosen[failures_before(jobs, i)] == jobs[i]
        }),
    decreases n,
{
    if n > 0 {
        let rest = jobs.take(n - 1);
        lemma_selected(jobs, n - 1, i);
        assert(jobs.take(n) =~= rest.push(jobs[n - 1]));
        rest.lemma_filter_push(jobs[n - 1], is_unsuccessful());
    } else {
        assert(jobs.take(0).filter(is_unsuccessful()).len() == 0) by {
            reveal(Seq::filter);
        }
    }
}

/// Each job that ended otherwise than with success is selected, in the order of the jobs and
/// unchanged, and no other job is.
pub proof fn law_selected_jobs_keep_their_order(jobs: Seq<JobModel>, i: int)
    requires
        0 <= i < jobs.len(),
    ensures
        ({
            let chosen = selected(jobs, false);
            &&& chosen.len() == failures_before(jobs, jobs.len() as int)
            &&& failed_otherwise(jobs[i]) ==> 0 <= failures_before(jobs, i) < chosen.len()
                && chosen[failures_before(jobs, i)] == jobs[i]
            &&& selected(jobs, true)[i] == jobs[i]
            &&& selected(jobs, true).len() == jobs.len()
        }),
{
    lemma_selected(jobs, jobs.len() as int, i);
    assert(jobs.take(jobs.len() as int) =~= jobs);
}

/// A run counts to the first of its pull requests, and to none if it has none.
pub proof fn law_runs_count_to_their_first_pull_request(number: u64, others: Seq<u64>)
    ensures
        pr_of(seq![number] + others) == Some(number),
        pr_of(Seq::<u64>::empty()) is None,
{
}

/// The logs of a pull request go to a directory that is named by its number; those of a branch to
/// one that is named by the branch, with an underscore for each slash.
pub proof fn law_directories_are_named(number: u64, branch: Seq<char>, i: int)
    requires
        0 <= i < branch.len(),
    ensures
        directory_of(Some(number), branch) == "pr-"@ + decimal(number as nat),
        directory_of(None, branch).len() == branch.len(),
        branch[i] == '/' ==> directory_of(None, branch)[i] == '_',
        branch[i] != '/' ==> directory_of(None, branch)[i] == branch[i],
{
}

/// A run with pull requests goes to the directory of the first, whatever its branch is; any other
/// run goes to that of its branch.
pub proof fn law_runs_go_to_their_directories(run: WorkflowRunModel, i: int)
    ensures
        ({
            let name = directory_for(run);
            if run.pull_requests.len() > 0 {
                name == "pr-"@ + decimal(run.pull_requests.first() as nat)
            } else {
                &&& name.len() == run.head_branch.len()
                &&& 0 <= i < name.len() ==> name[i] == if run.head_branch[i] == '/' {
                    '_'
                } else {
                    run.head_branch[i]
                }
            }
        }),
{
}

/// What is kept of a run is what the service says of it, all its jobs and how many there are, how
/// many were chosen, and when they were downloaded.
pub proof fn law_metadata_tells_the_run(
    run_id: Seq<char>,
    run: WorkflowRunModel,
    jobs: Seq<JobModel>,
    chosen: usize,
    downloaded_at: Seq<char>,
)
    requires
        jobs.len() <= usize::MAX,
    ensures
        ({
            let kept = metadata_of(run_id, run, jobs, chosen, downloaded_at);
            &&& kept.run_id == run_id
            &&& kept.run_number == run.run_number
            &&& kept.head_sha == run.head_sha
            &&& kept.head_branch == run.head_branch
            &&& kept.html_url == run.html_url
            &&& kept.created_at == run.created_at
            &&& kept.updated_at == run.updated_at
            &&& kept.jobs == jobs
            &&& kept.total_jobs == jobs.len()
            &&& kept.failed_jobs == chosen
            &&& kept.downloaded_at == downloaded_at
            &&& run.pull_requests.len() == 0 ==> kept.pr_number is None
            &&& run.pull_requests.len() > 0 ==> kept.pr_number == Some(run.pull_requests.first())
        }),
{
}

/// A download of `saved` logs, with `failed` more that could not be had, tells both numbers, and the
/// second only if it is not zero. Without any log to download it says so.
pub proof fn law_downloads_are_told(
    saved: nat,
    failed: nat,
    run_id: Seq<char>,
    owner: Seq<char>,
    repo: Seq<char>,
)
    ensures
        ({
            let label = run_label(run_id, owner, repo);
            let text = download_text(saved + failed, failed, label);
            let run = run_id + " ("@ + owner + "/"@ + repo + " repo)"@;
            &&& label == run
            &&& saved + failed == 0 ==> text == "No failed jobs for run "@ + run + "\n"@
            &&& saved > 0 && failed == 0 ==> text == "Downloaded "@ + decimal(saved)
                + " logs for run "@ + run + "\n"@
            &&& failed > 0 ==> text == "Downloaded "@ + decimal(saved) + " logs for run "@ + run
                + " ("@ + decimal(failed) + " failed)\n"@
        }),
{
    let run = run_id + " ("@ + owner + "/"@ + repo + " repo)"@;
    let text = download_text(saved + failed, failed, run);
    reveal_strlit("");
    reveal_strlit("\n");
    reveal_strlit(" failed)");
    reveal_strlit(" failed)\n");
    assert(" failed)\n"@ =~= " failed)"@ + "\n"@);
    if saved > 0 && failed == 0 {
        assert(text =~= "Downloaded "@ + decimal(saved) + " logs for run "@ + run + "\n"@);
    }
    if failed > 0 {
        assert(text =~= "Downloaded "@ + decimal(saved) + " logs for run "@ + run + " ("@ + decimal(
            failed,
        ) + " failed)\n"@);
    }
}

} // verus!
