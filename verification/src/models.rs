//! The data that the reports are made of.
use vstd::prelude::*;

verus! {

/// A step of a job.
#[derive(Debug, Clone)]
pub struct Step {
    pub name: String,
    pub conclusion: Option<String>,
    pub number: u64,
    pub started_at: Option<String>,
    pub completed_at: Option<String>,
}

/// The value of a [`Step`].
#[verifier::ext_equal]
pub struct StepModel {
    pub name: Seq<char>,
    pub conclusion: Option<Seq<char>>,
    pub number: u64,
    pub started_at: Option<Seq<char>>,
    pub completed_at: Option<Seq<char>>,
}

impl DeepView for Step {
    type V = StepModel;

    open spec fn deep_view(&self) -> StepModel {
        StepModel {
            name: self.name@,
            conclusion: self.conclusion.deep_view(),
            number: self.number,
            started_at: self.started_at.deep_view(),
            completed_at: self.completed_at.deep_view(),
        }
    }
}

/// A job of a workflow run.
#[derive(Debug, Clone)]
pub struct Job {
    pub id: u64,
    pub name: String,
    pub conclusion: Option<String>,
    pub started_at: Option<String>,
    pub completed_at: Option<String>,
    pub steps: Vec<Step>,
}

/// The value of a [`Job`].
#[verifier::ext_equal]
pub struct JobModel {
    pub id: u64,
    pub name: Seq<char>,
    pub conclusion: Option<Seq<char>>,
    pub started_at: Option<Seq<char>>,
    pub completed_at: Option<Seq<char>>,
    pub steps: Seq<StepModel>,
}

impl DeepView for Job {
    type V = JobModel;

    open spec fn deep_view(&self) -> JobModel {
        JobModel {
            id: self.id,
            name: self.name@,
            conclusion: self.conclusion.deep_view(),
            started_at: self.started_at.deep_view(),
            completed_at: self.completed_at.deep_view(),
            steps: self.steps.deep_view(),
        }
    }
}

/// What is kept of a workflow run beside its logs.
pub struct RunMetadata {
    pub run_id: String,
    pub run_number: u64,
    pub head_sha: String,
    pub head_branch: String,
    pub pr_number: Option<u64>,
    pub html_url: String,
    pub created_at: String,
    pub updated_at: String,
    pub total_jobs: usize,
    pub failed_jobs: usize,
    pub downloaded_at: String,
    pub jobs: Vec<Job>,
}

/// The value of a [`RunMetadata`].
#[verifier::ext_equal]
pub struct RunMetadataModel {
    pub run_id: Seq<char>,
    pub run_number: u64,
    pub head_sha: Seq<char>,
    pub head_branch: Seq<char>,
    pub pr_number: Option<u64>,
    pub html_url: Seq<char>,
    pub created_at: Seq<char>,
    pub updated_at: Seq<char>,
    pub total_jobs: usize,
    pub failed_jobs: usize,
    pub downloaded_at: Seq<char>,
    pub jobs: Seq<JobModel>,
}

impl DeepView for RunMetadata {
    type V = RunMetadataModel;

    open spec fn deep_view(&self) -> RunMetadataModel {
        RunMetadataModel {
            run_id: self.run_id@,
            run_number: self.run_number,
            head_sha: self.head_sha@,
            head_branch: self.head_branch@,
            pr_number: self.pr_number,
            html_url: self.html_url@,
            created_at: self.created_at@,
            updated_at: self.updated_at@,
            total_jobs: self.total_jobs,
            failed_jobs: self.failed_jobs,
            downloaded_at: self.downloaded_at@,
            jobs: self.jobs.deep_view(),
        }
    }
}

/// One place at which a test error was seen.
#[derive(Debug, Clone)]
pub struct ErrorOccurrence {
    pub job: String,
    pub log_file: String,
    pub traceback: Option<String>,
}

/// The value of a [`ErrorOccurrence`].
#[verifier::ext_equal]
pub struct ErrorOccurrenceModel {
    pub job: Seq<char>,
    pub log_file: Seq<char>,
    pub traceback: Option<Seq<char>>,
}

impl DeepView for ErrorOccurrence {
    type V = ErrorOccurrenceModel;

    open spec fn deep_view(&self) -> ErrorOccurrenceModel {
        ErrorOccurrenceModel {
            job: self.job@,
            log_file: self.log_file@,
            traceback: self.traceback.deep_view(),
        }
    }
}

/// A test error, whatever the test framework.
#[derive(Debug, Clone)]
pub struct TestError {
    pub framework: String,
    pub test_file: String,
    pub test_name: String,
    pub error_type: String,
    pub message: String,
    pub line: Option<u32>,
    pub occurrences: Vec<ErrorOccurrence>,
}

/// The value of a [`TestError`].
#[verifier::ext_equal]
pub struct TestErrorModel {
    pub framework: Seq<char>,
    pub test_file: Seq<char>,
    pub test_name: Seq<char>,
    pub error_type: Seq<char>,
    pub message: Seq<char>,
    pub line: Option<u32>,
    pub occurrences: Seq<ErrorOccurrenceModel>,
}

impl DeepView for TestError {
    type V = TestErrorModel;

    open spec fn deep_view(&self) -> TestErrorModel {
        TestErrorModel {
            framework: self.framework@,
            test_file: self.test_file@,
            test_name: self.test_name@,
            error_type: self.error_type@,
            message: self.message@,
            line: self.line,
            occurrences: self.occurrences.deep_view(),
        }
    }
}

/// A step that neither succeeded nor was skipped.
#[derive(Clone)]
pub struct FailedStepOverview {
    pub name: String,
    pub conclusion: String,
    pub number: u64,
    pub duration_secs: Option<i64>,
}

/// The value of a [`FailedStepOverview`].
#[verifier::ext_equal]
pub struct FailedStepOverviewModel {
    pub name: Seq<char>,
    pub conclusion: Seq<char>,
    pub number: u64,
    pub duration_secs: Option<i64>,
}

impl DeepView for FailedStepOverview {
    type V = FailedStepOverviewModel;

    open spec fn deep_view(&self) -> FailedStepOverviewModel {
        FailedStepOverviewModel {
            name: self.name@,
            conclusion: self.conclusion@,
            number: self.number,
            duration_secs: self.duration_secs,
        }
    }
}

/// A job in the overview of a run.
#[derive(Clone)]
pub struct JobOverview {
    pub job_name: String,
    pub conclusion: String,
    pub duration_secs: Option<i64>,
    pub failed_steps: Vec<FailedStepOverview>,
}

/// The value of a [`JobOverview`].
#[verifier::ext_equal]
pub struct JobOverviewModel {
    pub job_name: Seq<char>,
    pub conclusion: Seq<char>,
    pub duration_secs: Option<i64>,
    pub failed_steps: Seq<FailedStepOverviewModel>,
}

impl DeepView for JobOverview {
    type V = JobOverviewModel;

    open spec fn deep_view(&self) -> JobOverviewModel {
        JobOverviewModel {
            job_name: self.job_name@,
            conclusion: self.conclusion@,
            duration_secs: self.duration_secs,
            failed_steps: self.failed_steps.deep_view(),
        }
    }
}

/// The error counts of one test framework.
#[derive(Clone)]
pub struct FrameworkSummary {
    pub unique_errors: usize,
    pub total_occurrences: usize,
}

/// The value of a [`FrameworkSummary`].
#[verifier::ext_equal]
pub struct FrameworkSummaryModel {
    pub unique_errors: nat,
    pub total_occurrences: nat,
}

impl DeepView for FrameworkSummary {
    type V = FrameworkSummaryModel;

    open spec fn deep_view(&self) -> FrameworkSummaryModel {
        FrameworkSummaryModel {
            unique_errors: self.unique_errors as nat,
            total_occurrences: self.total_occurrences as nat,
        }
    }
}

/// The error counts of a run. Each framework stands in `by_framework` once.
pub struct FindingsSummary {
    pub total_unique_errors: usize,
    pub total_error_occurrences: usize,
    pub jobs_analyzed: usize,
    pub by_framework: Vec<(String, FrameworkSummary)>,
}

/// The value of a [`FindingsSummary`].
#[verifier::ext_equal]
pub struct FindingsSummaryModel {
    pub total_unique_errors: nat,
    pub total_error_occurrences: nat,
    pub jobs_analyzed: nat,
    pub by_framework: Seq<(Seq<char>, FrameworkSummaryModel)>,
}

impl DeepView for FindingsSummary {
    type V = FindingsSummaryModel;

    open spec fn deep_view(&self) -> FindingsSummaryModel {
        FindingsSummaryModel {
            total_unique_errors: self.total_unique_errors as nat,
            total_error_occurrences: self.total_error_occurrences as nat,
            jobs_analyzed: self.jobs_analyzed as nat,
            by_framework: self.by_framework.deep_view(),
        }
    }
}

/// What the analysis of a run found.
pub struct Findings {
    pub analyzed_at: String,
    pub run_id: String,
    pub jobs_overview: Vec<JobOverview>,
    pub errors: Vec<TestError>,
    pub summary: FindingsSummary,
}

/// The value of a [`Findings`].
#[verifier::ext_equal]
pub struct FindingsModel {
    pub analyzed_at: Seq<char>,
    pub run_id: Seq<char>,
    pub jobs_overview: Seq<JobOverviewModel>,
    pub errors: Seq<TestErrorModel>,
    pub summary: FindingsSummaryModel,
}

impl DeepView for Findings {
    type V = FindingsModel;

    open spec fn deep_view(&self) -> FindingsModel {
        FindingsModel {
            analyzed_at: self.analyzed_at@,
            run_id: self.run_id@,
            jobs_overview: self.jobs_overview.deep_view(),
            errors: self.errors.deep_view(),
            summary: self.summary.deep_view(),
        }
    }
}

/// Copies an optional text.
pub fn copy_text(text: &Option<String>) -> (copy: Option<String>)
    ensures
        copy.deep_view() == text.deep_view(),
{
    match text {
        Some(inner) => Some(inner.clone()),
        None => None,
    }
}

impl Step {
    /// A step with the same value.
    pub fn copy(&self) -> (copy: Step)
        ensures
            copy.deep_view() == self.deep_view(),
    {
        Step {
            name: self.name.clone(),
            conclusion: copy_text(&self.conclusion),
            number: self.number,
            started_at: copy_text(&self.started_at),
            completed_at: copy_text(&self.completed_at),
        }
    }
}

impl Job {
    /// A job with the same value.
    pub fn copy(&self) -> (copy: Job)
        ensures
            copy.deep_view() == self.deep_view(),
    {
        let mut steps: Vec<Step> = Vec::new();
        let mut i: usize = 0;
        while i < self.steps.len()
            invariant
                i <= self.steps@.len(),
                steps.deep_view() == self.steps.deep_view().take(i as int),
            decreases self.steps@.len() - i,
        {
            let ghost before = steps.deep_view();
            let step = self.steps[i].copy();
            steps.push(step);
            i += 1;
            assert(steps.deep_view() =~= before.push(step.deep_view()));
            assert(steps.deep_view() =~= self.steps.deep_view().take(i as int));
        }
        assert(self.steps.deep_view().take(i as int) =~= self.steps.deep_view());
        Job {
            id: self.id,
            name: self.name.clone(),
            conclusion: copy_text(&self.conclusion),
            started_at: copy_text(&self.started_at),
            completed_at: copy_text(&self.completed_at),
            steps,
        }
    }
}

/// The framework of an error that names none.
pub fn default_framework() -> (framework: String)
    ensures
        framework@ == "pytest"@,
{
    "pytest".to_owned()
}

} // verus!
