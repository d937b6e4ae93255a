//! The errors of a pull request over its runs.
use super::analyze::{error_signature, signature};
use crate::models::{
    Findings, FindingsModel, RunMetadata, RunMetadataModel, TestError, TestErrorModel,
};
use crate::number::{decimal, decimal_text};
use crate::order::{
    lemma_precedes_irreflexive, lemma_precedes_total, lemma_precedes_transitive, precedes, put,
    put_entry, sort_stably, stably_sorted, text_precedes, Ranked,
};
use crate::seqs::{lemma_next_where_is, next_where, put_item, take_item};
use vstd::prelude::*;

verus! {

// ---------------------------------------------------------------------------
// The report
// ---------------------------------------------------------------------------

/// A run, with the findings of its analysis if it was analyzed.
pub struct RunRecord {
    pub metadata: RunMetadata,
    pub findings: Option<Findings>,
}

/// The value of a [`RunRecord`].
#[verifier::ext_equal]
pub struct RunRecordModel {
    pub metadata: RunMetadataModel,
    pub findings: Option<FindingsModel>,
}

impl DeepView for RunRecord {
    type V = RunRecordModel;

    open spec fn deep_view(&self) -> RunRecordModel {
        RunRecordModel {
            metadata: self.metadata.deep_view(),
            findings: self.findings.deep_view(),
        }
    }
}

/// How an error develops over the runs.
#[derive(Debug, Clone, Copy, PartialEq, Eq, Structural)]
pub enum ErrorStatus {
    /// It was not there in the first run.
    Regressed,
    /// It is there in every run.
    Persistent,
    /// It is there in the first and the last run, but not in every run.
    Intermittent,
    /// It is not there any more in the last run.
    Fixed,
}

impl ErrorStatus {
    /// The word for a status.
    pub open spec fn word(self) -> Seq<char> {
        match self {
            ErrorStatus::Regressed => "regressed"@,
            ErrorStatus::Persistent => "persistent"@,
            ErrorStatus::Intermittent => "intermittent"@,
            ErrorStatus::Fixed => "fixed"@,
        }
    }

    /// The place of a status in the report.
    pub open spec fn rank(self) -> u8 {
        match self {
            ErrorStatus::Regressed => 0,
            ErrorStatus::Persistent => 1,
            ErrorStatus::Intermittent => 2,
            ErrorStatus::Fixed => 3,
        }
    }

    /// The word for a status.
    pub fn label(&self) -> (text: &'static str)
        ensures
            text@ == self.word(),
    {
        match self {
            ErrorStatus::Regressed => "regressed",
            ErrorStatus::Persistent => "persistent",
            ErrorStatus::Intermittent => "intermittent",
            ErrorStatus::Fixed => "fixed",
        }
    }

    /// The place of a status in the report.
    pub fn order(&self) -> (rank: u8)
        ensures
            rank == self.rank(),
    {
        match self {
            ErrorStatus::Regressed => 0,
            ErrorStatus::Persistent => 1,
            ErrorStatus::Intermittent => 2,
            ErrorStatus::Fixed => 3,
        }
    }
}

/// A run in the report.
pub struct RunSummary {
    pub run_id: String,
    pub run_number: u64,
    pub head_sha: String,
    pub failed_jobs: usize,
    pub unique_errors: usize,
}

/// The value of a [`RunSummary`].
#[verifier::ext_equal]
pub struct RunSummaryModel {
    pub run_id: Seq<char>,
    pub run_number: u64,
    pub head_sha: Seq<char>,
    pub failed_jobs: usize,
    pub unique_errors: nat,
}

impl DeepView for RunSummary {
    type V = RunSummaryModel;

    open spec fn deep_view(&self) -> RunSummaryModel {
        RunSummaryModel {
            run_id: self.run_id@,
            run_number: self.run_number,
            head_sha: self.head_sha@,
            failed_jobs: self.failed_jobs,
            unique_errors: self.unique_errors as nat,
        }
    }
}

/// An error over the runs. The places by run are in the order of the run identifiers.
pub struct ErrorTimeline {
    pub signature: String,
    pub test_file: String,
    pub test_name: String,
    pub error_type: String,
    pub message: String,
    pub first_seen_run: String,
    pub first_seen_sha: String,
    pub last_seen_run: String,
    pub last_seen_sha: String,
    pub status: ErrorStatus,
    pub occurrences_by_run: Vec<(String, usize)>,
    pub likely_culprit_commit: Option<String>,
    pub likely_fix_commit: Option<String>,
}

/// The value of an [`ErrorTimeline`].
#[verifier::ext_equal]
pub struct ErrorTimelineModel {
    pub signature: Seq<char>,
    pub test_file: Seq<char>,
    pub test_name: Seq<char>,
    pub error_type: Seq<char>,
    pub message: Seq<char>,
    pub first_seen_run: Seq<char>,
    pub first_seen_sha: Seq<char>,
    pub last_seen_run: Seq<char>,
    pub last_seen_sha: Seq<char>,
    pub status: ErrorStatus,
    pub occurrences_by_run: Seq<(Seq<char>, usize)>,
    pub likely_culprit_commit: Option<Seq<char>>,
    pub likely_fix_commit: Option<Seq<char>>,
}

impl DeepView for ErrorTimeline {
    type V = ErrorTimelineModel;

    open spec fn deep_view(&self) -> ErrorTimelineModel {
        ErrorTimelineModel {
            signature: self.signature@,
            test_file: self.test_file@,
            test_name: self.test_name@,
            error_type: self.error_type@,
            message: self.message@,
            first_seen_run: self.first_seen_run@,
            first_seen_sha: self.first_seen_sha@,
            last_seen_run: self.last_seen_run@,
            last_seen_sha: self.last_seen_sha@,
            status: self.status,
            occurrences_by_run: self.occurrences_by_run.deep_view(),
            likely_culprit_commit: self.likely_culprit_commit.deep_view(),
            likely_fix_commit: self.likely_fix_commit.deep_view(),
        }
    }
}

/// The report on the errors of a pull request.
pub struct Timeline {
    pub analyzed_at: String,
    pub pr_number: Option<u64>,
    pub runs_analyzed: Vec<RunSummary>,
    pub error_timeline: Vec<ErrorTimeline>,
}

/// The value of a [`Timeline`].
#[verifier::ext_equal]
pub struct TimelineModel {
    pub analyzed_at: Seq<char>,
    pub pr_number: Option<u64>,
    pub runs_analyzed: Seq<RunSummaryModel>,
    pub error_timeline: Seq<ErrorTimelineModel>,
}

impl DeepView for Timeline {
    type V = TimelineModel;

    open spec fn deep_view(&self) -> TimelineModel {
        TimelineModel {
            analyzed_at: self.analyzed_at@,
            pr_number: self.pr_number,
            runs_analyzed: self.runs_analyzed.deep_view(),
            error_timeline: self.error_timeline.deep_view(),
        }
    }
}

// ---------------------------------------------------------------------------
// Following errors over the runs
// ---------------------------------------------------------------------------

/// What is known of an error while the runs are read. Its status is not known before the last.
struct ErrorTrail {
    signature: String,
    test_file: String,
    test_name: String,
    error_type: String,
    message: String,
    first_run: String,
    first_sha: String,
    last_run: String,
    last_sha: String,
    occurrences: Vec<(String, usize)>,
}

/// What is known of an error while the runs are read.
#[verifier::ext_equal]
pub struct ErrorTrailModel {
    pub signature: Seq<char>,
    pub test_file: Seq<char>,
    pub test_name: Seq<char>,
    pub error_type: Seq<char>,
    pub message: Seq<char>,
    pub first_run: Seq<char>,
    pub first_sha: Seq<char>,
    pub last_run: Seq<char>,
    pub last_sha: Seq<char>,
    pub occurrences: Seq<(Seq<char>, usize)>,
}

impl DeepView for ErrorTrail {
    type V = ErrorTrailModel;

    closed spec fn deep_view(&self) -> ErrorTrailModel {
        ErrorTrailModel {
            signature: self.signature@,
            test_file: self.test_file@,
            test_name: self.test_name@,
            error_type: self.error_type@,
            message: self.message@,
            first_run: self.first_run@,
            first_sha: self.first_sha@,
            last_run: self.last_run@,
            last_sha: self.last_sha@,
            occurrences: self.occurrences.deep_view(),
        }
    }
}

/// An error that is seen for the first time.
pub open spec fn first_seen(run: RunMetadataModel, error: TestErrorModel) -> ErrorTrailModel {
    ErrorTrailModel {
        signature: signature(error),
        test_file: error.test_file,
        test_name: error.test_name,
        error_type: error.error_type,
        message: error.message,
        first_run: run.run_id,
        first_sha: run.head_sha,
        last_run: run.run_id,
        last_sha: run.head_sha,
        occurrences: seq![(run.run_id, error.occurrences.len() as usize)],
    }
}

/// An error that is seen again.
pub open spec fn seen_again(
    trail: ErrorTrailModel,
    run: RunMetadataModel,
    error: TestErrorModel,
) -> ErrorTrailModel {
    ErrorTrailModel {
        last_run: run.run_id,
        last_sha: run.head_sha,
        occurrences: put(trail.occurrences, run.run_id, error.occurrences.len() as usize),
        ..trail
    }
}

/// Holds of what is known of the error with the signature `wanted`.
pub open spec fn is_trail_of(wanted: Seq<char>) -> spec_fn(ErrorTrailModel) -> bool {
    |trail: ErrorTrailModel| trail.signature == wanted
}

/// What is known once `error` is seen in `run`.
pub open spec fn trails_with(
    known: Seq<ErrorTrailModel>,
    run: RunMetadataModel,
    error: TestErrorModel,
) -> Seq<ErrorTrailModel> {
    let k = next_where(known, is_trail_of(signature(error)), 0);
    if k < known.len() {
        known.update(k, seen_again(known[k], run, error))
    } else {
        known.push(first_seen(run, error))
    }
}

/// What is known once the first `n` of `errors` are seen in `run`.
pub open spec fn trails_with_errors(
    known: Seq<ErrorTrailModel>,
    run: RunMetadataModel,
    errors: Seq<TestErrorModel>,
    n: int,
) -> Seq<ErrorTrailModel>
    decreases n,
{
    if n <= 0 {
        known
    } else {
        trails_with(trails_with_errors(known, run, errors, n - 1), run, errors[n - 1])
    }
}

/// What is known once the first `n` runs are read. Runs that were not analyzed add nothing.
pub open spec fn trails_after(runs: Seq<RunRecordModel>, n: int) -> Seq<ErrorTrailModel>
    decreases n,
{
    if n <= 0 {
        seq![]
    } else {
        let known = trails_after(runs, n - 1);
        match runs[n - 1].findings {
            Some(findings) => trails_with_errors(
                known,
                runs[n - 1].metadata,
                findings.errors,
                findings.errors.len() as int,
            ),
            None => known,
        }
    }
}

/// The analyzed runs among the first `n`.
pub open spec fn run_summaries(runs: Seq<RunRecordModel>, n: int) -> Seq<RunSummaryModel>
    decreases n,
{
    if n <= 0 {
        seq![]
    } else {
        let before = run_summaries(runs, n - 1);
        let run = runs[n - 1].metadata;
        match runs[n - 1].findings {
            Some(findings) => before.push(
                RunSummaryModel {
                    run_id: run.run_id,
                    run_number: run.run_number,
                    head_sha: run.head_sha,
                    failed_jobs: run.failed_jobs,
                    unique_errors: findings.summary.total_unique_errors,
                },
            ),
            None => before,
        }
    }
}

// ---------------------------------------------------------------------------
// Telling how they developed
// ---------------------------------------------------------------------------

/// Holds of the runs with the identifier `run_id`.
pub open spec fn is_run(run_id: Seq<char>) -> spec_fn(RunRecordModel) -> bool {
    |run: RunRecordModel| run.metadata.run_id == run_id
}

/// How an error developed.
pub open spec fn status_of(trail: ErrorTrailModel, runs: Seq<RunRecordModel>) -> ErrorStatus {
    if trail.first_run != runs[0].metadata.run_id {
        ErrorStatus::Regressed
    } else if trail.last_run != runs.last().metadata.run_id {
        ErrorStatus::Fixed
    } else if trail.occurrences.len() == runs.len() {
        ErrorStatus::Persistent
    } else {
        ErrorStatus::Intermittent
    }
}

/// The commit that likely brought an error: that of the run in which it was first seen, if that was
/// not the first of several runs.
pub open spec fn culprit_of(trail: ErrorTrailModel, runs: Seq<RunRecordModel>) -> Option<
    Seq<char>,
> {
    match status_of(trail, runs) {
        ErrorStatus::Regressed => Some(trail.first_sha),
        ErrorStatus::Persistent => if runs.len() == 1 {
            Some(trail.first_sha)
        } else {
            None
        },
        _ => None,
    }
}

/// The commit that likely fixed an error: that of the run behind the one in which it was last seen.
pub open spec fn fix_of(trail: ErrorTrailModel, runs: Seq<RunRecordModel>) -> Option<
    Seq<char>,
> {
    let last = next_where(runs, is_run(trail.last_run), 0);
    if status_of(trail, runs) is Fixed && last + 1 < runs.len() {
        Some(runs[last + 1].metadata.head_sha)
    } else {
        None
    }
}

/// An error over the runs.
pub open spec fn told_of(trail: ErrorTrailModel, runs: Seq<RunRecordModel>) -> ErrorTimelineModel {
    ErrorTimelineModel {
        signature: trail.signature,
        test_file: trail.test_file,
        test_name: trail.test_name,
        error_type: trail.error_type,
        message: trail.message,
        first_seen_run: trail.first_run,
        first_seen_sha: trail.first_sha,
        last_seen_run: trail.last_run,
        last_seen_sha: trail.last_sha,
        status: status_of(trail, runs),
        occurrences_by_run: trail.occurrences,
        likely_culprit_commit: culprit_of(trail, runs),
        likely_fix_commit: fix_of(trail, runs),
    }
}

/// All errors over the runs, in the order in which they were first seen.
pub open spec fn told_of_all(runs: Seq<RunRecordModel>) -> Seq<ErrorTimelineModel> {
    let known = trails_after(runs, runs.len() as int);
    Seq::new(known.len(), |i: int| told_of(known[i], runs))
}

/// The report on runs in their order.
pub open spec fn timeline_of(runs: Seq<RunRecordModel>, analyzed_at: Seq<char>) -> TimelineModel {
    TimelineModel {
        analyzed_at,
        pr_number: if runs.len() > 0 {
            runs[0].metadata.pr_number
        } else {
            None
        },
        runs_analyzed: run_summaries(runs, runs.len() as int),
        error_timeline: stably_sorted::<ErrorTimeline>(told_of_all(runs)),
    }
}

impl Ranked for ErrorTimeline {
    open spec fn le(a: ErrorTimelineModel, b: ErrorTimelineModel) -> bool {
        ||| a.status.rank() < b.status.rank()
        ||| a.status.rank() == b.status.rank() && !precedes(b.signature, a.signature)
    }

    proof fn le_total(a: ErrorTimelineModel, b: ErrorTimelineModel) {
        if precedes(a.signature, b.signature) && precedes(b.signature, a.signature) {
            lemma_precedes_transitive(a.signature, b.signature, a.signature);
            lemma_precedes_irreflexive(a.signature);
        }
    }

    proof fn le_transitive(a: ErrorTimelineModel, b: ErrorTimelineModel, c: ErrorTimelineModel) {
        if precedes(c.signature, a.signature) {
            lemma_precedes_total(b.signature, c.signature);
            if precedes(b.signature, c.signature) {
                lemma_precedes_transitive(b.signature, c.signature, a.signature);
            }
        }
    }

    fn ranks_le(&self, other: &Self) -> (yes: bool) {
        let mine: u8 = self.status.order();
        let theirs: u8 = other.status.order();
        mine < theirs || mine == theirs && !text_precedes(
            other.signature.as_str(),
            self.signature.as_str(),
        )
    }
}

/// Notes that `error` is seen in `run`.
fn track(known: &mut Vec<ErrorTrail>, run: &RunMetadata, error: &TestError)
    ensures
        final(known).deep_view() == trails_with(
            old(known).deep_view(),
            run.deep_view(),
            error.deep_view(),
        ),
{
    let ghost start = known.deep_view();
    let ghost seen = error.deep_view();
    let wanted = error_signature(error);
    let mut k: usize = 0;
    while k < known.len() && known[k].signature != wanted
        invariant
            k <= known@.len(),
            start == known.deep_view(),
            forall|j: int| 0 <= j < k ==> !is_trail_of(wanted@)(#[trigger] start[j]),
        decreases known@.len() - k,
    {
        assert(start[k as int] == known@[k as int].deep_view());
        k += 1;
    }
    proof {
        if k < known@.len() {
            assert(start[k as int] == known@[k as int].deep_view());
        }
        lemma_next_where_is(start, is_trail_of(wanted@), 0, k as int);
    }
    let count: usize = error.occurrences.len();
    assert(count == seen.occurrences.len() as usize);
    if k < known.len() {
        let mut trail = take_item(known, k);
        trail.last_run = run.run_id.clone();
        trail.last_sha = run.head_sha.clone();
        put_entry(&mut trail.occurrences, run.run_id.clone(), count);
        assert(trail.deep_view() == seen_again(start[k as int], run.deep_view(), seen));
        put_item(known, k, trail);
        assert(known.deep_view() =~= start.update(k as int, trail.deep_view()));
    } else {
        let mut occurrences: Vec<(String, usize)> = Vec::new();
        occurrences.push((run.run_id.clone(), count));
        assert(occurrences.deep_view() =~= seq![(run.run_id@, count)]);
        let trail = ErrorTrail {
            signature: wanted,
            test_file: error.test_file.clone(),
            test_name: error.test_name.clone(),
            error_type: error.error_type.clone(),
            message: error.message.clone(),
            first_run: run.run_id.clone(),
            first_sha: run.head_sha.clone(),
            last_run: run.run_id.clone(),
            last_sha: run.head_sha.clone(),
            occurrences,
        };
        assert(trail.deep_view() == first_seen(run.deep_view(), seen));
        known.push(trail);
        assert(known.deep_view() =~= start.push(trail.deep_view()));
    }
}

/// Notes that `errors` are seen in `run`.
fn track_all(known: &mut Vec<ErrorTrail>, run: &RunMetadata, errors: &Vec<TestError>)
    ensures
        final(known).deep_view() == trails_with_errors(
            old(known).deep_view(),
            run.deep_view(),
            errors.deep_view(),
            errors@.len() as int,
        ),
{
    let ghost start = known.deep_view();
    let ghost all = errors.deep_view();
    let mut i: usize = 0;
    while i < errors.len()
        invariant
            i <= errors@.len(),
            all == errors.deep_view(),
            known.deep_view() == trails_with_errors(start, run.deep_view(), all, i as int),
        decreases errors@.len() - i,
    {
        assert(all[i as int] == errors@[i as int].deep_view());
        track(known, run, &errors[i]);
        i += 1;
    }
}

/// Tells how an error developed.
fn classify(trail: ErrorTrail, runs: &Vec<RunRecord>) -> (result: ErrorTimeline)
    requires
        runs@.len() > 0,
    ensures
        result.deep_view() == told_of(trail.deep_view(), runs.deep_view()),
{
    let ghost all = runs.deep_view();
    let ghost start = trail.deep_view();
    let total: usize = runs.len();
    assert(all[0] == runs@[0].deep_view());
    assert(all.last() == runs@[total - 1].deep_view());
    let mut culprit: Option<String> = None;
    let mut fix: Option<String> = None;
    let status = if trail.first_run != runs[0].metadata.run_id {
        culprit = Some(trail.first_sha.clone());
        ErrorStatus::Regressed
    } else if trail.last_run != runs[total - 1].metadata.run_id {
        let mut last: usize = 0;
        while last < total && runs[last].metadata.run_id != trail.last_run
            invariant
                last <= total == runs@.len(),
                all == runs.deep_view(),
                start == trail.deep_view(),
                forall|j: int| 0 <= j < last ==> !is_run(start.last_run)(#[trigger] all[j]),
            decreases total - last,
        {
            assert(all[last as int] == runs@[last as int].deep_view());
            last += 1;
        }
        proof {
            if last < total {
                assert(all[last as int] == runs@[last as int].deep_view());
            }
            lemma_next_where_is(all, is_run(start.last_run), 0, last as int);
        }
        if last < total - 1 {
            assert(all[last + 1] == runs@[last + 1].deep_view());
            fix = Some(runs[last + 1].metadata.head_sha.clone());
        }
        ErrorStatus::Fixed
    } else if trail.occurrences.len() == total {
        if total == 1 {
            culprit = Some(trail.first_sha.clone());
        }
        ErrorStatus::Persistent
    } else {
        ErrorStatus::Intermittent
    };
    ErrorTimeline {
        signature: trail.signature,
        test_file: trail.test_file,
        test_name: trail.test_name,
        error_type: trail.error_type,
        message: trail.message,
        first_seen_run: trail.first_run,
        first_seen_sha: trail.first_sha,
        last_seen_run: trail.last_run,
        last_seen_sha: trail.last_sha,
        status,
        occurrences_by_run: trail.occurrences,
        likely_culprit_commit: culprit,
        likely_fix_commit: fix,
    }
}

/// Builds the report on runs that are in their order.
pub fn build_timeline(runs: &Vec<RunRecord>, analyzed_at: String) -> (timeline: Timeline)
    ensures
        timeline.deep_view() == timeline_of(runs.deep_view(), analyzed_at@),
{
    let ghost all = runs.deep_view();
    let mut known: Vec<ErrorTrail> = Vec::new();
    let mut summaries: Vec<RunSummary> = Vec::new();
    let mut i: usize = 0;
    assert(known.deep_view() =~= seq![]);
    assert(summaries.deep_view() =~= seq![]);
    while i < runs.len()
        invariant
            i <= runs@.len(),
            all == runs.deep_view(),
            known.deep_view() == trails_after(all, i as int),
            summaries.deep_view() == run_summaries(all, i as int),
        decreases runs@.len() - i,
    {
        let run = &runs[i];
        assert(all[i as int] == run.deep_view());
        match &run.findings {
            Some(findings) => {
                let ghost before = summaries.deep_view();
                let summary = RunSummary {
                    run_id: run.metadata.run_id.clone(),
                    run_number: run.metadata.run_number,
                    head_sha: run.metadata.head_sha.clone(),
                    failed_jobs: run.metadata.failed_jobs,
                    unique_errors: findings.summary.total_unique_errors,
                };
                summaries.push(summary);
                assert(summaries.deep_view() =~= before.push(summary.deep_view()));
                track_all(&mut known, &run.metadata, &findings.errors);
            },
            None => {},
        }
        i += 1;
    }
    let ghost trails = known@;
    let ghost told = told_of_all(all);
    let mut error_timeline: Vec<ErrorTimeline> = Vec::new();
    assert(error_timeline.deep_view() =~= told.take(0));
    assert(known.deep_view().len() == 0 || runs@.len() > 0);
    for error in it: known.into_iter()
        invariant
            it.seq() == trails,
            all == runs.deep_view(),
            told == told_of_all(all),
            trails.len() == told.len(),
            trails.len() > 0 ==> runs@.len() > 0,
            forall|j: int|
                0 <= j < trails.len() ==> told[j] == told_of(
                    (#[trigger] trails[j]).deep_view(),
                    all,
                ),
            error_timeline.deep_view() == told.take(it.index() as int),
    {
        let ghost before = error_timeline.deep_view();
        assert(error == trails[it.index() as int]);
        let item = classify(error, runs);
        error_timeline.push(item);
        assert(error_timeline.deep_view() =~= before.push(item.deep_view()));
        assert(error_timeline.deep_view() =~= told.take(it.index() + 1));
    }
    assert(told.take(told.len() as int) =~= told);
    sort_stably(&mut error_timeline);
    let pr_number = if runs.len() > 0 {
        assert(all[0] == runs@[0].deep_view());
        runs[0].metadata.pr_number
    } else {
        None
    };
    Timeline { analyzed_at, pr_number, runs_analyzed: summaries, error_timeline }
}

// ---------------------------------------------------------------------------
// Printing
// ---------------------------------------------------------------------------

/// How many of the first `n` errors have the status `status`.
pub open spec fn count_of(errors: Seq<ErrorTimelineModel>, n: int, status: ErrorStatus) -> nat
    decreases n,
{
    if n <= 0 {
        0
    } else if errors[n - 1].status == status {
        count_of(errors, n - 1, status) + 1
    } else {
        count_of(errors, n - 1, status)
    }
}

/// How many errors have the status `status`.
pub open spec fn total_of(errors: Seq<ErrorTimelineModel>, status: ErrorStatus) -> nat {
    count_of(errors, errors.len() as int, status)
}

/// The line of a status in the summary.
pub open spec fn status_line(label: Seq<char>, count: nat) -> Seq<char> {
    label + decimal(count) + " errors\n"@
}

/// The summary of the report as it is printed, behind an empty line.
pub open spec fn timeline_text(errors: Seq<ErrorTimelineModel>) -> Seq<char> {
    "\n✓ Timeline analysis:\n"@ + status_line(
        "  Regressed:    "@,
        total_of(errors, ErrorStatus::Regressed),
    ) + status_line("  Persistent:   "@, total_of(errors, ErrorStatus::Persistent)) + status_line(
        "  Intermittent: "@,
        total_of(errors, ErrorStatus::Intermittent),
    ) + status_line("  Fixed:        "@, total_of(errors, ErrorStatus::Fixed))
}

/// Counts the errors with the status `status`.
pub fn count_status(errors: &Vec<ErrorTimeline>, status: ErrorStatus) -> (count: usize)
    ensures
        count == total_of(errors.deep_view(), status),
{
    let ghost all = errors.deep_view();
    let mut count: usize = 0;
    let mut i: usize = 0;
    while i < errors.len()
        invariant
            i <= errors@.len(),
            all == errors.deep_view(),
            count <= i,
            count == count_of(all, i as int, status),
        decreases errors@.len() - i,
    {
        assert(all[i as int] == errors@[i as int].deep_view());
        if errors[i].status == status {
            count += 1;
        }
        i += 1;
    }
    count
}

fn status_text(label: &str, count: usize) -> (text: String)
    ensures
        text@ == status_line(label@, count as nat),
{
    let mut text = label.to_owned();
    text.append(decimal_text(count as u128).as_str());
    text.append(" errors\n");
    text
}

/// Writes the summary of the report as it is printed.
pub fn timeline_report(timeline: &Timeline) -> (text: String)
    ensures
        text@ == timeline_text(timeline.error_timeline.deep_view()),
{
    let errors = &timeline.error_timeline;
    let mut text = "\n✓ Timeline analysis:\n".to_owned();
    let regressed: usize = count_status(errors, ErrorStatus::Regressed);
    text.append(status_text("  Regressed:    ", regressed).as_str());
    let persistent: usize = count_status(errors, ErrorStatus::Persistent);
    text.append(status_text("  Persistent:   ", persistent).as_str());
    let intermittent: usize = count_status(errors, ErrorStatus::Intermittent);
    text.append(status_text("  Intermittent: ", intermittent).as_str());
    let fixed: usize = count_status(errors, ErrorStatus::Fixed);
    text.append(status_text("  Fixed:        ", fixed).as_str());
    text
}

/// What to tell of a run that was not analyzed.
pub open spec fn missing_findings_text(run_id: Seq<char>) -> Seq<char> {
    "⚠ No findings.json for run "@ + run_id + " - run `analyze` first"@
}

/// What to tell of a run that was not analyzed.
pub fn missing_findings_message(run_id: &str) -> (text: String)
    ensures
        text@ == "⚠ No findings.json for run "@ + run_id@ + " - run `analyze` first"@,
        text@ == missing_findings_text(run_id@),
{
    let mut text = "⚠ No findings.json for run ".to_owned();
    text.append(run_id);
    text.append(" - run `analyze` first");
    text
}

/// Each error has one of the four statuses, so their counts add up.
pub proof fn law_statuses_add_up(errors: Seq<ErrorTimelineModel>)
    ensures
        total_of(errors, ErrorStatus::Regressed) + total_of(errors, ErrorStatus::Persistent)
            + total_of(errors, ErrorStatus::Intermittent) + total_of(errors, ErrorStatus::Fixed)
            == errors.len(),
{
    lemma_statuses_add_up(errors, errors.len() as int);
}

proof fn lemma_statuses_add_up(errors: Seq<ErrorTimelineModel>, n: int)
    requires
        0 <= n <= errors.len(),
    ensures
        count_of(errors, n, ErrorStatus::Regressed) + count_of(errors, n, ErrorStatus::Persistent)
            + count_of(errors, n, ErrorStatus::Intermittent) + count_of(
            errors,
            n,
            ErrorStatus::Fixed,
        ) == n,
    decreases n,
{
    if n > 0 {
        lemma_statuses_add_up(errors, n - 1);
    }
}

} // verus!
