//! The GitHub side of a download: addresses, request headers, the token, pages of jobs and log
//! files.
use crate::models::{Job, JobModel};
use crate::number::{decimal, decimal_text};
use crate::text::{
    chars_of, cut, lemma_found_from, lemma_found_is, occurs_at, pieces, replace, replaced, same,
    split, split_once, trim, trimmed,
};
use reqwest::header::{HeaderMap, HeaderValue};
use std::string::FromUtf8Error;
use vstd::prelude::*;
use vstd::utf8::{decode_utf8, valid_utf8};

verus! {

// ---------------------------------------------------------------------------
// What the service answers
// ---------------------------------------------------------------------------

/// A page of jobs.
#[derive(Debug)]
pub struct JobsResponse {
    pub jobs: Vec<Job>,
}

/// A workflow run.
#[derive(Debug)]
pub struct WorkflowRun {
    pub head_branch: String,
    pub event: String,
    pub head_sha: String,
    pub run_number: u64,
    pub created_at: String,
    pub updated_at: String,
    pub html_url: String,
    pub pull_requests: Vec<PullRequest>,
}

/// A pull request that a run belongs to.
#[derive(Debug)]
pub struct PullRequest {
    pub number: u64,
}

/// The value of a [`WorkflowRun`], its pull requests by their numbers.
#[verifier::ext_equal]
pub struct WorkflowRunModel {
    pub head_branch: Seq<char>,
    pub event: Seq<char>,
    pub head_sha: Seq<char>,
    pub run_number: u64,
    pub created_at: Seq<char>,
    pub updated_at: Seq<char>,
    pub html_url: Seq<char>,
    pub pull_requests: Seq<u64>,
}

impl DeepView for WorkflowRun {
    type V = WorkflowRunModel;

    open spec fn deep_view(&self) -> WorkflowRunModel {
        WorkflowRunModel {
            head_branch: self.head_branch@,
            event: self.event@,
            head_sha: self.head_sha@,
            run_number: self.run_number,
            created_at: self.created_at@,
            updated_at: self.updated_at@,
            html_url: self.html_url@,
            pull_requests: self.pull_requests.deep_view(),
        }
    }
}

impl DeepView for PullRequest {
    type V = u64;

    open spec fn deep_view(&self) -> u64 {
        self.number
    }
}

// ---------------------------------------------------------------------------
// The address of a run
// ---------------------------------------------------------------------------

/// An address that does not name a workflow run.
#[derive(Debug, Clone, Copy, PartialEq, Eq)]
pub struct InvalidRunUrl;

impl InvalidRunUrl {
    /// What is wrong with the address.
    pub fn message(&self) -> (text: String)
        ensures
            text@ == "Invalid GitHub Actions run URL format"@,
    {
        "Invalid GitHub Actions run URL format".to_owned()
    }
}

/// Whether the parts of an address between its slashes lead to the runs of a repository.
pub open spec fn leads_to_runs(parts: Seq<Seq<char>>) -> bool {
    parts.len() >= 7 && parts[5] == "actions"@ && parts[6] == "runs"@
}

/// Whether an address that leads to the runs of a repository goes on behind them.
pub open spec fn is_complete(url: Seq<char>) -> bool {
    let parts = pieces(url, "/"@);
    leads_to_runs(parts) ==> parts.len() > 7
}

/// What stands before the first question mark.
pub open spec fn without_query(part: Seq<char>) -> Seq<char> {
    match cut(part, "?"@) {
        Some((path, _)) => path,
        None => part,
    }
}

/// Whether an address that leads to the runs of a repository goes on behind them.
pub fn is_complete_url(url: &str) -> (yes: bool)
    ensures
        yes == is_complete(url@),
{
    proof {
        reveal_strlit("/");
    }
    let parts = split(url, "/");
    let ghost views = parts.deep_view();
    if parts.len() == 7 {
        assert(views[5] == parts@[5]@ && views[6] == parts@[6]@);
        !(same(parts[5].as_str(), "actions") && same(parts[6].as_str(), "runs"))
    } else {
        true
    }
}

/// The owner, the repository and the run that an address names.
pub open spec fn run_named_by(url: Seq<char>) -> Option<(Seq<char>, Seq<char>, Seq<char>)> {
    let parts = pieces(url, "/"@);
    if leads_to_runs(parts) {
        Some((parts[3], parts[4], without_query(parts[7])))
    } else {
        None
    }
}

/// Reads the owner, the repository and the run from the address of a run, or of a job of a run.
pub fn parse_run_url(url: &str) -> (result: Result<(String, String, String), InvalidRunUrl>)
    requires
        is_complete(url@),
    ensures
        result is Ok <==> leads_to_runs(pieces(url@, "/"@)),
        result matches Ok((owner, repo, run_id)) ==> {
            let parts = pieces(url@, "/"@);
            &&& owner@ == parts[3]
            &&& repo@ == parts[4]
            &&& run_id@ == without_query(parts[7])
        },
        match (result, run_named_by(url@)) {
            (Ok((owner, repo, run_id)), Some(named)) => named == (owner@, repo@, run_id@),
            (Err(_), None) => true,
            _ => false,
        },
{
    proof {
        reveal_strlit("/");
    }
    let parts = split(url, "/");
    let ghost views = parts.deep_view();
    if parts.len() < 7 {
        return Err(InvalidRunUrl);
    }
    assert(views[5] == parts@[5]@ && views[6] == parts@[6]@);
    if !same(parts[5].as_str(), "actions") || !same(parts[6].as_str(), "runs") {
        return Err(InvalidRunUrl);
    }
    assert(views[3] == parts@[3]@ && views[4] == parts@[4]@ && views[7] == parts@[7]@);
    let owner = parts[3].clone();
    let repo = parts[4].clone();
    let run_id = match split_once(parts[7].as_str(), "?") {
        Some((path, _)) => path.to_owned(),
        None => parts[7].clone(),
    };
    Ok((owner, repo, run_id))
}

/// Whether `c` stands nowhere in `s`.
pub open spec fn is_free_of(s: Seq<char>, c: char) -> bool {
    forall|i: int| 0 <= i < s.len() ==> s[i] != c
}

/// A text that is cut at `c` gives back the part before the first `c`.
proof fn lemma_cut_at(a: Seq<char>, c: char, b: Seq<char>)
    requires
        is_free_of(a, c),
    ensures
        cut(a + seq![c] + b, seq![c]) == Some((a, b)),
{
    let s = a + seq![c] + b;
    let k = a.len() as int;
    assert(s.subrange(k, k + 1) =~= seq![c]);
    assert forall|j: int| 0 <= j < k implies !#[trigger] occurs_at(s, seq![c], j) by {
        if occurs_at(s, seq![c], j) {
            assert(s.subrange(j, j + 1)[0] == c);
            assert(s[j] == a[j]);
        }
    }
    lemma_found_is(s, seq![c], k);
    assert(s.take(k) =~= a);
    assert(s.skip(k + 1) =~= b);
}

/// A text without `c` is not cut at `c`.
proof fn lemma_no_cut(a: Seq<char>, c: char)
    requires
        is_free_of(a, c),
    ensures
        cut(a, seq![c]) is None,
{
    lemma_found_from(a, seq![c], 0);
    if let Some(k) = crate::text::found(a, seq![c]) {
        assert(a.subrange(k, k + 1)[0] == c);
    }
}

/// The first piece of a text is what stands before the first separator.
proof fn lemma_pieces_step(a: Seq<char>, c: char, b: Seq<char>)
    requires
        is_free_of(a, c),
    ensures
        pieces(a + seq![c] + b, seq![c]) == seq![a] + pieces(b, seq![c]),
{
    lemma_cut_at(a, c, b);
    lemma_found_from(a + seq![c] + b, seq![c], 0);
}

/// The address of a run.
pub open spec fn run_address(owner: Seq<char>, repo: Seq<char>, run_id: Seq<char>) -> Seq<char> {
    "https://github.com/"@ + owner + "/"@ + repo + "/actions/runs/"@ + run_id
}

/// The address of a run, with or without something behind the run such as a job or a query, is
/// read back as its owner, its repository and its run.
pub proof fn law_run_address_is_read_back(
    owner: Seq<char>,
    repo: Seq<char>,
    run_id: Seq<char>,
    tail: Seq<char>,
)
    requires
        is_free_of(owner, '/'),
        is_free_of(repo, '/'),
        is_free_of(run_id, '/'),
        is_free_of(run_id, '?'),
        tail.len() == 0 || tail[0] == '/' || tail[0] == '?',
    ensures
        ({
            let url = run_address(owner, repo, run_id) + tail;
            let parts = pieces(url, "/"@);
            &&& is_complete(url)
            &&& leads_to_runs(parts)
            &&& parts[3] == owner
            &&& parts[4] == repo
            &&& without_query(parts[7]) == run_id
        }),
{
    reveal_strlit("https://github.com/");
    reveal_strlit("/");
    reveal_strlit("?");
    reveal_strlit("/actions/runs/");
    reveal_strlit("actions");
    reveal_strlit("runs");
    let c = '/';
    let sep = seq![c];
    let last = run_id + tail;
    let p6 = "runs"@ + sep + last;
    let p5 = "actions"@ + sep + p6;
    let p4 = repo + sep + p5;
    let p3 = owner + sep + p4;
    let host = seq!['g', 'i', 't', 'h', 'u', 'b', '.', 'c', 'o', 'm'];
    let scheme = seq!['h', 't', 't', 'p', 's', ':'];
    let none = Seq::<char>::empty();
    let p2 = host + sep + p3;
    let p1 = none + sep + p2;
    let url = scheme + sep + p1;
    assert("/"@ =~= sep);
    assert("?"@ =~= seq!['?']);
    assert(run_address(owner, repo, run_id) + tail =~= url);
    lemma_pieces_step(scheme, c, p1);
    lemma_pieces_step(none, c, p2);
    lemma_pieces_step(host, c, p3);
    lemma_pieces_step(owner, c, p4);
    lemma_pieces_step(repo, c, p5);
    lemma_pieces_step("actions"@, c, p6);
    lemma_pieces_step("runs"@, c, last);
    let parts = pieces(url, sep);
    assert(parts =~= seq![scheme, none, host, owner, repo, "actions"@, "runs"@] + pieces(last, sep));
    // The part with the run is cut at a slash of the tail, if there is one.
    lemma_found_from(last, sep, 0);
    let part = parts[7];
    if tail.len() > 0 && tail[0] == c {
        assert(last.subrange(run_id.len() as int, run_id.len() as int + 1) =~= sep);
        assert(occurs_at(last, sep, run_id.len() as int));
    }
    match cut(last, sep) {
        Some((before, after)) => {
            let k = crate::text::found(last, sep)->0;
            assert(part == before);
            assert(k >= run_id.len()) by {
                if k < run_id.len() {
                    assert(last.subrange(k, k + 1)[0] == c);
                    assert(last[k] == run_id[k]);
                }
            }
            assert(before =~= run_id + tail.take(k - run_id.len()));
            lemma_query(run_id, tail.take(k - run_id.len()), tail, k - run_id.len());
        },
        None => {
            assert(part == last);
            assert(tail.take(tail.len() as int) =~= tail);
            lemma_query(run_id, tail, tail, tail.len() as int);
        },
    }
}

/// A beginning of the tail of an address adds nothing to its run but a query.
proof fn lemma_query(run_id: Seq<char>, part: Seq<char>, tail: Seq<char>, k: int)
    requires
        is_free_of(run_id, '?'),
        0 <= k <= tail.len(),
        part == tail.take(k),
        k == 0 || tail[0] == '?',
    ensures
        without_query(run_id + part) == run_id,
{
    reveal_strlit("?");
    assert("?"@ =~= seq!['?']);
    if k == 0 {
        assert(run_id + part =~= run_id);
        lemma_no_cut(run_id, '?');
    } else {
        assert(run_id + part =~= run_id + seq!['?'] + part.drop_first());
        lemma_cut_at(run_id, '?', part.drop_first());
    }
}

// ---------------------------------------------------------------------------
// The token
// ---------------------------------------------------------------------------

/// The error of `String::from_utf8`.
#[verifier::external_type_specification]
#[verifier::external_body]
pub struct ExFromUtf8Error(FromUtf8Error);

/// `String::from_utf8` decodes bytes that are valid UTF-8 and refuses all others.
pub assume_specification[ String::from_utf8 ](bytes: Vec<u8>) -> (result: Result<
    String,
    FromUtf8Error,
>)
    ensures
        result is Ok <==> valid_utf8(bytes@),
        result matches Ok(text) ==> text@ == decode_utf8(bytes@),
;

/// What a command printed, and whether it succeeded.
pub struct CommandOutput {
    pub success: bool,
    pub stdout: Vec<u8>,
}

/// Why there is no token.
#[derive(Debug)]
pub enum TokenError {
    /// The command that prints it could not be run, or failed.
    Missing,
    /// The command printed something that is not text.
    NotText(FromUtf8Error),
}

impl TokenError {
    /// What to tell of a token that is missing.
    pub fn missing_message() -> (text: String)
        ensures
            text@ == "No GitHub token found. Set GITHUB_TOKEN env var or use --token"@,
    {
        "No GitHub token found. Set GITHUB_TOKEN env var or use --token".to_owned()
    }
}

/// The token in the output of the command that prints it.
pub open spec fn token_in(output: Option<CommandOutput>) -> Option<Seq<char>> {
    match output {
        Some(output) => if output.success && valid_utf8(output.stdout@) {
            Some(trimmed(decode_utf8(output.stdout@)))
        } else {
            None
        },
        None => None,
    }
}

/// Takes the token from the output of the command that prints it; there is no output if the command
/// could not be run.
pub fn token_from_output(output: Option<CommandOutput>) -> (result: Result<String, TokenError>)
    ensures
        match output {
            Some(output) => if !output.success {
                result matches Err(TokenError::Missing)
            } else if valid_utf8(output.stdout@) {
                result matches Ok(token) && token@ == trimmed(decode_utf8(output.stdout@))
            } else {
                result matches Err(TokenError::NotText(_))
            },
            None => result matches Err(TokenError::Missing),
        },
        match result {
            Ok(token) => token_in(output) == Some(token@),
            Err(_) => token_in(output) is None,
        },
{
    match output {
        Some(output) => {
            if output.success {
                match String::from_utf8(output.stdout) {
                    Ok(text) => Ok(trim(text.as_str()).to_owned()),
                    Err(error) => Err(TokenError::NotText(error)),
                }
            } else {
                Err(TokenError::Missing)
            }
        },
        None => Err(TokenError::Missing),
    }
}

// ---------------------------------------------------------------------------
// Request headers
// ---------------------------------------------------------------------------

/// A header value of the `http` crate.
#[verifier::external_type_specification]
#[verifier::external_body]
pub struct ExHeaderValue(reqwest::header::HeaderValue);

/// A header map of the `http` crate.
#[verifier::external_type_specification]
#[verifier::external_body]
#[verifier::reject_recursive_types(T)]
pub struct ExHeaderMap<T>(reqwest::header::HeaderMap<T>);

/// The values that a header map holds under each name. Names are in lower case.
pub uninterp spec fn header_entries(headers: HeaderMap) -> Map<Seq<char>, Seq<Seq<char>>>;

/// No headers.
pub open spec fn no_headers() -> Map<Seq<char>, Seq<Seq<char>>> {
    Map::empty()
}

/// Whether `s` is a short header name of lower case letters and hyphens.
pub open spec fn is_header_name(s: Seq<char>) -> bool {
    &&& 0 < s.len() <= 64
    &&& forall|i: int| 0 <= i < s.len() ==> 'a' <= #[trigger] s[i] <= 'z' || s[i] == '-'
}

/// Whether a header value can hold `s`: no control characters of ASCII but tabs.
pub open spec fn is_header_text(s: Seq<char>) -> bool {
    forall|i: int|
        0 <= i < s.len() ==> 32 <= (#[trigger] s[i]) as u32 && s[i] as u32 != 127 || s[i] == '\t'
}

/// `HeaderMap::new` makes an empty map.
#[verifier::external_body]
fn new_headers() -> (headers: HeaderMap)
    ensures
        header_entries(headers) == no_headers(),
{
    HeaderMap::new()
}

/// `HeaderMap::insert`, with the value made by `HeaderValue::from_str`: the value takes the place
/// of all that stood under the name. A name in lower case is kept as it is, a text without control
/// characters is a value, and a map of so few names does not reach its greatest size.
#[verifier::external_body]
fn insert_header(headers: &mut HeaderMap, name: &'static str, value: &str)
    requires
        is_header_name(name@),
        is_header_text(value@),
        header_entries(*old(headers)).dom().finite(),
        header_entries(*old(headers)).dom().len() <= 16,
    ensures
        header_entries(*final(headers)) == header_entries(*old(headers)).insert(
            name@,
            seq![value@],
        ),
{
    headers.insert(name, HeaderValue::from_str(value).unwrap());
}

/// The headers of a request with `token`.
pub open spec fn request_headers(token: Seq<char>) -> Map<Seq<char>, Seq<Seq<char>>> {
    map![
        "authorization"@ => seq!["Bearer "@ + token],
        "accept"@ => seq!["application/vnd.github+json"@],
        "user-agent"@ => seq!["gh-logs-grab"@],
        "x-github-api-version"@ => seq!["2022-11-28"@],
    ]
}

/// Whether a token can stand in a header.
pub fn is_header_token(token: &str) -> (yes: bool)
    ensures
        yes == is_header_text(token@),
{
    let chars = chars_of(token);
    let mut i: usize = 0;
    while i < chars.len()
        invariant
            chars@ == token@,
            i <= chars@.len(),
            forall|j: int|
                0 <= j < i ==> 32 <= (#[trigger] chars@[j]) as u32 && chars@[j] as u32 != 127
                    || chars@[j] == '\t',
        decreases chars@.len() - i,
    {
        let c = chars[i];
        if !(32 <= c as u32 && c as u32 != 127 || c == '\t') {
            assert(token@[i as int] == c);
            return false;
        }
        i += 1;
    }
    true
}

/// Makes the headers of requests with `token`.
pub fn build_headers(token: &str) -> (headers: HeaderMap)
    requires
        is_header_text(token@),
    ensures
        header_entries(headers) == request_headers(token@),
{
    proof {
        reveal_strlit("authorization");
        reveal_strlit("accept");
        reveal_strlit("user-agent");
        reveal_strlit("x-github-api-version");
        reveal_strlit("Bearer ");
        reveal_strlit("application/vnd.github+json");
        reveal_strlit("gh-logs-grab");
        reveal_strlit("2022-11-28");
    }
    let mut bearer = "Bearer ".to_owned();
    bearer.append(token);
    assert forall|i: int| 0 <= i < bearer@.len() implies 32 <= (#[trigger] bearer@[i]) as u32
        && bearer@[i] as u32 != 127 || bearer@[i] == '\t' by {
        if i >= 7 {
            assert(bearer@[i] == token@[i - 7]);
        }
    }
    let mut headers = new_headers();
    insert_header(&mut headers, "authorization", bearer.as_str());
    insert_header(&mut headers, "accept", "application/vnd.github+json");
    insert_header(&mut headers, "user-agent", "gh-logs-grab");
    insert_header(&mut headers, "x-github-api-version", "2022-11-28");
    assert(header_entries(headers) =~= request_headers(token@));
    headers
}

// ---------------------------------------------------------------------------
// Addresses of the service
// ---------------------------------------------------------------------------

/// The address of a repository.
pub open spec fn repository_address(owner: Seq<char>, repo: Seq<char>) -> Seq<char> {
    "https://api.github.com/repos/"@ + owner + "/"@ + repo
}

/// The address of what is known of a run.
pub open spec fn run_info_address(
    owner: Seq<char>,
    repo: Seq<char>,
    run_id: Seq<char>,
) -> Seq<char> {
    repository_address(owner, repo) + "/actions/runs/"@ + run_id
}

/// The address of a page of the jobs of a run.
pub open spec fn jobs_address(
    owner: Seq<char>,
    repo: Seq<char>,
    run_id: Seq<char>,
    page: nat,
) -> Seq<char> {
    run_info_address(owner, repo, run_id) + "/jobs?per_page=100"@ + "&page="@ + decimal(page)
}

/// The address of the log of a job.
pub open spec fn job_log_address(owner: Seq<char>, repo: Seq<char>, job_id: nat) -> Seq<char> {
    repository_address(owner, repo) + "/actions/jobs/"@ + decimal(job_id) + "/logs"@
}

fn repository_url(owner: &str, repo: &str) -> (url: String)
    ensures
        url@ == repository_address(owner@, repo@),
{
    let mut url = "https://api.github.com/repos/".to_owned();
    url.append(owner);
    url.append("/");
    url.append(repo);
    url
}

/// The address of what is known of a run.
pub fn run_info_url(owner: &str, repo: &str, run_id: &str) -> (url: String)
    ensures
        url@ == run_info_address(owner@, repo@, run_id@),
{
    let mut url = repository_url(owner, repo);
    url.append("/actions/runs/");
    url.append(run_id);
    url
}

/// The address of the log of a job.
pub fn job_log_url(owner: &str, repo: &str, job_id: u64) -> (url: String)
    ensures
        url@ == job_log_address(owner@, repo@, job_id as nat),
{
    let mut url = repository_url(owner, repo);
    url.append("/actions/jobs/");
    url.append(decimal_text(job_id as u128).as_str());
    url.append("/logs");
    url
}

/// What to tell of a request that was answered with the status `status`.
pub open spec fn refusal(status: Seq<char>) -> Seq<char> {
    "API request failed: "@ + status
}

/// What to tell of a request that was answered with the status `status`.
pub fn refusal_message(status: &str) -> (text: String)
    ensures
        text@ == refusal(status@),
{
    let mut text = "API request failed: ".to_owned();
    text.append(status);
    text
}

// ---------------------------------------------------------------------------
// Pages of jobs
// ---------------------------------------------------------------------------

/// The jobs of a run, as far as their pages were read.
pub struct JobPages {
    pub jobs: Vec<Job>,
    pub pages: usize,
}

/// The answer to the request for a page.
pub enum PageReply {
    /// The service refused, with this status.
    Refused(String),
    /// The page.
    Page(JobsResponse),
}

/// What to do after a page.
pub enum PageStep {
    /// Give up and tell this.
    Fail(String),
    /// All jobs were read.
    Done,
    /// Ask for the next page.
    More,
}

impl JobPages {
    /// No page that was read is empty.
    pub open spec fn well_formed(&self) -> bool {
        self.pages <= self.jobs@.len()
    }

    /// No page was read yet.
    pub fn new() -> (result: JobPages)
        ensures
            result.well_formed(),
            result.jobs@.len() == 0,
            result.pages == 0,
    {
        JobPages { jobs: Vec::new(), pages: 0 }
    }

    /// The address of the next page.
    pub open spec fn next_address(
        self,
        owner: Seq<char>,
        repo: Seq<char>,
        run_id: Seq<char>,
    ) -> Seq<char> {
        jobs_address(owner, repo, run_id, (self.pages + 1) as nat)
    }

    /// The address of the next page. Pages count from one.
    pub fn next_url(&self, owner: &str, repo: &str, run_id: &str) -> (url: String)
        ensures
            url@ == jobs_address(owner@, repo@, run_id@, (self.pages + 1) as nat),
            url@ == self.next_address(owner@, repo@, run_id@),
    {
        let mut url = run_info_url(owner, repo, run_id);
        url.append("/jobs?per_page=100");
        url.append("&page=");
        url.append(decimal_text(self.pages as u128 + 1).as_str());
        url
    }

    /// Whether `reply` to the request for the next page leads from `self` to `next`, and then to
    /// `step`: an empty page is behind the last.
    pub open spec fn leads_to(self, reply: PageReply, next: JobPages, step: PageStep) -> bool {
        match reply {
            PageReply::Refused(status) => {
                &&& step matches PageStep::Fail(text)
                &&& text@ == refusal(status@)
                &&& next == self
            },
            PageReply::Page(page) => if page.jobs@.len() == 0 {
                step is Done && next == self
            } else {
                &&& step is More
                &&& next.jobs@ == self.jobs@ + page.jobs@
                &&& next.pages == self.pages + 1
            },
        }
    }

    /// Takes the answer to the request for the next page.
    pub fn step(&mut self, reply: PageReply) -> (step: PageStep)
        requires
            old(self).well_formed(),
        ensures
            final(self).well_formed(),
            old(self).leads_to(reply, *final(self), step),
    {
        match reply {
            PageReply::Refused(status) => PageStep::Fail(refusal_message(status.as_str())),
            PageReply::Page(page) => {
                let mut jobs = page.jobs;
                if jobs.len() == 0 {
                    PageStep::Done
                } else {
                    self.jobs.append(&mut jobs);
                    let length: usize = self.jobs.len();
                    assert(self.pages < length);
                    self.pages = self.pages + 1;
                    PageStep::More
                }
            },
        }
    }
}

/// The jobs on the first `n` pages.
pub open spec fn jobs_on(pages: Seq<JobsResponse>, n: int) -> Seq<Job>
    decreases n,
{
    if n <= 0 {
        seq![]
    } else {
        jobs_on(pages, n - 1) + pages[n - 1].jobs@
    }
}

/// Reading goes on up to the first empty page, and then all jobs of the pages before it were read,
/// in their order.
pub proof fn law_pages_are_read_up_to_an_empty_one(
    pages: Seq<JobsResponse>,
    states: Seq<JobPages>,
    steps: Seq<PageStep>,
    n: int,
)
    requires
        0 <= n < pages.len(),
        states.len() == pages.len() + 1,
        steps.len() == pages.len(),
        states[0].jobs@.len() == 0,
        states[0].pages == 0,
        forall|i: int|
            0 <= i < pages.len() ==> (#[trigger] states[i]).leads_to(
                PageReply::Page(pages[i]),
                states[i + 1],
                steps[i],
            ),
        forall|i: int| 0 <= i < n ==> (#[trigger] pages[i]).jobs@.len() > 0,
        pages[n].jobs@.len() == 0,
    ensures
        forall|i: int| 0 <= i < n ==> (#[trigger] steps[i]) is More,
        steps[n] is Done,
        states[n + 1].jobs@ == jobs_on(pages, n),
        states[n + 1].pages == n,
{
    assert forall|i: int| 0 <= i < n implies (#[trigger] steps[i]) is More by {
        assert(states[i].leads_to(PageReply::Page(pages[i]), states[i + 1], steps[i]));
        assert(pages[i].jobs@.len() > 0);
    }
    lemma_pages_add_up(pages, states, steps, n);
    assert(states[n].leads_to(PageReply::Page(pages[n]), states[n + 1], steps[n]));
}

proof fn lemma_pages_add_up(
    pages: Seq<JobsResponse>,
    states: Seq<JobPages>,
    steps: Seq<PageStep>,
    n: int,
)
    requires
        0 <= n < pages.len(),
        states.len() == pages.len() + 1,
        steps.len() == pages.len(),
        states[0].jobs@.len() == 0,
        states[0].pages == 0,
        forall|i: int|
            0 <= i < pages.len() ==> (#[trigger] states[i]).leads_to(
                PageReply::Page(pages[i]),
                states[i + 1],
                steps[i],
            ),
        forall|i: int| 0 <= i < n ==> (#[trigger] pages[i]).jobs@.len() > 0,
    ensures
        states[n].jobs@ == jobs_on(pages, n),
        states[n].pages == n,
    decreases n,
{
    if n > 0 {
        lemma_pages_add_up(pages, states, steps, n - 1);
        assert(states[n - 1].leads_to(PageReply::Page(pages[n - 1]), states[n], steps[n - 1]));
        assert(pages[n - 1].jobs@.len() > 0);
    } else {
        assert(states[0].jobs@ =~= seq![]);
    }
}

// ---------------------------------------------------------------------------
// Log files
// ---------------------------------------------------------------------------

/// A job name without the characters that a file name cannot hold everywhere.
pub open spec fn sanitized(name: Seq<char>) -> Seq<char> {
    replaced(replaced(replaced(replaced(name, '/', '_'), '\\', '_'), ':', '_'), ' ', '_')
}

/// How a job or a step ended, as a word.
pub open spec fn conclusion_word(conclusion: Option<Seq<char>>) -> Seq<char> {
    match conclusion {
        Some(conclusion) => conclusion,
        None => "unknown"@,
    }
}

/// The name of the log file of a job.
pub open spec fn log_name(job: JobModel) -> Seq<char> {
    sanitized(job.name) + "-"@ + conclusion_word(job.conclusion) + ".log"@
}

/// How a job or a step ended, as a word.
pub fn conclusion_text(conclusion: &Option<String>) -> (word: String)
    ensures
        word@ == conclusion_word(conclusion.deep_view()),
{
    match conclusion {
        Some(conclusion) => conclusion.clone(),
        None => "unknown".to_owned(),
    }
}

/// The name of the log file of a job.
pub fn log_filename(job: &Job) -> (name: String)
    ensures
        name@ == log_name(job.deep_view()),
{
    let no_slash = replace(job.name.as_str(), '/', '_');
    let no_backslash = replace(no_slash.as_str(), '\\', '_');
    let no_colon = replace(no_backslash.as_str(), ':', '_');
    let mut name = replace(no_colon.as_str(), ' ', '_');
    name.append("-");
    name.append(conclusion_text(&job.conclusion).as_str());
    name.append(".log");
    name
}

/// What is known of a log while it is downloaded.
pub enum LogEvent {
    /// Whether its file exists.
    Checked { exists: bool },
    /// Whether the request for it succeeded.
    Answered { success: bool },
}

/// What to do about a log.
#[derive(Debug, Clone, Copy, PartialEq, Eq)]
pub enum LogAction {
    /// Nothing.
    Skip,
    /// Ask for it.
    Fetch,
    /// Write it to its file.
    Save,
}

/// What to do about a log.
pub open spec fn action_on(event: LogEvent) -> LogAction {
    match event {
        LogEvent::Checked { exists: false } => LogAction::Fetch,
        LogEvent::Answered { success: true } => LogAction::Save,
        _ => LogAction::Skip,
    }
}

/// Decides what to do about a log: one that is there stays, and one that is refused is left out.
pub fn log_step(event: LogEvent) -> (action: LogAction)
    ensures
        action == match event {
            LogEvent::Checked { exists } => if exists {
                LogAction::Skip
            } else {
                LogAction::Fetch
            },
            LogEvent::Answered { success } => if success {
                LogAction::Save
            } else {
                LogAction::Skip
            },
        },
        action == action_on(event),
{
    match event {
        LogEvent::Checked { exists } => if exists {
            LogAction::Skip
        } else {
            LogAction::Fetch
        },
        LogEvent::Answered { success } => if success {
            LogAction::Save
        } else {
            LogAction::Skip
        },
    }
}

} // verus!
