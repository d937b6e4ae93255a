//! What holds of addresses, request headers and pages of jobs.
use crate::github::{
    action_on, is_complete, is_header_text, job_log_address, jobs_address, leads_to_runs, request_headers,
    run_info_address, run_named_by, token_in, without_query, CommandOutput, JobPages, LogEvent,
    PageReply, PageStep,
};
use crate::number::decimal;
use crate::text::{is_space, pieces};
use crate::text_laws::{
    is_white, law_mentioned_characters_are_held, law_pieces_lie_between,
    law_text_is_cut_at_the_first, law_trimming_leaves_the_middle,
};
use vstd::prelude::*;
use vstd::utf8::{decode_utf8, valid_utf8};

verus! {

// ---------------------------------------------------------------------------
// The address of a run
// ---------------------------------------------------------------------------

/// What follows the first question mark is no part of the run.
pub proof fn law_queries_are_left_out(path: Seq<char>, query: Seq<char>)
    requires
        !path.contains('?'),
    ensures
        without_query(path + "?"@ + query) == path,
        without_query(path) == path,
{
    reveal_strlit("?");
    assert("?"@ =~= seq!['?']);
    law_text_is_cut_at_the_first(path, '?', query);
    law_mentioned_characters_are_held(path, '?');
}

/// An address leads to the runs of a repository exactly if its sixth and its seventh part are
/// `actions` and `runs`, whatever its host is; it is complete unless it ends there.
pub proof fn law_addresses_lead_to_runs(url: Seq<char>)
    ensures
        ({
            let parts = pieces(url, "/"@);
            let found = parts.len() > 6 && parts[5] == "actions"@ && parts[6] == "runs"@;
            &&& leads_to_runs(parts) <==> found
            &&& run_named_by(url) is Some <==> found
            &&& is_complete(url) <==> !(found && parts.len() == 7)
        }),
{
}

/// The address of a run on any host is read back as its owner, its repository and its run, whether
/// it ends with the run or goes on with a job or a query.
pub proof fn law_addresses_on_any_host_are_read_back(
    scheme: Seq<char>,
    gap: Seq<char>,
    host: Seq<char>,
    owner: Seq<char>,
    repo: Seq<char>,
    run_id: Seq<char>,
    rest: Seq<char>,
)
    requires
        !scheme.contains('/'),
        !gap.contains('/'),
        !host.contains('/'),
        !owner.contains('/'),
        !repo.contains('/'),
        !run_id.contains('/'),
        !run_id.contains('?'),
        !rest.contains('/'),
    ensures
        ({
            let start = scheme + "/"@ + (gap + "/"@ + (host + "/"@ + (owner + "/"@ + (repo + "/"@ + (
            "actions"@ + "/"@ + ("runs"@ + "/"@))))));
            let ends = seq![run_id, run_id + "?"@ + rest, run_id + "/"@ + rest];
            forall|i: int|
                0 <= i < 3 ==> {
                    &&& is_complete(start + #[trigger] ends[i])
                    &&& run_named_by(start + ends[i]) == Some((owner, repo, run_id))
                }
        }),
{
    reveal_strlit("/");
    reveal_strlit("?");
    assert("/"@ =~= seq!['/']);
    assert("?"@ =~= seq!['?']);
    let start = scheme + "/"@ + (gap + "/"@ + (host + "/"@ + (owner + "/"@ + (repo + "/"@ + (
    "actions"@ + "/"@ + ("runs"@ + "/"@))))));
    let asked = run_id + "?"@ + rest;
    let ends = seq![run_id, asked, run_id + "/"@ + rest];
    law_queries_are_left_out(run_id, rest);
    assert(!asked.contains('/')) by {
        assert forall|i: int| 0 <= i < asked.len() implies asked[i] != '/' by {
            if i < run_id.len() {
                assert(run_id.contains(run_id[i]));
            } else if i > run_id.len() {
                assert(rest.contains(rest[i - run_id.len() - 1]));
            }
        }
    }
    law_pieces_lie_between(asked, '/', rest);
    law_pieces_lie_between(run_id, '/', rest);
    assert forall|i: int| 0 <= i < 3 implies ({
        &&& is_complete(start + #[trigger] ends[i])
        &&& run_named_by(start + ends[i]) == Some((owner, repo, run_id))
    }) by {
        let last = ends[i];
        assert(pieces(last, seq!['/'])[0] == run_id || pieces(last, seq!['/'])[0] == asked);
        lemma_parts(scheme, gap, host, owner, repo, last);
    }
}

/// The parts of an address that leads to a run.
proof fn lemma_parts(
    scheme: Seq<char>,
    gap: Seq<char>,
    host: Seq<char>,
    owner: Seq<char>,
    repo: Seq<char>,
    last: Seq<char>,
)
    requires
        !scheme.contains('/'),
        !gap.contains('/'),
        !host.contains('/'),
        !owner.contains('/'),
        !repo.contains('/'),
    ensures
        pieces(
            scheme + "/"@ + (gap + "/"@ + (host + "/"@ + (owner + "/"@ + (repo + "/"@ + ("actions"@
                + "/"@ + ("runs"@ + "/"@)))))) + last,
            "/"@,
        ) == seq![scheme, gap, host, owner, repo, "actions"@, "runs"@] + pieces(last, "/"@),
{
    reveal_strlit("/");
    reveal_strlit("actions");
    reveal_strlit("runs");
    let slash = seq!['/'];
    assert("/"@ =~= slash);
    let p6 = "runs"@ + slash + last;
    let p5 = "actions"@ + slash + p6;
    let p4 = repo + slash + p5;
    let p3 = owner + slash + p4;
    let p2 = host + slash + p3;
    let p1 = gap + slash + p2;
    let p0 = scheme + slash + p1;
    assert(scheme + "/"@ + (gap + "/"@ + (host + "/"@ + (owner + "/"@ + (repo + "/"@ + ("actions"@
        + "/"@ + ("runs"@ + "/"@)))))) + last =~= p0);
    law_pieces_lie_between(scheme, '/', p1);
    law_pieces_lie_between(gap, '/', p2);
    law_pieces_lie_between(host, '/', p3);
    law_pieces_lie_between(owner, '/', p4);
    law_pieces_lie_between(repo, '/', p5);
    law_pieces_lie_between("actions"@, '/', p6);
    law_pieces_lie_between("runs"@, '/', last);
    assert(pieces(p0, slash) =~= seq![scheme, gap, host, owner, repo, "actions"@, "runs"@] + pieces(
        last,
        slash,
    ));
}

// ---------------------------------------------------------------------------
// The token
// ---------------------------------------------------------------------------

/// The token is what the command prints, without the white space around it. A command that failed,
/// or could not be run, or printed something that is not text, gives none.
pub proof fn law_tokens_are_printed(
    output: CommandOutput,
    before: Seq<char>,
    token: Seq<char>,
    behind: Seq<char>,
)
    requires
        is_white(before),
        is_white(behind),
        token.len() > 0 ==> !is_space(token[0]) && !is_space(token.last()),
    ensures
        output.success && valid_utf8(output.stdout@) && decode_utf8(output.stdout@) == before + token
            + behind ==> token_in(Some(output)) == Some(token),
        !output.success || !valid_utf8(output.stdout@) ==> token_in(Some(output)) is None,
        token_in(None) is None,
{
    law_trimming_leaves_the_middle(before, token, behind);
}

// ---------------------------------------------------------------------------
// Requests
// ---------------------------------------------------------------------------

/// A request carries the token as a bearer, says what it accepts, who asks and which version of the
/// service it means, once each, and nothing else.
pub proof fn law_requests_carry_the_token(token: Seq<char>)
    ensures
        ({
            let headers = request_headers(token);
            &&& headers.dom() =~= set![
                "authorization"@,
                "accept"@,
                "user-agent"@,
                "x-github-api-version"@,
            ]
            &&& headers["authorization"@] == seq!["Bearer "@ + token]
            &&& headers["accept"@] == seq!["application/vnd.github+json"@]
            &&& headers["user-agent"@] == seq!["gh-logs-grab"@]
            &&& headers["x-github-api-version"@] == seq!["2022-11-28"@]
        }),
{
    reveal_strlit("authorization");
    reveal_strlit("accept");
    reveal_strlit("user-agent");
    reveal_strlit("x-github-api-version");
    assert("authorization"@.len() == 13 && "accept"@.len() == 6 && "user-agent"@.len() == 10
        && "x-github-api-version"@.len() == 20);
}

/// What is asked of the service lies below the repository: the run, the pages of its jobs with a
/// hundred jobs each, and the logs of the jobs.
pub proof fn law_addresses_lie_below_the_repository(
    owner: Seq<char>,
    repo: Seq<char>,
    run_id: Seq<char>,
    page: nat,
    job_id: nat,
)
    ensures
        ({
            let repository = "https://api.github.com/repos/"@ + owner + "/"@ + repo;
            let run = repository + "/actions/runs/"@ + run_id;
            &&& run_info_address(owner, repo, run_id) == run
            &&& jobs_address(owner, repo, run_id, page) == run + "/jobs?per_page=100&page="@
                + decimal(page)
            &&& job_log_address(owner, repo, job_id) == repository + "/actions/jobs/"@ + decimal(
                job_id,
            ) + "/logs"@
        }),
{
    let run = run_info_address(owner, repo, run_id);
    reveal_strlit("/jobs?per_page=100&page=");
    reveal_strlit("/jobs?per_page=100");
    reveal_strlit("&page=");
    assert("/jobs?per_page=100&page="@ =~= "/jobs?per_page=100"@ + "&page="@);
    assert(jobs_address(owner, repo, run_id, page) =~= run + "/jobs?per_page=100&page="@ + decimal(
        page,
    ));
}

/// A log is asked for exactly if its file is not there, and written exactly if it was answered.
pub proof fn law_logs_are_fetched_once(event: LogEvent)
    ensures
        action_on(event) is Fetch <==> (event matches LogEvent::Checked { exists } && !exists),
        action_on(event) is Save <==> (event matches LogEvent::Answered { success } && success),
{
}

// ---------------------------------------------------------------------------
// Pages of jobs
// ---------------------------------------------------------------------------

/// Whatever was read before, a page with jobs adds them and asks for the next page, an empty page
/// ends the reading, and a refusal ends it with a message that tells the status; neither changes
/// what was read.
pub proof fn law_replies_lead_on(pages: JobPages, reply: PageReply, next: JobPages, step: PageStep)
    requires
        pages.leads_to(reply, next, step),
    ensures
        reply matches PageReply::Refused(status) ==> next == pages && (step matches PageStep::Fail(
            text,
        ) && text@ == "API request failed: "@ + status@),
        reply matches PageReply::Page(page) ==> next.jobs@ == pages.jobs@ + page.jobs@ && (step
            is Done <==> page.jobs@.len() == 0) && (step is More <==> page.jobs@.len() > 0)
            && next.pages == pages.pages + if page.jobs@.len() > 0 {
            1int
        } else {
            0
        },
{
    if let PageReply::Page(page) = reply {
        if page.jobs@.len() == 0 {
            assert(pages.jobs@ + page.jobs@ =~= pages.jobs@);
        }
    }
}

/// The pages of jobs are asked for in turn, from the first on: after a page with jobs comes the one
/// behind it.
pub proof fn law_pages_are_asked_for_in_turn(
    pages: JobPages,
    reply: PageReply,
    next: JobPages,
    step: PageStep,
    owner: Seq<char>,
    repo: Seq<char>,
    run_id: Seq<char>,
)
    requires
        pages.leads_to(reply, next, step),
    ensures
        ({
            let start = "https://api.github.com/repos/"@ + owner + "/"@ + repo + "/actions/runs/"@
                + run_id + "/jobs?per_page=100&page="@;
            let read = pages.pages as nat;
            &&& pages.next_address(owner, repo, run_id) == start + decimal(read + 1)
            &&& step is More ==> next.next_address(owner, repo, run_id) == start + decimal(read + 2)
        }),
{
    let read = pages.pages as nat;
    law_addresses_lie_below_the_repository(owner, repo, run_id, read + 1, 0);
    law_addresses_lie_below_the_repository(owner, repo, run_id, read + 2, 0);
}

/// A text can stand in a header exactly if each of its characters can: those of ASCII that control
/// something cannot, but for tabs.
pub proof fn law_control_characters_stay_out(first: Seq<char>, second: Seq<char>, c: char)
    ensures
        is_header_text(Seq::<char>::empty()),
        is_header_text(first + second) <==> is_header_text(first) && is_header_text(second),
        is_header_text(seq![c]) <==> c == '\t' || !((c as u32) < (' ' as u32) || c == '\x7f'),
{
    let all = first + second;
    if is_header_text(all) {
        assert forall|i: int| 0 <= i < first.len() implies 32 <= (#[trigger] first[i]) as u32
            && first[i] as u32 != 127 || first[i] == '\t' by {
            assert(all[i] == first[i]);
        }
        assert forall|i: int| 0 <= i < second.len() implies 32 <= (#[trigger] second[i]) as u32
            && second[i] as u32 != 127 || second[i] == '\t' by {
            assert(all[first.len() + i] == second[i]);
        }
    }
    assert(seq![c][0] == c);
}

} // verus!
