//! What the status of an error says about the runs in which it was seen.
use super::analyze::{all_different, has_signature, occurs, signature};
use super::timeline::{
    count_of, first_seen, is_run, is_trail_of, missing_findings_text, run_summaries, seen_again, timeline_of,
    timeline_text, told_of, told_of_all, total_of, trails_after, trails_with, trails_with_errors,
    ErrorStatus, ErrorTimeline, ErrorTimelineModel, ErrorTrailModel, RunRecordModel,
};
use crate::models::TestErrorModel;
use crate::number::decimal;
use crate::order::{
    ascending, has_key, holds, lemma_precedes_total, lemma_put, lemma_sorting_keeps_members,
    lemma_sorting_keeps_values, lemma_sorting_orders, precedes, put, stably_sorted, Ranked,
};
use crate::seqs::{lemma_next_where, lemma_next_where_is, next_where};
use vstd::prelude::*;

verus! {

/// Whether the error with the signature `wanted` is among the findings of a run.
pub open spec fn occurs_in(run: RunRecordModel, wanted: Seq<char>) -> bool {
    match run.findings {
        Some(findings) => occurs(findings.errors, wanted),
        None => false,
    }
}

/// Whether no two runs have the same identifier.
pub open spec fn runs_differ(runs: Seq<RunRecordModel>) -> bool {
    forall|i: int, j: int|
        0 <= i < j < runs.len() ==> (#[trigger] runs[i]).metadata.run_id != (
        #[trigger] runs[j]).metadata.run_id
}

/// The number of places of the last of `errors` with the signature `wanted`.
pub open spec fn last_count(errors: Seq<TestErrorModel>, wanted: Seq<char>) -> usize
    decreases errors.len(),
{
    if errors.len() == 0 {
        0
    } else if signature(errors.last()) == wanted {
        errors.last().occurrences.len() as usize
    } else {
        last_count(errors.drop_last(), wanted)
    }
}

/// The number of places of an error among the findings of a run.
pub open spec fn places_in(run: RunRecordModel, wanted: Seq<char>) -> usize {
    match run.findings {
        Some(findings) => last_count(findings.errors, wanted),
        None => 0,
    }
}

/// The first of `errors` with the signature `wanted`.
pub open spec fn first_error(errors: Seq<TestErrorModel>, wanted: Seq<char>) -> TestErrorModel {
    errors[next_where(errors, has_signature(wanted), 0)]
}

/// The first error with the signature `wanted` among the findings of a run.
pub open spec fn first_error_in(run: RunRecordModel, wanted: Seq<char>) -> TestErrorModel {
    first_error(run.findings->0.errors, wanted)
}

/// Which errors were seen in which runs: at how many places, and as which error first.
pub type Sightings = Map<(int, Seq<char>), (usize, TestErrorModel)>;

/// The sightings once `error` is seen in the run `i`.
pub open spec fn noted(seen: Sightings, i: int, error: TestErrorModel) -> Sightings {
    let key = (i, signature(error));
    let first = if seen.dom().contains(key) {
        seen[key].1
    } else {
        error
    };
    seen.insert(key, (error.occurrences.len() as usize, first))
}

/// Whether a trail describes its error as `error` does.
pub open spec fn describes(trail: ErrorTrailModel, error: TestErrorModel) -> bool {
    &&& trail.test_file == error.test_file
    &&& trail.test_name == error.test_name
    &&& trail.error_type == error.error_type
    &&& trail.message == error.message
}

/// In how many of the first `n` runs an error was seen.
pub open spec fn sighted(seen: Sightings, wanted: Seq<char>, n: int) -> nat
    decreases n,
{
    if n <= 0 {
        0
    } else if seen.dom().contains((n - 1, wanted)) {
        sighted(seen, wanted, n - 1) + 1
    } else {
        sighted(seen, wanted, n - 1)
    }
}

/// Whether a trail tells that its error was first seen in the run `first` and last in the run
/// `last` of the first `n` runs.
pub open spec fn spans(
    trail: ErrorTrailModel,
    runs: Seq<RunRecordModel>,
    n: int,
    seen: Sightings,
    first: int,
    last: int,
) -> bool {
    let wanted = trail.signature;
    &&& 0 <= first <= last < n <= runs.len()
    &&& seen.dom().contains((first, wanted))
    &&& seen.dom().contains((last, wanted))
    &&& forall|i: int| 0 <= i < first ==> !#[trigger] seen.dom().contains((i, wanted))
    &&& forall|i: int| last < i < n ==> !#[trigger] seen.dom().contains((i, wanted))
    &&& trail.first_run == runs[first].metadata.run_id
    &&& trail.first_sha == runs[first].metadata.head_sha
    &&& trail.last_run == runs[last].metadata.run_id
    &&& trail.last_sha == runs[last].metadata.head_sha
    &&& describes(trail, seen[(first, wanted)].1)
}

/// Whether the entries of a trail are for the runs in which its error was seen.
pub open spec fn lists(
    trail: ErrorTrailModel,
    runs: Seq<RunRecordModel>,
    n: int,
    seen: Sightings,
) -> bool {
    let wanted = trail.signature;
    &&& ascending(trail.occurrences)
    &&& trail.occurrences.len() == sighted(seen, wanted, n)
    &&& forall|i: int|
        0 <= i < n ==> (#[trigger] seen.dom().contains((i, wanted)) <==> has_key(
            trail.occurrences,
            runs[i].metadata.run_id,
        ))
    &&& forall|i: int|
        0 <= i < n && #[trigger] seen.dom().contains((i, wanted)) ==> holds(
            trail.occurrences,
            runs[i].metadata.run_id,
            seen[(i, wanted)].0,
        )
    &&& forall|key: Seq<char>| #[trigger]
        has_key(trail.occurrences, key) ==> is_among(runs, n, key)
}

/// Whether one of the first `n` runs has the identifier `run_id`.
pub open spec fn is_among(runs: Seq<RunRecordModel>, n: int, run_id: Seq<char>) -> bool {
    exists|i: int| 0 <= i < n && (#[trigger] runs[i]).metadata.run_id == run_id
}

/// Whether a trail agrees with the sightings in the first `n` runs. Its entries do only if no two
/// runs have the same identifier.
pub open spec fn agrees(
    trail: ErrorTrailModel,
    runs: Seq<RunRecordModel>,
    n: int,
    seen: Sightings,
) -> bool {
    &&& exists|first: int, last: int| #[trigger] spans(trail, runs, n, seen, first, last)
    &&& runs_differ(runs) ==> lists(trail, runs, n, seen)
}

/// Whether there is a trail of the error with the signature `wanted`.
pub open spec fn has_trail(trails: Seq<ErrorTrailModel>, wanted: Seq<char>) -> bool {
    exists|k: int| 0 <= k < trails.len() && (#[trigger] trails[k]).signature == wanted
}

/// Whether an error was seen in the first `n` runs.
pub open spec fn was_seen(seen: Sightings, wanted: Seq<char>, n: int) -> bool {
    exists|i: int| 0 <= i < n && #[trigger] seen.dom().contains((i, wanted))
}

/// Whether the trails are those of the sightings in the first `n` runs.
pub open spec fn consistent(
    trails: Seq<ErrorTrailModel>,
    runs: Seq<RunRecordModel>,
    n: int,
    seen: Sightings,
) -> bool {
    &&& forall|a: int, b: int|
        0 <= a < b < trails.len() ==> (#[trigger] trails[a]).signature != (
        #[trigger] trails[b]).signature
    &&& forall|wanted: Seq<char>| #[trigger]
        has_trail(trails, wanted) <==> was_seen(seen, wanted, n)
    &&& forall|k: int| 0 <= k < trails.len() ==> agrees(#[trigger] trails[k], runs, n, seen)
    &&& forall|i: int, wanted: Seq<char>| #[trigger] seen.dom().contains((i, wanted)) ==> 0 <= i < n
}

/// Entries for keys that ascend have different keys, so a key has one entry.
proof fn lemma_put_keys(entries: Seq<(Seq<char>, usize)>, key: Seq<char>, value: usize)
    requires
        ascending(entries),
    ensures
        ascending(put(entries, key, value)),
        has_key(put(entries, key, value), key),
        forall|other: Seq<char>|
            other != key ==> (#[trigger] has_key(put(entries, key, value), other) <==> has_key(
                entries,
                other,
            )),
        holds(put(entries, key, value), key, value),
        forall|other: Seq<char>, v: usize|
            other != key ==> (#[trigger] holds(put(entries, key, value), other, v) <==> holds(
                entries,
                other,
                v,
            )),
        put(entries, key, value).len() == if has_key(entries, key) {
            entries.len()
        } else {
            entries.len() + 1
        },
{
    let out = put(entries, key, value);
    lemma_put(entries, key, value);
    assert(holds(out, key, value));
    let p = choose|p: int| 0 <= p < out.len() && out[p] == (key, value);
    assert(out[p].0 == key);
    assert forall|other: Seq<char>| other != key implies (#[trigger] has_key(out, other)
        <==> has_key(entries, other)) by {
        if has_key(out, other) {
            let i = choose|i: int| 0 <= i < out.len() && (#[trigger] out[i]).0 == other;
            assert(out.contains(out[i]));
            assert(holds(out, other, out[i].1));
            assert(holds(entries, other, out[i].1));
            let j = choose|j: int| 0 <= j < entries.len() && entries[j] == (other, out[i].1);
            assert(entries[j].0 == other);
        }
        if has_key(entries, other) {
            let i = choose|i: int| 0 <= i < entries.len() && (#[trigger] entries[i]).0 == other;
            assert(entries.contains(entries[i]));
            assert(holds(entries, other, entries[i].1));
            assert(holds(out, other, entries[i].1));
            let j = choose|j: int| 0 <= j < out.len() && out[j] == (other, entries[i].1);
            assert(out[j].0 == other);
        }
    }
}

/// A sighting of another error or in another run does not count.
proof fn lemma_sighted_same(seen: Sightings, more: Sightings, wanted: Seq<char>, n: int)
    requires
        forall|i: int|
            0 <= i < n ==> (#[trigger] seen.dom().contains((i, wanted)) <==> more.dom().contains(
                (i, wanted),
            )),
    ensures
        sighted(seen, wanted, n) == sighted(more, wanted, n),
    decreases n,
{
    if n > 0 {
        assert(seen.dom().contains((n - 1, wanted)) <==> more.dom().contains((n - 1, wanted)));
        lemma_sighted_same(seen, more, wanted, n - 1);
    }
}

/// A trail stays right when another error is sighted.
proof fn lemma_other_trail(
    trail: ErrorTrailModel,
    runs: Seq<RunRecordModel>,
    n: int,
    seen: Sightings,
    error: TestErrorModel,
)
    requires
        agrees(trail, runs, n, seen),
        trail.signature != signature(error),
    ensures
        agrees(trail, runs, n, noted(seen, n - 1, error)),
{
    let more = noted(seen, n - 1, error);
    let own = trail.signature;
    assert forall|i: int|
        seen.dom().contains((i, own)) <==> #[trigger] more.dom().contains((i, own)) by {}
    let (first, last) = choose|first: int, last: int| #[trigger]
        spans(trail, runs, n, seen, first, last);
    assert(spans(trail, runs, n, more, first, last));
    if runs_differ(runs) {
        lemma_sighted_same(seen, more, own, n);
        assert forall|i: int| 0 <= i < n implies (#[trigger] more.dom().contains((i, own)) <==> has_key(
            trail.occurrences,
            runs[i].metadata.run_id,
        )) by {
            assert(seen.dom().contains((i, own)) <==> more.dom().contains((i, own)));
        }
        assert forall|i: int| 0 <= i < n && #[trigger] more.dom().contains((i, own)) implies holds(
            trail.occurrences,
            runs[i].metadata.run_id,
            more[(i, own)].0,
        ) by {
            assert(seen.dom().contains((i, own)));
        }
    }
}

/// The trail of an error that is sighted again in the last of the runs is right.
proof fn lemma_seen_again(
    trail: ErrorTrailModel,
    runs: Seq<RunRecordModel>,
    n: int,
    seen: Sightings,
    error: TestErrorModel,
)
    requires
        0 < n <= runs.len(),
        agrees(trail, runs, n, seen),
        trail.signature == signature(error),
    ensures
        agrees(
            seen_again(trail, runs[n - 1].metadata, error),
            runs,
            n,
            noted(seen, n - 1, error),
        ),
{
    let wanted = signature(error);
    let count = error.occurrences.len() as usize;
    let more = noted(seen, n - 1, error);
    let run = runs[n - 1].metadata;
    let again = seen_again(trail, run, error);
    let (first, last) = choose|first: int, last: int| #[trigger]
        spans(trail, runs, n, seen, first, last);
    assert(more.dom().contains((first, wanted)));
    assert forall|i: int| 0 <= i < first implies !#[trigger] more.dom().contains((i, wanted)) by {
        assert(!seen.dom().contains((i, wanted)));
    }
    assert(spans(again, runs, n, more, first, n - 1));
    if runs_differ(runs) {
        lemma_put_keys(trail.occurrences, run.run_id, count);
        assert(seen.dom().contains((n - 1, wanted)) <==> has_key(trail.occurrences, run.run_id));
        lemma_sighted_same(seen, more, wanted, n - 1);
        assert(again.occurrences.len() == sighted(more, wanted, n));
        assert forall|i: int| 0 <= i < n implies (#[trigger] more.dom().contains((i, wanted))
            <==> has_key(
            again.occurrences,
            runs[i].metadata.run_id,
        )) by {
            if i < n - 1 {
                assert(runs[i].metadata.run_id != runs[n - 1].metadata.run_id);
                assert(seen.dom().contains((i, wanted)) <==> more.dom().contains((i, wanted)));
            }
        }
        assert forall|i: int|
            0 <= i < n && #[trigger] more.dom().contains((i, wanted)) implies holds(
            again.occurrences,
            runs[i].metadata.run_id,
            more[(i, wanted)].0,
        ) by {
            if i < n - 1 {
                assert(runs[i].metadata.run_id != runs[n - 1].metadata.run_id);
                assert(seen.dom().contains((i, wanted)));
            }
        }
        assert forall|key: Seq<char>| #[trigger] has_key(again.occurrences, key) implies is_among(
            runs,
            n,
            key,
        ) by {
            if key == run.run_id {
                assert(runs[n - 1].metadata.run_id == key);
            } else {
                assert(has_key(trail.occurrences, key));
            }
        }
    }
}

/// The trail of an error that is sighted for the first time in the last of the runs is right.
proof fn lemma_first_seen(
    runs: Seq<RunRecordModel>,
    n: int,
    seen: Sightings,
    error: TestErrorModel,
)
    requires
        0 < n <= runs.len(),
        !was_seen(seen, signature(error), n),
    ensures
        agrees(
            first_seen(runs[n - 1].metadata, error),
            runs,
            n,
            noted(seen, n - 1, error),
        ),
{
    let wanted = signature(error);
    let count = error.occurrences.len() as usize;
    let more = noted(seen, n - 1, error);
    let run = runs[n - 1].metadata;
    let trail = first_seen(run, error);
    assert forall|i: int| 0 <= i < n - 1 implies !#[trigger] more.dom().contains((i, wanted)) by {
        assert(!seen.dom().contains((i, wanted)));
    }
    assert(spans(trail, runs, n, more, n - 1, n - 1));
    if runs_differ(runs) {
        lemma_none_sighted(more, wanted, n - 1);
        assert(trail.occurrences[0] == (run.run_id, count));
        assert(holds(trail.occurrences, run.run_id, count));
        assert forall|i: int| 0 <= i < n implies (#[trigger] more.dom().contains((i, wanted))
            <==> has_key(
            trail.occurrences,
            runs[i].metadata.run_id,
        )) by {
            if i < n - 1 {
                assert(runs[i].metadata.run_id != runs[n - 1].metadata.run_id);
            }
        }
        assert forall|key: Seq<char>| #[trigger] has_key(trail.occurrences, key) implies is_among(
            runs,
            n,
            key,
        ) by {
            assert(runs[n - 1].metadata.run_id == key);
        }
    }
}

/// What was not seen in any run was seen in none.
proof fn lemma_none_sighted(seen: Sightings, wanted: Seq<char>, n: int)
    requires
        forall|i: int| 0 <= i < n ==> !#[trigger] seen.dom().contains((i, wanted)),
    ensures
        sighted(seen, wanted, n) == 0,
    decreases n,
{
    if n > 0 {
        assert(!seen.dom().contains((n - 1, wanted)));
        lemma_none_sighted(seen, wanted, n - 1);
    }
}

/// Noting an error in the last of the runs keeps the trails consistent.
proof fn lemma_note(
    trails: Seq<ErrorTrailModel>,
    runs: Seq<RunRecordModel>,
    n: int,
    seen: Sightings,
    error: TestErrorModel,
)
    requires
        0 < n <= runs.len(),
        consistent(trails, runs, n, seen),
    ensures
        consistent(
            trails_with(trails, runs[n - 1].metadata, error),
            runs,
            n,
            noted(seen, n - 1, error),
        ),
{
    let wanted = signature(error);
    let more = noted(seen, n - 1, error);
    let run = runs[n - 1].metadata;
    let out = trails_with(trails, run, error);
    let p = next_where(trails, is_trail_of(wanted), 0);
    lemma_next_where(trails, is_trail_of(wanted), 0);
    if p < trails.len() {
        assert(is_trail_of(wanted)(trails[p]));
        assert(has_trail(trails, wanted));
        lemma_seen_again(trails[p], runs, n, seen, error);
    } else {
        assert(!has_trail(trails, wanted)) by {
            if has_trail(trails, wanted) {
                let k = choose|k: int|
                    0 <= k < trails.len() && (#[trigger] trails[k]).signature == wanted;
                assert(!is_trail_of(wanted)(trails[k]));
            }
        }
        lemma_first_seen(runs, n, seen, error);
    }
    assert forall|k: int| 0 <= k < out.len() implies agrees(#[trigger] out[k], runs, n, more) by {
        if k < trails.len() && k != p {
            assert(out[k] == trails[k]);
            assert(trails[k].signature != wanted) by {
                if p < trails.len() {
                    if k < p {
                        assert(trails[k].signature != trails[p].signature);
                    } else {
                        assert(trails[p].signature != trails[k].signature);
                    }
                } else {
                    assert(!is_trail_of(wanted)(trails[k]));
                }
            }
            lemma_other_trail(trails[k], runs, n, seen, error);
        }
    }
    assert forall|k: int| 0 <= k < trails.len() implies (#[trigger] out[k]).signature
        == trails[k].signature by {}
    assert forall|a: int, b: int| 0 <= a < b < out.len() implies (#[trigger] out[a]).signature != (
    #[trigger] out[b]).signature by {
        if b >= trails.len() {
            assert(!is_trail_of(wanted)(trails[a]));
        }
    }
    assert forall|other: Seq<char>| #[trigger]
        has_trail(out, other) <==> was_seen(more, other, n) by {
        assert(has_trail(trails, other) <==> was_seen(seen, other, n));
        if other == wanted {
            assert(more.dom().contains((n - 1, wanted)));
            if p < trails.len() {
                assert(out[p].signature == wanted);
            } else {
                assert(out[trails.len() as int].signature == wanted);
            }
        } else {
            if has_trail(out, other) {
                let k = choose|k: int|
                    0 <= k < out.len() && (#[trigger] out[k]).signature == other;
                assert(trails[k].signature == other);
                let i = choose|i: int| 0 <= i < n && #[trigger] seen.dom().contains((i, other));
                assert(more.dom().contains((i, other)));
            }
            if was_seen(more, other, n) {
                let i = choose|i: int| 0 <= i < n && #[trigger] more.dom().contains((i, other));
                assert(seen.dom().contains((i, other)));
                let k = choose|k: int|
                    0 <= k < trails.len() && (#[trigger] trails[k]).signature == other;
                assert(out[k].signature == other);
            }
        }
    }
}

/// The sightings in the first `n` runs, where of the last of them only the first `m` errors are
/// read.
pub open spec fn sightings(runs: Seq<RunRecordModel>, n: int, m: int) -> Sightings {
    Map::new(
        |pair: (int, Seq<char>)|
            {
                let (i, wanted) = pair;
                if i == n - 1 {
                    0 <= i && runs[i].findings is Some && occurs(
                        runs[i].findings->0.errors.take(m),
                        wanted,
                    )
                } else {
                    0 <= i < n - 1 && occurs_in(runs[i], wanted)
                }
            },
        |pair: (int, Seq<char>)|
            {
                let (i, wanted) = pair;
                if i == n - 1 {
                    let errors = runs[i].findings->0.errors.take(m);
                    (last_count(errors, wanted), first_error(errors, wanted))
                } else {
                    (places_in(runs[i], wanted), first_error_in(runs[i], wanted))
                }
            },
    )
}

/// An error occurs among one more error if it occurred before or is that error.
proof fn lemma_occurs_step(errors: Seq<TestErrorModel>, m: int, wanted: Seq<char>)
    requires
        0 <= m < errors.len(),
    ensures
        occurs(errors.take(m + 1), wanted) <==> occurs(errors.take(m), wanted) || signature(
            errors[m],
        ) == wanted,
        last_count(errors.take(m + 1), wanted) == if signature(errors[m]) == wanted {
            errors[m].occurrences.len() as usize
        } else {
            last_count(errors.take(m), wanted)
        },
        occurs(errors.take(m), wanted) ==> first_error(errors.take(m + 1), wanted) == first_error(
            errors.take(m),
            wanted,
        ),
        !occurs(errors.take(m), wanted) && signature(errors[m]) == wanted ==> first_error(
            errors.take(m + 1),
            wanted,
        ) == errors[m],
{
    let shorter = errors.take(m);
    let longer = errors.take(m + 1);
    assert(longer.drop_last() =~= shorter);
    assert(longer.last() == errors[m]);
    if occurs(longer, wanted) {
        let i = choose|i: int| 0 <= i < longer.len() && signature(#[trigger] longer[i]) == wanted;
        if i < m {
            assert(signature(shorter[i]) == wanted);
        }
    }
    if occurs(shorter, wanted) {
        let i = choose|i: int| 0 <= i < shorter.len() && signature(#[trigger] shorter[i]) == wanted;
        assert(signature(longer[i]) == wanted);
    }
    if signature(errors[m]) == wanted {
        assert(signature(longer[m]) == wanted);
    }
    let p = next_where(shorter, has_signature(wanted), 0);
    lemma_next_where(shorter, has_signature(wanted), 0);
    assert forall|i: int| 0 <= i < p implies !has_signature(wanted)(#[trigger] longer[i]) by {
        assert(!has_signature(wanted)(shorter[i]));
    }
    if occurs(shorter, wanted) {
        let i = choose|i: int| 0 <= i < shorter.len() && signature(#[trigger] shorter[i]) == wanted;
        assert(has_signature(wanted)(shorter[i]));
        assert(p < m);
        assert(has_signature(wanted)(shorter[p]) && longer[p] == shorter[p]);
        lemma_next_where_is(longer, has_signature(wanted), 0, p);
    } else if signature(errors[m]) == wanted {
        if p < m {
            assert(signature(shorter[p]) == wanted);
        }
        lemma_next_where_is(longer, has_signature(wanted), 0, m);
    }
}

/// A run in which nothing is seen yet keeps the trails consistent.
proof fn lemma_next_run(
    trails: Seq<ErrorTrailModel>,
    runs: Seq<RunRecordModel>,
    n: int,
    seen: Sightings,
)
    requires
        0 <= n < runs.len(),
        consistent(trails, runs, n, seen),
    ensures
        consistent(trails, runs, n + 1, seen),
{
    assert forall|k: int| 0 <= k < trails.len() implies agrees(
        #[trigger] trails[k],
        runs,
        n + 1,
        seen,
    ) by {
        let trail = trails[k];
        let wanted = trail.signature;
        assert(agrees(trail, runs, n, seen));
        let (first, last) = choose|first: int, last: int| #[trigger]
            spans(trail, runs, n, seen, first, last);
        assert(!seen.dom().contains((n, wanted)));
        assert(spans(trail, runs, n + 1, seen, first, last));
        if runs_differ(runs) {
            let last_id = runs[n].metadata.run_id;
            if has_key(trail.occurrences, last_id) {
                assert(is_among(runs, n, last_id));
                let i = choose|i: int| 0 <= i < n && (#[trigger] runs[i]).metadata.run_id == last_id;
                assert(runs[i].metadata.run_id != runs[n].metadata.run_id);
            }
            assert forall|i: int| 0 <= i < n + 1 implies (#[trigger] seen.dom().contains((i, wanted))
                <==> has_key(trail.occurrences, runs[i].metadata.run_id)) by {}
            assert forall|key: Seq<char>| #[trigger] has_key(trail.occurrences, key) implies is_among(
                runs,
                n + 1,
                key,
            ) by {
                assert(is_among(runs, n, key));
                let i = choose|i: int| 0 <= i < n && (#[trigger] runs[i]).metadata.run_id == key;
                assert(0 <= i < n + 1 && runs[i].metadata.run_id == key);
            }
        }
    }
    assert forall|wanted: Seq<char>| #[trigger]
        has_trail(trails, wanted) <==> was_seen(seen, wanted, n + 1) by {
        assert(has_trail(trails, wanted) <==> was_seen(seen, wanted, n));
        if was_seen(seen, wanted, n + 1) {
            let i = choose|i: int| 0 <= i < n + 1 && #[trigger] seen.dom().contains((i, wanted));
            assert(i < n);
        }
        if was_seen(seen, wanted, n) {
            let i = choose|i: int| 0 <= i < n && #[trigger] seen.dom().contains((i, wanted));
            assert(0 <= i < n + 1 && seen.dom().contains((i, wanted)));
        }
    }
}

/// The trails after some errors of a run are consistent with what was seen so far.
proof fn lemma_trails_with_errors(
    known: Seq<ErrorTrailModel>,
    runs: Seq<RunRecordModel>,
    n: int,
    m: int,
)
    requires
        0 < n <= runs.len(),
        runs[n - 1].findings is Some,
        0 <= m <= runs[n - 1].findings->0.errors.len(),
        consistent(known, runs, n, sightings(runs, n, 0)),
    ensures
        consistent(
            trails_with_errors(known, runs[n - 1].metadata, runs[n - 1].findings->0.errors, m),
            runs,
            n,
            sightings(runs, n, m),
        ),
    decreases m,
{
    let errors = runs[n - 1].findings->0.errors;
    if m > 0 {
        let run = runs[n - 1].metadata;
        let before = trails_with_errors(known, run, errors, m - 1);
        lemma_trails_with_errors(known, runs, n, m - 1);
        lemma_note(before, runs, n, sightings(runs, n, m - 1), errors[m - 1]);
        let more = noted(sightings(runs, n, m - 1), n - 1, errors[m - 1]);
        assert forall|pair: (int, Seq<char>)| #[trigger]
            more.dom().contains(pair) <==> sightings(runs, n, m).dom().contains(pair) by {
            lemma_occurs_step(errors, m - 1, pair.1);
        }
        assert forall|pair: (int, Seq<char>)| #[trigger]
            more.dom().contains(pair) implies more[pair] == sightings(runs, n, m)[pair] by {
            lemma_occurs_step(errors, m - 1, pair.1);
        }
        assert(more =~= sightings(runs, n, m));
    }
}

/// Which errors were seen in which of the runs.
pub open spec fn all_sightings(runs: Seq<RunRecordModel>, n: int) -> Sightings {
    Map::new(
        |pair: (int, Seq<char>)| 0 <= pair.0 < n && occurs_in(runs[pair.0], pair.1),
        |pair: (int, Seq<char>)|
            (places_in(runs[pair.0], pair.1), first_error_in(runs[pair.0], pair.1)),
    )
}

/// The trails are consistent with the runs that were read.
proof fn lemma_trails_are_consistent(runs: Seq<RunRecordModel>, n: int)
    requires
        0 <= n <= runs.len(),
    ensures
        consistent(trails_after(runs, n), runs, n, all_sightings(runs, n)),
    decreases n,
{
    if n > 0 {
        let known = trails_after(runs, n - 1);
        lemma_trails_are_consistent(runs, n - 1);
        lemma_next_run(known, runs, n - 1, all_sightings(runs, n - 1));
        match runs[n - 1].findings {
            Some(findings) => {
                let errors = findings.errors;
                assert(errors.take(0) =~= seq![]);
                assert(all_sightings(runs, n - 1) =~= sightings(runs, n, 0));
                lemma_trails_with_errors(known, runs, n, errors.len() as int);
                assert(errors.take(errors.len() as int) =~= errors);
                assert(all_sightings(runs, n) =~= sightings(runs, n, errors.len() as int));
            },
            None => {
                assert(all_sightings(runs, n) =~= all_sightings(runs, n - 1));
            },
        }
    } else {
        assert forall|wanted: Seq<char>|
            !(#[trigger] has_trail(trails_after(runs, n), wanted)) by {}
    }
}

/// An error was seen in no more runs than there are, and in all if it was seen as often.
proof fn lemma_sighted_bound(seen: Sightings, wanted: Seq<char>, n: int)
    requires
        0 <= n,
    ensures
        sighted(seen, wanted, n) <= n,
        sighted(seen, wanted, n) == n <==> forall|i: int|
            0 <= i < n ==> #[trigger] seen.dom().contains((i, wanted)),
    decreases n,
{
    if n > 0 {
        lemma_sighted_bound(seen, wanted, n - 1);
        if sighted(seen, wanted, n) == n {
            assert forall|i: int| 0 <= i < n implies #[trigger] seen.dom().contains((i, wanted)) by {}
        }
        if forall|i: int| 0 <= i < n ==> #[trigger] seen.dom().contains((i, wanted)) {
            assert(seen.dom().contains((n - 1, wanted)));
        }
    }
}

/// The index of the run with the identifier of a run is that of the run.
proof fn lemma_found_run(runs: Seq<RunRecordModel>, k: int)
    requires
        0 <= k < runs.len(),
        runs_differ(runs),
    ensures
        next_where(runs, is_run(runs[k].metadata.run_id), 0) == k,
{
    let wanted = is_run(runs[k].metadata.run_id);
    assert forall|j: int| 0 <= j < k implies !wanted(#[trigger] runs[j]) by {}
    lemma_next_where_is(runs, wanted, 0, k);
}

/// Whether the first run with an error is `first` and the last is `last`.
pub open spec fn occurs_between(
    runs: Seq<RunRecordModel>,
    wanted: Seq<char>,
    first: int,
    last: int,
) -> bool {
    &&& 0 <= first <= last < runs.len()
    &&& occurs_in(runs[first], wanted)
    &&& occurs_in(runs[last], wanted)
    &&& forall|i: int| 0 <= i < first ==> !occurs_in(#[trigger] runs[i], wanted)
    &&& forall|i: int| last < i < runs.len() ==> !occurs_in(#[trigger] runs[i], wanted)
}

/// Whether an error occurs in every run.
pub open spec fn occurs_throughout(runs: Seq<RunRecordModel>, wanted: Seq<char>) -> bool {
    forall|i: int| 0 <= i < runs.len() ==> occurs_in(#[trigger] runs[i], wanted)
}

/// Whether the report names the runs in which an error occurs first and last, and describes it as
/// the first of these runs does.
pub open spec fn names_first_and_last(
    error: ErrorTimelineModel,
    runs: Seq<RunRecordModel>,
    first: int,
    last: int,
) -> bool {
    &&& occurs_between(runs, error.signature, first, last)
    &&& error.first_seen_run == runs[first].metadata.run_id
    &&& error.first_seen_sha == runs[first].metadata.head_sha
    &&& error.last_seen_run == runs[last].metadata.run_id
    &&& error.last_seen_sha == runs[last].metadata.head_sha
    &&& error.test_file == first_error_in(runs[first], error.signature).test_file
    &&& error.test_name == first_error_in(runs[first], error.signature).test_name
    &&& error.error_type == first_error_in(runs[first], error.signature).error_type
    &&& error.message == first_error_in(runs[first], error.signature).message
}

/// Whether `run_id` is the identifier of a run in which an error occurs.
pub open spec fn is_run_with(
    runs: Seq<RunRecordModel>,
    wanted: Seq<char>,
    run_id: Seq<char>,
) -> bool {
    exists|i: int|
        0 <= i < runs.len() && (#[trigger] runs[i]).metadata.run_id == run_id && occurs_in(
            runs[i],
            wanted,
        )
}

/// Whether the report tells of an error what happened: in which runs and at how many places it
/// occurs, by run identifier and for no other run, and by that its status and the commits that
/// likely brought and fixed it.
pub open spec fn tells_truly(
    error: ErrorTimelineModel,
    runs: Seq<RunRecordModel>,
    first: int,
    last: int,
) -> bool {
    let wanted = error.signature;
    &&& names_first_and_last(error, runs, first, last)
    &&& forall|i: int|
        0 <= i < runs.len() ==> (occurs_in(#[trigger] runs[i], wanted) <==> has_key(
            error.occurrences_by_run,
            runs[i].metadata.run_id,
        ))
    &&& forall|i: int|
        0 <= i < runs.len() && occurs_in(#[trigger] runs[i], wanted) ==> holds(
            error.occurrences_by_run,
            runs[i].metadata.run_id,
            places_in(runs[i], wanted),
        )
    &&& forall|run_id: Seq<char>| #[trigger]
        has_key(error.occurrences_by_run, run_id) ==> is_run_with(runs, wanted, run_id)
    &&& ascending(error.occurrences_by_run)
    &&& error.status is Regressed <==> !occurs_in(runs[0], wanted)
    &&& error.status is Fixed <==> occurs_in(runs[0], wanted) && !occurs_in(runs.last(), wanted)
    &&& error.status is Persistent <==> occurs_throughout(runs, wanted)
    &&& error.status is Intermittent <==> occurs_in(runs[0], wanted) && occurs_in(
        runs.last(),
        wanted,
    ) && !occurs_throughout(runs, wanted)
    &&& error.likely_culprit_commit == if first > 0 || runs.len() == 1 {
        Some(runs[first].metadata.head_sha)
    } else {
        None
    }
    &&& error.likely_fix_commit == if first == 0 && last + 1 < runs.len() {
        Some(runs[last + 1].metadata.head_sha)
    } else {
        None
    }
}

/// What is told of a trail is true.
proof fn lemma_told_truly(runs: Seq<RunRecordModel>, k: int)
    requires
        runs_differ(runs),
        0 <= k < told_of_all(runs).len(),
    ensures
        exists|first: int, last: int| #[trigger]
            tells_truly(told_of_all(runs)[k], runs, first, last),
{
    let n = runs.len() as int;
    let seen = all_sightings(runs, n);
    let trails = trails_after(runs, n);
    lemma_trails_are_consistent(runs, n);
    let trail = trails[k];
    let wanted = trail.signature;
    assert(agrees(trail, runs, n, seen));
    let (first, last) = choose|first: int, last: int| #[trigger]
        spans(trail, runs, n, seen, first, last);
    assert forall|i: int| 0 <= i < n implies (occurs_in(#[trigger] runs[i], wanted)
        <==> seen.dom().contains((i, wanted))) by {}
    lemma_sighted_bound(seen, wanted, n);
    lemma_found_run(runs, last);
    let error = told_of(trail, runs);
    assert(error == told_of_all(runs)[k]);
    assert(occurs_between(runs, wanted, first, last));
    assert(first == 0 <==> trail.first_run == runs[0].metadata.run_id) by {
        if first > 0 {
            assert(runs[0].metadata.run_id != runs[first].metadata.run_id);
        }
    }
    assert(last == n - 1 <==> trail.last_run == runs.last().metadata.run_id) by {
        if last < n - 1 {
            assert(runs[last].metadata.run_id != runs[n - 1].metadata.run_id);
        }
    }
    assert(occurs_throughout(runs, wanted) <==> sighted(seen, wanted, n) == n) by {
        if occurs_throughout(runs, wanted) {
            assert forall|i: int| 0 <= i < n implies #[trigger] seen.dom().contains((i, wanted)) by {
                assert(occurs_in(runs[i], wanted));
            }
        }
        if sighted(seen, wanted, n) == n {
            assert forall|i: int| 0 <= i < n implies occurs_in(#[trigger] runs[i], wanted) by {
                assert(seen.dom().contains((i, wanted)));
            }
        }
    }
    assert(occurs_in(runs[0], wanted) <==> first == 0);
    assert(occurs_in(runs[n - 1], wanted) <==> last == n - 1);
    assert(occurs_throughout(runs, wanted) ==> occurs_in(runs[0], wanted) && occurs_in(
        runs[n - 1],
        wanted,
    ));
    assert forall|i: int| 0 <= i < runs.len() && occurs_in(#[trigger] runs[i], wanted) implies holds(
        error.occurrences_by_run,
        runs[i].metadata.run_id,
        places_in(runs[i], wanted),
    ) by {
        assert(seen.dom().contains((i, wanted)));
        assert(seen[(i, wanted)].0 == places_in(runs[i], wanted));
    }
    assert forall|run_id: Seq<char>| #[trigger]
        has_key(error.occurrences_by_run, run_id) implies is_run_with(runs, wanted, run_id) by {
        assert(is_among(runs, n, run_id));
        let i = choose|i: int| 0 <= i < n && (#[trigger] runs[i]).metadata.run_id == run_id;
        assert(seen.dom().contains((i, wanted)) <==> has_key(
            error.occurrences_by_run,
            runs[i].metadata.run_id,
        ));
    }
    assert(seen[(first, wanted)].1 == first_error_in(runs[first], wanted));
    assert(tells_truly(error, runs, first, last));
}

/// Among errors with different signatures, such as findings hold, the number of places of an error
/// is that of the one with its signature.
pub proof fn law_places_are_those_of_the_error(errors: Seq<TestErrorModel>, k: int)
    requires
        all_different(errors),
        0 <= k < errors.len(),
    ensures
        last_count(errors, signature(errors[k])) == errors[k].occurrences.len() as usize,
    decreases errors.len(),
{
    if k < errors.len() - 1 {
        let rest = errors.drop_last();
        assert(signature(errors[k]) != signature(errors[errors.len() - 1]));
        assert forall|i: int, j: int| 0 <= i < j < rest.len() implies signature(
            #[trigger] rest[i],
        ) != signature(#[trigger] rest[j]) by {
            assert(signature(errors[i]) != signature(errors[j]));
        }
        law_places_are_those_of_the_error(rest, k);
    }
}

/// The report tells of every error what happened. Its status is "regressed" if it was not there in
/// the first run, "fixed" if it was there in the first run but is not in the last, "persistent" if
/// it is there in every run, and "intermittent" if it is there in the first and the last run but
/// not in all. The likely culprit is the commit of the first run with a regressed error, and the
/// likely fix that of the run behind the last one with a fixed error. No two runs may have the same
/// identifier, for the report tells runs apart by it.
pub proof fn law_timeline_tells_truly(
    runs: Seq<RunRecordModel>,
    analyzed_at: Seq<char>,
    k: int,
)
    requires
        runs_differ(runs),
        0 <= k < timeline_of(runs, analyzed_at).error_timeline.len(),
    ensures
        exists|first: int, last: int| #[trigger]
            tells_truly(timeline_of(runs, analyzed_at).error_timeline[k], runs, first, last),
{
    let told = told_of_all(runs);
    let sorted = stably_sorted::<ErrorTimeline>(told);
    lemma_sorting_keeps_members::<ErrorTimeline>(told, sorted[k]);
    let i = choose|i: int| 0 <= i < told.len() && told[i] == sorted[k];
    lemma_told_truly(runs, i);
}

/// The report names, for every error, the run in which it occurs first and the one in which it
/// occurs last, with their commits, and describes the error as it was found in the first.
pub proof fn law_timeline_names_first_and_last_runs(
    runs: Seq<RunRecordModel>,
    analyzed_at: Seq<char>,
    k: int,
)
    requires
        0 <= k < timeline_of(runs, analyzed_at).error_timeline.len(),
    ensures
        exists|first: int, last: int| #[trigger]
            names_first_and_last(
                timeline_of(runs, analyzed_at).error_timeline[k],
                runs,
                first,
                last,
            ),
{
    let n = runs.len() as int;
    let seen = all_sightings(runs, n);
    let trails = trails_after(runs, n);
    let told = told_of_all(runs);
    let sorted = stably_sorted::<ErrorTimeline>(told);
    lemma_trails_are_consistent(runs, n);
    lemma_sorting_keeps_members::<ErrorTimeline>(told, sorted[k]);
    let i = choose|i: int| 0 <= i < told.len() && told[i] == sorted[k];
    let trail = trails[i];
    assert(agrees(trail, runs, n, seen));
    let (first, last) = choose|first: int, last: int| #[trigger]
        spans(trail, runs, n, seen, first, last);
    assert forall|r: int| 0 <= r < n implies (occurs_in(#[trigger] runs[r], trail.signature)
        <==> seen.dom().contains((r, trail.signature))) by {}
    assert(seen[(first, trail.signature)].1 == first_error_in(runs[first], trail.signature));
    assert(names_first_and_last(sorted[k], runs, first, last));
}

/// Whether the report has an entry for the error with the signature `wanted`.
pub open spec fn is_told(errors: Seq<ErrorTimelineModel>, wanted: Seq<char>) -> bool {
    exists|k: int| 0 <= k < errors.len() && (#[trigger] errors[k]).signature == wanted
}

/// The report has an entry for exactly the errors that occur in some run.
pub proof fn law_timeline_is_complete(
    runs: Seq<RunRecordModel>,
    analyzed_at: Seq<char>,
    wanted: Seq<char>,
)
    ensures
        is_told(timeline_of(runs, analyzed_at).error_timeline, wanted) <==> exists|i: int|
            0 <= i < runs.len() && occurs_in(#[trigger] runs[i], wanted),
{
    let n = runs.len() as int;
    let seen = all_sightings(runs, n);
    let trails = trails_after(runs, n);
    let told = told_of_all(runs);
    let sorted = stably_sorted::<ErrorTimeline>(told);
    lemma_trails_are_consistent(runs, n);
    assert(has_trail(trails, wanted) <==> was_seen(seen, wanted, n));
    if is_told(sorted, wanted) {
        let k = choose|k: int| 0 <= k < sorted.len() && (#[trigger] sorted[k]).signature == wanted;
        lemma_sorting_keeps_members::<ErrorTimeline>(told, sorted[k]);
        let i = choose|i: int| 0 <= i < told.len() && told[i] == sorted[k];
        assert(trails[i].signature == wanted);
        assert(has_trail(trails, wanted));
        let r = choose|r: int| 0 <= r < n && #[trigger] seen.dom().contains((r, wanted));
        assert(occurs_in(runs[r], wanted));
    }
    if exists|i: int| 0 <= i < runs.len() && occurs_in(#[trigger] runs[i], wanted) {
        let r = choose|r: int| 0 <= r < runs.len() && occurs_in(#[trigger] runs[r], wanted);
        assert(seen.dom().contains((r, wanted)));
        assert(has_trail(trails, wanted));
        let i = choose|i: int| 0 <= i < trails.len() && (#[trigger] trails[i]).signature == wanted;
        assert(told[i].signature == wanted);
        lemma_sorting_keeps_members::<ErrorTimeline>(told, told[i]);
        let k = choose|k: int| 0 <= k < sorted.len() && sorted[k] == told[i];
        assert(sorted[k].signature == wanted);
    }
}

/// The report has one entry for an error, and lists the errors by status and then by signature.
pub proof fn law_timeline_is_in_order(runs: Seq<RunRecordModel>, analyzed_at: Seq<char>)
    ensures
        forall|i: int, j: int|
            0 <= i < j < timeline_of(runs, analyzed_at).error_timeline.len() ==> {
                let a = #[trigger] timeline_of(runs, analyzed_at).error_timeline[i];
                let b = #[trigger] timeline_of(runs, analyzed_at).error_timeline[j];
                &&& a.signature != b.signature
                &&& a.status.rank() < b.status.rank() || a.status == b.status && precedes(
                    a.signature,
                    b.signature,
                )
            },
{
    let n = runs.len() as int;
    let trails = trails_after(runs, n);
    let told = told_of_all(runs);
    let sorted = stably_sorted::<ErrorTimeline>(told);
    lemma_trails_are_consistent(runs, n);
    lemma_sorting_keeps_values::<ErrorTimeline>(told);
    lemma_sorting_orders::<ErrorTimeline>(told);
    assert(told.no_duplicates()) by {
        assert forall|i: int, j: int| 0 <= i < told.len() && 0 <= j < told.len() && i
            != j implies told[i] != told[j] by {
            assert(told[i].signature == trails[i].signature);
            assert(told[j].signature == trails[j].signature);
        }
    }
    told.lemma_multiset_has_no_duplicates();
    sorted.lemma_multiset_has_no_duplicates_conv();
    assert forall|i: int, j: int| 0 <= i < j < sorted.len() implies {
        let a = #[trigger] sorted[i];
        let b = #[trigger] sorted[j];
        &&& a.signature != b.signature
        &&& a.status.rank() < b.status.rank() || a.status == b.status && precedes(
            a.signature,
            b.signature,
        )
    } by {
        let a = sorted[i];
        let b = sorted[j];
        if a.signature == b.signature {
            lemma_sorting_keeps_members::<ErrorTimeline>(told, a);
            lemma_sorting_keeps_members::<ErrorTimeline>(told, b);
            let i0 = choose|i0: int| 0 <= i0 < told.len() && told[i0] == a;
            let j0 = choose|j0: int| 0 <= j0 < told.len() && told[j0] == b;
            assert(trails[i0].signature == trails[j0].signature);
            assert(i0 == j0);
        }
        lemma_precedes_total(a.signature, b.signature);
        assert(ErrorTimeline::le(a, b));
    }
}

/// Whether a status comes before another in the report: regressed errors come first, then those
/// that persist, those that come and go, and those that are fixed.
pub open spec fn comes_first(a: ErrorStatus, b: ErrorStatus) -> bool {
    match a {
        ErrorStatus::Regressed => !(b is Regressed),
        ErrorStatus::Persistent => b is Intermittent || b is Fixed,
        ErrorStatus::Intermittent => b is Fixed,
        ErrorStatus::Fixed => false,
    }
}

/// Of two errors of the report, the first has the status that comes first, or the same status and
/// the signature that comes first.
pub proof fn law_regressed_errors_come_first(
    runs: Seq<RunRecordModel>,
    analyzed_at: Seq<char>,
    i: int,
    j: int,
)
    requires
        0 <= i < j < timeline_of(runs, analyzed_at).error_timeline.len(),
    ensures
        ({
            let a = timeline_of(runs, analyzed_at).error_timeline[i];
            let b = timeline_of(runs, analyzed_at).error_timeline[j];
            ||| comes_first(a.status, b.status)
            ||| a.status == b.status && precedes(a.signature, b.signature)
        }),
{
    law_timeline_is_in_order(runs, analyzed_at);
}

/// The words for the statuses.
pub proof fn law_statuses_have_words()
    ensures
        ErrorStatus::Regressed.word() == "regressed"@,
        ErrorStatus::Persistent.word() == "persistent"@,
        ErrorStatus::Intermittent.word() == "intermittent"@,
        ErrorStatus::Fixed.word() == "fixed"@,
        ErrorStatus::Regressed.rank() < ErrorStatus::Persistent.rank(),
        ErrorStatus::Persistent.rank() < ErrorStatus::Intermittent.rank(),
        ErrorStatus::Intermittent.rank() < ErrorStatus::Fixed.rank(),
{
}

/// The status of an error and the commits that likely brought and fixed it follow from the runs that
/// are named as its first and its last, whatever the identifiers of the runs are.
pub proof fn law_statuses_follow_the_named_runs(
    runs: Seq<RunRecordModel>,
    analyzed_at: Seq<char>,
    k: int,
)
    requires
        0 <= k < timeline_of(runs, analyzed_at).error_timeline.len(),
    ensures
        ({
            let error = timeline_of(runs, analyzed_at).error_timeline[k];
            let at_first = error.first_seen_run == runs.first().metadata.run_id;
            let at_last = error.last_seen_run == runs.last().metadata.run_id;
            let throughout = error.occurrences_by_run.len() == runs.len();
            &&& error.status is Regressed <==> !at_first
            &&& error.status is Fixed <==> at_first && !at_last
            &&& error.status is Persistent <==> at_first && at_last && throughout
            &&& error.status is Intermittent <==> at_first && at_last && !throughout
            &&& error.likely_culprit_commit is Some <==> !at_first || at_last && throughout
                && runs.len() == 1
            &&& error.likely_culprit_commit is Some ==> error.likely_culprit_commit->0
                == error.first_seen_sha
            &&& !(error.status is Fixed) ==> error.likely_fix_commit is None
            &&& forall|r: int|
                error.status is Fixed && 0 <= r < runs.len() && (
                #[trigger] runs[r]).metadata.run_id == error.last_seen_run && (forall|q: int|
                    0 <= q < r ==> (#[trigger] runs[q]).metadata.run_id != error.last_seen_run)
                    ==> error.likely_fix_commit == if r + 1 < runs.len() {
                    Some(runs[r + 1].metadata.head_sha)
                } else {
                    None
                }
        }),
{
    let told = told_of_all(runs);
    let sorted = stably_sorted::<ErrorTimeline>(told);
    lemma_sorting_keeps_members::<ErrorTimeline>(told, sorted[k]);
    let i = choose|i: int| 0 <= i < told.len() && told[i] == sorted[k];
    let error = sorted[k];
    assert forall|r: int|
        error.status is Fixed && 0 <= r < runs.len() && (#[trigger] runs[r]).metadata.run_id
            == error.last_seen_run && (forall|q: int|
            0 <= q < r ==> (#[trigger] runs[q]).metadata.run_id
                != error.last_seen_run) implies error.likely_fix_commit == if r + 1 < runs.len() {
        Some(runs[r + 1].metadata.head_sha)
    } else {
        None
    } by {
        let here = is_run(error.last_seen_run);
        assert forall|q: int| 0 <= q < r implies !here(#[trigger] runs[q]) by {
            assert(runs[q].metadata.run_id != error.last_seen_run);
        }
        lemma_next_where_is(runs, here, 0, r);
    }
}

// ---------------------------------------------------------------------------
// The runs of the report
// ---------------------------------------------------------------------------

/// How many of the first `n` runs were analyzed.
pub open spec fn analyzed_before(runs: Seq<RunRecordModel>, n: int) -> int
    decreases n,
{
    if n <= 0 {
        0
    } else {
        analyzed_before(runs, n - 1) + if runs[n - 1].findings is Some {
            1int
        } else {
            0
        }
    }
}

proof fn lemma_summaries(runs: Seq<RunRecordModel>, n: int, r: int)
    requires
        0 <= n <= runs.len(),
    ensures
        ({
            let listed = run_summaries(runs, n);
            let at = analyzed_before(runs, r);
            &&& listed.len() == analyzed_before(runs, n)
            &&& 0 <= r < n && runs[r].findings is Some ==> {
                &&& 0 <= at < listed.len()
                &&& listed[at].run_id == runs[r].metadata.run_id
                &&& listed[at].run_number == runs[r].metadata.run_number
                &&& listed[at].head_sha == runs[r].metadata.head_sha
                &&& listed[at].failed_jobs == runs[r].metadata.failed_jobs
                &&& listed[at].unique_errors == runs[r].findings->0.summary.total_unique_errors
            }
        }),
    decreases n,
{
    if n > 0 {
        lemma_summaries(runs, n - 1, r);
    }
}

/// The report lists the runs that were analyzed, in their order, and no others: each with its
/// identifier, its number, its commit and how many of its jobs failed, and how many different
/// errors were found in it.
pub proof fn law_analyzed_runs_are_listed(
    runs: Seq<RunRecordModel>,
    analyzed_at: Seq<char>,
    r: int,
)
    requires
        0 <= r < runs.len(),
        runs[r].findings is Some,
    ensures
        ({
            let listed = timeline_of(runs, analyzed_at).runs_analyzed;
            let at = analyzed_before(runs, r);
            &&& listed.len() == analyzed_before(runs, runs.len() as int)
            &&& 0 <= at < listed.len()
            &&& listed[at].run_id == runs[r].metadata.run_id
            &&& listed[at].run_number == runs[r].metadata.run_number
            &&& listed[at].head_sha == runs[r].metadata.head_sha
            &&& listed[at].failed_jobs == runs[r].metadata.failed_jobs
            &&& listed[at].unique_errors == runs[r].findings->0.summary.total_unique_errors
        }),
{
    lemma_summaries(runs, runs.len() as int, r);
}

/// The report says when it was made, and names the pull request of the first run. Without an
/// analyzed run it lists nothing.
pub proof fn law_timeline_names_the_pull_request(
    runs: Seq<RunRecordModel>,
    analyzed_at: Seq<char>,
)
    ensures
        timeline_of(runs, analyzed_at).analyzed_at == analyzed_at,
        runs.len() == 0 ==> timeline_of(runs, analyzed_at).pr_number is None,
        runs.len() > 0 ==> timeline_of(runs, analyzed_at).pr_number
            == runs.first().metadata.pr_number,
        timeline_of(runs, analyzed_at).runs_analyzed.len() == analyzed_before(
            runs,
            runs.len() as int,
        ),
{
    lemma_summaries(runs, runs.len() as int, 0);
}

// ---------------------------------------------------------------------------
// The printed report
// ---------------------------------------------------------------------------

proof fn lemma_count_of(
    errors: Seq<ErrorTimelineModel>,
    error: ErrorTimelineModel,
    n: int,
    status: ErrorStatus,
)
    requires
        0 <= n <= errors.len(),
    ensures
        count_of(errors.push(error), n, status) == count_of(errors, n, status),
    decreases n,
{
    if n > 0 {
        lemma_count_of(errors, error, n - 1, status);
        assert(errors.push(error)[n - 1] == errors[n - 1]);
    }
}

/// One more error counts for its own status only.
pub proof fn law_errors_count_for_their_status(
    errors: Seq<ErrorTimelineModel>,
    error: ErrorTimelineModel,
    status: ErrorStatus,
)
    ensures
        total_of(errors.push(error), status) == total_of(errors, status) + if error.status
            == status {
            1int
        } else {
            0
        },
        total_of(seq![], status) == 0,
{
    lemma_count_of(errors, error, errors.len() as int, status);
}

/// The printed report counts the errors of each status in a line of its own, in the order of the
/// statuses.
pub proof fn law_statuses_are_shown(errors: Seq<ErrorTimelineModel>)
    ensures
        timeline_text(errors) == "\n✓ Timeline analysis:\n"@ + ("  Regressed:    "@ + decimal(
            total_of(errors, ErrorStatus::Regressed),
        ) + " errors\n"@) + ("  Persistent:   "@ + decimal(
            total_of(errors, ErrorStatus::Persistent),
        ) + " errors\n"@) + ("  Intermittent: "@ + decimal(
            total_of(errors, ErrorStatus::Intermittent),
        ) + " errors\n"@) + ("  Fixed:        "@ + decimal(total_of(errors, ErrorStatus::Fixed))
            + " errors\n"@),
{
}

/// What is told of a run that was not analyzed names the run.
pub proof fn law_missing_findings_name_the_run(run_id: Seq<char>)
    ensures
        missing_findings_text(run_id) == "⚠ No findings.json for run "@ + (run_id
            + " - run `analyze` first"@),
{
    assert(missing_findings_text(run_id) =~= "⚠ No findings.json for run "@ + (run_id
        + " - run `analyze` first"@));
}

} // verus!
