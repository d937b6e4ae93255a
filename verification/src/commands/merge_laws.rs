//! What merging keeps of the errors of the logs.
use super::analyze::{has_signature, law_merging_is_by_signature, merged, signature};
use crate::models::{ErrorOccurrenceModel, TestErrorModel};
use crate::seqs::{lemma_next_where, next_where};
use crate::text::joined;
use vstd::prelude::*;

verus! {

// ---------------------------------------------------------------------------
// Signatures
// ---------------------------------------------------------------------------

/// What tells an error from others: its framework, file, test and kind, between double colons.
pub open spec fn title(error: TestErrorModel) -> Seq<char> {
    joined(seq![error.framework, error.test_file, error.test_name, error.error_type], "::"@)
}

/// The signature of an error is made of its framework, file, test and kind, and of nothing else.
pub proof fn law_signatures_are_titles(error: TestErrorModel)
    ensures
        signature(error) == title(error),
{
    let four = seq![error.framework, error.test_file, error.test_name, error.error_type];
    let three = seq![error.framework, error.test_file, error.test_name];
    let two = seq![error.framework, error.test_file];
    let one = seq![error.framework];
    assert(four.drop_last() =~= three);
    assert(three.drop_last() =~= two);
    assert(two.drop_last() =~= one);
    assert(joined(one, "::"@) == error.framework);
    assert(joined(two, "::"@) == error.framework + "::"@ + error.test_file);
    assert(joined(three, "::"@) == error.framework + "::"@ + error.test_file + "::"@
        + error.test_name);
}

proof fn lemma_cancel(p: Seq<char>, x: Seq<char>, y: Seq<char>, s: Seq<char>)
    requires
        p + x + s == p + y + s,
    ensures
        x == y,
{
    let a = p + x + s;
    let b = p + y + s;
    assert(a.len() == b.len());
    assert forall|i: int| 0 <= i < x.len() implies x[i] == y[i] by {
        assert(a[p.len() + i] == x[i]);
        assert(b[p.len() + i] == y[i]);
    }
    assert(x =~= y);
}

/// Two errors that agree in all but one of framework, file, test and kind have the same signature
/// exactly if they agree in that one, too; messages, lines and places do not matter.
pub proof fn law_signatures_tell_errors_apart(a: TestErrorModel, b: TestErrorModel)
    ensures
        a.test_file == b.test_file && a.test_name == b.test_name && a.error_type == b.error_type
            ==> (signature(a) == signature(b) <==> a.framework == b.framework),
        a.framework == b.framework && a.test_name == b.test_name && a.error_type == b.error_type
            ==> (signature(a) == signature(b) <==> a.test_file == b.test_file),
        a.framework == b.framework && a.test_file == b.test_file && a.error_type == b.error_type
            ==> (signature(a) == signature(b) <==> a.test_name == b.test_name),
        a.framework == b.framework && a.test_file == b.test_file && a.test_name == b.test_name
            ==> (signature(a) == signature(b) <==> a.error_type == b.error_type),
{
    let none = Seq::<char>::empty();
    if signature(a) == signature(b) {
        if a.test_file == b.test_file && a.test_name == b.test_name && a.error_type
            == b.error_type {
            let s = "::"@ + a.test_file + "::"@ + a.test_name + "::"@ + a.error_type;
            assert(signature(a) =~= none + a.framework + s);
            assert(signature(b) =~= none + b.framework + s);
            lemma_cancel(none, a.framework, b.framework, s);
        }
        if a.framework == b.framework && a.test_name == b.test_name && a.error_type
            == b.error_type {
            let p = a.framework + "::"@;
            let s = "::"@ + a.test_name + "::"@ + a.error_type;
            assert(signature(a) =~= p + a.test_file + s);
            assert(signature(b) =~= p + b.test_file + s);
            lemma_cancel(p, a.test_file, b.test_file, s);
        }
        if a.framework == b.framework && a.test_file == b.test_file && a.error_type
            == b.error_type {
            let p = a.framework + "::"@ + a.test_file + "::"@;
            let s = "::"@ + a.error_type;
            assert(signature(a) =~= p + a.test_name + s);
            assert(signature(b) =~= p + b.test_name + s);
            lemma_cancel(p, a.test_name, b.test_name, s);
        }
        if a.framework == b.framework && a.test_file == b.test_file && a.test_name
            == b.test_name {
            let p = a.framework + "::"@ + a.test_file + "::"@ + a.test_name + "::"@;
            assert(signature(a) =~= p + a.error_type + none);
            assert(signature(b) =~= p + b.error_type + none);
            lemma_cancel(p, a.error_type, b.error_type, none);
        }
    }
}

// ---------------------------------------------------------------------------
// Merged errors
// ---------------------------------------------------------------------------

/// Whether no error before the error `i` has the same title.
pub open spec fn is_first(errors: Seq<TestErrorModel>, i: int) -> bool {
    &&& 0 <= i < errors.len()
    &&& forall|j: int| 0 <= j < i ==> title(#[trigger] errors[j]) != title(errors[i])
}

/// How many of the first `n` errors are the first with their title.
pub open spec fn firsts_before(errors: Seq<TestErrorModel>, n: int) -> int
    decreases n,
{
    if n <= 0 {
        0
    } else {
        firsts_before(errors, n - 1) + if is_first(errors, n - 1) {
            1int
        } else {
            0
        }
    }
}

/// The places of those of the first `n` errors that have the title `wanted`, in their order.
pub open spec fn places_before(errors: Seq<TestErrorModel>, n: int, wanted: Seq<char>) -> Seq<
    ErrorOccurrenceModel,
>
    decreases n,
{
    if n <= 0 {
        seq![]
    } else if title(errors[n - 1]) == wanted {
        places_before(errors, n - 1, wanted) + errors[n - 1].occurrences
    } else {
        places_before(errors, n - 1, wanted)
    }
}

/// Whether two errors agree in everything but their places.
pub open spec fn agree(a: TestErrorModel, b: TestErrorModel) -> bool {
    &&& a.framework == b.framework
    &&& a.test_file == b.test_file
    &&& a.test_name == b.test_name
    &&& a.error_type == b.error_type
    &&& a.message == b.message
    &&& a.line == b.line
}

/// Whether the merged error `k` stands for the error `i`, the first of the first `n` errors with its
/// title.
pub open spec fn stands_for(
    merged: Seq<TestErrorModel>,
    k: int,
    errors: Seq<TestErrorModel>,
    n: int,
    i: int,
) -> bool {
    &&& 0 <= k < merged.len()
    &&& k == firsts_before(errors, i)
    &&& agree(merged[k], errors[i])
    &&& merged[k].occurrences == places_before(errors, n, title(errors[i]))
}

/// Whether the merged error `k` stands for one of the first `n` errors.
spec fn stands_for_some(
    merged: Seq<TestErrorModel>,
    k: int,
    errors: Seq<TestErrorModel>,
    n: int,
) -> bool {
    exists|i: int|
        0 <= i < n && is_first(errors, i) && #[trigger] stands_for(merged, k, errors, n, i)
}

proof fn lemma_firsts_grow(errors: Seq<TestErrorModel>, i: int, n: int)
    requires
        0 <= i <= n,
    ensures
        0 <= firsts_before(errors, i) <= firsts_before(errors, n),
        i < n && is_first(errors, i) ==> firsts_before(errors, i) < firsts_before(errors, n),
    decreases n,
{
    if i < n {
        lemma_firsts_grow(errors, i, n - 1);
    } else if n > 0 {
        lemma_firsts_grow(errors, i - 1, n - 1);
    }
}

/// A title that none of the first `n` errors has was seen nowhere among them.
proof fn lemma_no_places_before(errors: Seq<TestErrorModel>, n: int, wanted: Seq<char>)
    requires
        forall|j: int| 0 <= j < n ==> title(#[trigger] errors[j]) != wanted,
    ensures
        places_before(errors, n, wanted) == Seq::<ErrorOccurrenceModel>::empty(),
    decreases n,
{
    if n > 0 {
        lemma_no_places_before(errors, n - 1, wanted);
    }
}

/// The first error with the title of the error `i`.
proof fn lemma_first_like(errors: Seq<TestErrorModel>, i: int) -> (f: int)
    requires
        0 <= i < errors.len(),
    ensures
        0 <= f <= i,
        is_first(errors, f),
        title(errors[f]) == title(errors[i]),
    decreases i,
{
    if is_first(errors, i) {
        i
    } else {
        let j = choose|j: int| 0 <= j < i && title(#[trigger] errors[j]) == title(errors[i]);
        lemma_first_like(errors, j)
    }
}

proof fn lemma_merged(errors: Seq<TestErrorModel>, n: int)
    requires
        0 <= n <= errors.len(),
    ensures
        ({
            let out = merged(errors.take(n));
            &&& out.len() == firsts_before(errors, n)
            &&& forall|i: int|
                0 <= i < n && #[trigger] is_first(errors, i) ==> stands_for(
                    out,
                    firsts_before(errors, i),
                    errors,
                    n,
                    i,
                )
            &&& forall|k: int|
                0 <= k < out.len() ==> #[trigger] stands_for_some(out, k, errors, n)
        }),
    decreases n,
{
    let out = merged(errors.take(n));
    if n > 0 {
        let known = merged(errors.take(n - 1));
        let error = errors[n - 1];
        let wanted = signature(error);
        let k = next_where(known, has_signature(wanted), 0);
        lemma_merged(errors, n - 1);
        assert(errors.take(n).drop_last() =~= errors.take(n - 1));
        assert(errors.take(n).last() == error);
        law_merging_is_by_signature(errors.take(n - 1));
        lemma_next_where(known, has_signature(wanted), 0);
        law_signatures_are_titles(error);
        assert forall|m: int, i: int| #[trigger]
            stands_for(known, m, errors, n - 1, i) implies signature(known[m]) == title(
            errors[i],
        ) by {
            law_signatures_are_titles(errors[i]);
            law_signatures_are_titles(known[m]);
        }
        if is_first(errors, n - 1) {
            assert(k == known.len()) by {
                if k < known.len() {
                    assert(has_signature(wanted)(known[k]));
                    assert(stands_for_some(known, k, errors, n - 1));
                    let i = choose|i: int|
                        0 <= i < n - 1 && is_first(errors, i) && #[trigger] stands_for(
                            known,
                            k,
                            errors,
                            n - 1,
                            i,
                        );
                    assert(title(errors[i]) != title(errors[n - 1]));
                }
            }
            assert(out == known.push(error));
            lemma_no_places_before(errors, n - 1, title(error));
            assert(Seq::<ErrorOccurrenceModel>::empty() + error.occurrences
                =~= error.occurrences);
            assert(stands_for(out, known.len() as int, errors, n, n - 1));
            assert forall|i: int| 0 <= i < n && #[trigger] is_first(errors, i) implies stands_for(
                out,
                firsts_before(errors, i),
                errors,
                n,
                i,
            ) by {
                if i < n - 1 {
                    assert(stands_for(known, firsts_before(errors, i), errors, n - 1, i));
                    assert(title(errors[i]) != title(errors[n - 1]));
                }
            }
            assert forall|m: int| 0 <= m < out.len() implies #[trigger] stands_for_some(
                out,
                m,
                errors,
                n,
            ) by {
                if m < known.len() {
                    assert(stands_for_some(known, m, errors, n - 1));
                    let i = choose|i: int|
                        0 <= i < n - 1 && is_first(errors, i) && #[trigger] stands_for(
                            known,
                            m,
                            errors,
                            n - 1,
                            i,
                        );
                    assert(stands_for(out, m, errors, n, i));
                } else {
                    assert(stands_for(out, m, errors, n, n - 1));
                }
            }
        } else {
            let f = lemma_first_like(errors, n - 1);
            let g = firsts_before(errors, f);
            assert(f != n - 1);
            assert(stands_for(known, g, errors, n - 1, f));
            assert(signature(known[g]) == wanted);
            assert(has_signature(wanted)(known[g]));
            assert(k <= g);
            assert(has_signature(wanted)(known[k]));
            if k < g {
                assert(signature(known[k]) != signature(known[g]));
            }
            assert(k == g);
            assert forall|m: int, i: int|
                0 <= i < n - 1 && is_first(errors, i) && #[trigger] stands_for(
                    known,
                    m,
                    errors,
                    n - 1,
                    i,
                ) implies stands_for(out, m, errors, n, i) by {
                if m == k {
                    lemma_firsts_differ(errors, i, f);
                    assert(i == f);
                } else {
                    if title(errors[i]) == title(error) {
                        assert(signature(known[m]) == wanted);
                        if m < k {
                            assert(signature(known[m]) != signature(known[k]));
                        } else {
                            assert(signature(known[k]) != signature(known[m]));
                        }
                    }
                }
            }
            assert forall|i: int| 0 <= i < n && #[trigger] is_first(errors, i) implies stands_for(
                out,
                firsts_before(errors, i),
                errors,
                n,
                i,
            ) by {
                assert(stands_for(known, firsts_before(errors, i), errors, n - 1, i));
            }
            assert forall|m: int| 0 <= m < out.len() implies #[trigger] stands_for_some(
                out,
                m,
                errors,
                n,
            ) by {
                assert(stands_for_some(known, m, errors, n - 1));
                let i = choose|i: int|
                    0 <= i < n - 1 && is_first(errors, i) && #[trigger] stands_for(
                        known,
                        m,
                        errors,
                        n - 1,
                        i,
                    );
                assert(stands_for(out, m, errors, n, i));
            }
        }
    } else {
        assert(errors.take(0) =~= seq![]);
    }
}

/// Different first errors have different places.
proof fn lemma_firsts_differ(errors: Seq<TestErrorModel>, i: int, j: int)
    requires
        is_first(errors, i),
        is_first(errors, j),
        firsts_before(errors, i) == firsts_before(errors, j),
    ensures
        i == j,
{
    if i < j {
        lemma_firsts_grow(errors, i, j);
    } else if j < i {
        lemma_firsts_grow(errors, j, i);
    }
}

/// There is one merged error for each error that is the first with its title, in their order. It
/// agrees with that first error in framework, file, test, kind, message and line, and has the
/// places of all errors with the title, in their order.
pub proof fn law_merged_errors_are_the_first(errors: Seq<TestErrorModel>, i: int)
    requires
        is_first(errors, i),
    ensures
        ({
            let out = merged(errors);
            let k = firsts_before(errors, i);
            &&& out.len() == firsts_before(errors, errors.len() as int)
            &&& 0 <= k < out.len()
            &&& out[k].framework == errors[i].framework
            &&& out[k].test_file == errors[i].test_file
            &&& out[k].test_name == errors[i].test_name
            &&& out[k].error_type == errors[i].error_type
            &&& out[k].message == errors[i].message
            &&& out[k].line == errors[i].line
            &&& out[k].occurrences == places_before(
                errors,
                errors.len() as int,
                title(errors[i]),
            )
        }),
{
    lemma_merged(errors, errors.len() as int);
    assert(errors.take(errors.len() as int) =~= errors);
    assert(stands_for(
        merged(errors),
        firsts_before(errors, i),
        errors,
        errors.len() as int,
        i,
    ));
}

/// Every merged error agrees, in all but its places, with the first of the errors that have its
/// title.
pub proof fn law_merged_errors_agree_with_a_first(errors: Seq<TestErrorModel>, k: int)
    requires
        0 <= k < merged(errors).len(),
    ensures
        exists|i: int| #[trigger] is_first(errors, i) && agree(merged(errors)[k], errors[i]),
{
    lemma_merged(errors, errors.len() as int);
    assert(errors.take(errors.len() as int) =~= errors);
    assert(stands_for_some(merged(errors), k, errors, errors.len() as int));
    let i = choose|i: int|
        0 <= i < errors.len() && is_first(errors, i) && #[trigger] stands_for(
            merged(errors),
            k,
            errors,
            errors.len() as int,
            i,
        );
    assert(is_first(errors, i) && agree(merged(errors)[k], errors[i]));
}

} // verus!
