//! The order of texts, stable sorting, and lists of entries ordered by their keys.
use crate::seqs::{lemma_next_where, lemma_next_where_is, next_where, put_item, take_item};
use crate::text::{chars_of, same};
use vstd::prelude::*;

verus! {

// ---------------------------------------------------------------------------
// Texts
// ---------------------------------------------------------------------------

/// Whether `a` comes before `b`, character by character in the order of their code points. The
/// bytes of their UTF-8 forms give the same order.
pub open spec fn precedes(a: Seq<char>, b: Seq<char>) -> bool
    decreases a.len(),
{
    if b.len() == 0 {
        false
    } else if a.len() == 0 {
        true
    } else if a[0] == b[0] {
        precedes(a.drop_first(), b.drop_first())
    } else {
        a[0] < b[0]
    }
}

/// No text comes before itself.
pub proof fn lemma_precedes_irreflexive(a: Seq<char>)
    ensures
        !precedes(a, a),
    decreases a.len(),
{
    if a.len() > 0 {
        lemma_precedes_irreflexive(a.drop_first());
    }
}

/// What comes before something that comes before `c` comes before `c`.
pub proof fn lemma_precedes_transitive(a: Seq<char>, b: Seq<char>, c: Seq<char>)
    requires
        precedes(a, b),
        precedes(b, c),
    ensures
        precedes(a, c),
    decreases a.len(),
{
    if a.len() > 0 && a[0] == b[0] && b[0] == c[0] {
        lemma_precedes_transitive(a.drop_first(), b.drop_first(), c.drop_first());
    }
}

/// Of two different texts, one comes before the other.
pub proof fn lemma_precedes_total(a: Seq<char>, b: Seq<char>)
    ensures
        a == b || precedes(a, b) || precedes(b, a),
    decreases a.len(),
{
    if a.len() > 0 && b.len() > 0 {
        if a[0] == b[0] {
            lemma_precedes_total(a.drop_first(), b.drop_first());
            if a.drop_first() == b.drop_first() {
                assert(a =~= seq![a[0]] + a.drop_first());
                assert(b =~= seq![b[0]] + b.drop_first());
            }
        }
    } else if a.len() == 0 && b.len() == 0 {
        assert(a =~= b);
    }
}

/// Whether `a` comes before `b`.
pub fn text_precedes(a: &str, b: &str) -> (yes: bool)
    ensures
        yes == precedes(a@, b@),
{
    let left = chars_of(a);
    let right = chars_of(b);
    let mut i: usize = 0;
    assert(a@.skip(0) =~= a@);
    assert(b@.skip(0) =~= b@);
    while i < left.len() && i < right.len()
        invariant
            left@ == a@,
            right@ == b@,
            i <= left@.len(),
            i <= right@.len(),
            precedes(a@.skip(i as int), b@.skip(i as int)) == precedes(a@, b@),
        decreases left@.len() - i,
    {
        if left[i] != right[i] {
            return left[i] < right[i];
        }
        assert(a@.skip(i as int).drop_first() =~= a@.skip(i + 1));
        assert(b@.skip(i as int).drop_first() =~= b@.skip(i + 1));
        i += 1;
    }
    i == left.len() && i < right.len()
}

// ---------------------------------------------------------------------------
// Stable sorting
// ---------------------------------------------------------------------------

/// Types whose values a report lists by rank.
pub trait Ranked: DeepView + Sized {
    /// Whether `a` may stand before `b`.
    spec fn le(a: Self::V, b: Self::V) -> bool;

    /// Any two values can be compared.
    proof fn le_total(a: Self::V, b: Self::V)
        ensures
            Self::le(a, b) || Self::le(b, a),
    ;

    /// The order is transitive.
    proof fn le_transitive(a: Self::V, b: Self::V, c: Self::V)
        requires
            Self::le(a, b),
            Self::le(b, c),
        ensures
            Self::le(a, c),
    ;

    /// Compares two values.
    fn ranks_le(&self, other: &Self) -> (yes: bool)
        ensures
            yes == Self::le(self.deep_view(), other.deep_view()),
    ;
}

/// Holds of the values that must stand behind `x`.
pub open spec fn behind<T: Ranked>(x: T::V) -> spec_fn(T::V) -> bool {
    |y: T::V| !T::le(y, x)
}

/// Holds of the values that have the same rank as `x`.
pub open spec fn tied<T: Ranked>(x: T::V) -> spec_fn(T::V) -> bool {
    |y: T::V| T::le(x, y) && T::le(y, x)
}

/// `s` with `x` put in front of the first value that must stand behind it.
pub open spec fn placed<T: Ranked>(s: Seq<T::V>, x: T::V) -> Seq<T::V> {
    s.insert(next_where(s, behind::<T>(x), 0), x)
}

/// The values of `s` in the order of their ranks, equal ranks in the order of `s`.
pub open spec fn stably_sorted<T: Ranked>(s: Seq<T::V>) -> Seq<T::V>
    decreases s.len(),
{
    if s.len() == 0 {
        seq![]
    } else {
        placed::<T>(stably_sorted::<T>(s.drop_last()), s.last())
    }
}

/// Whether every value may stand before all that follow it.
pub open spec fn in_order<T: Ranked>(s: Seq<T::V>) -> bool {
    forall|i: int, j: int| 0 <= i < j < s.len() ==> T::le(#[trigger] s[i], #[trigger] s[j])
}

/// Sorting keeps the values: each occurs as often as before.
pub proof fn lemma_sorting_keeps_values<T: Ranked>(s: Seq<T::V>)
    ensures
        stably_sorted::<T>(s).to_multiset() == s.to_multiset(),
        stably_sorted::<T>(s).len() == s.len(),
    decreases s.len(),
{
    if s.len() > 0 {
        let front = stably_sorted::<T>(s.drop_last());
        let p = next_where(front, behind::<T>(s.last()), 0);
        lemma_sorting_keeps_values::<T>(s.drop_last());
        lemma_next_where(front, behind::<T>(s.last()), 0);
        vstd::seq_lib::to_multiset_insert(front, p, s.last());
        vstd::seq_lib::to_multiset_build(s.drop_last(), s.last());
        assert(s.drop_last().push(s.last()) =~= s);
    } else {
        assert(s =~= seq![]);
    }
}

/// Sorting keeps which values there are.
pub proof fn lemma_sorting_keeps_members<T: Ranked>(s: Seq<T::V>, x: T::V)
    ensures
        stably_sorted::<T>(s).contains(x) <==> s.contains(x),
{
    let sorted = stably_sorted::<T>(s);
    lemma_sorting_keeps_values::<T>(s);
    s.to_multiset_ensures();
    sorted.to_multiset_ensures();
    assert(s.contains(x) <==> s.to_multiset().count(x) > 0);
    assert(sorted.contains(x) <==> sorted.to_multiset().count(x) > 0);
}

/// Sorting puts the values in order.
pub proof fn lemma_sorting_orders<T: Ranked>(s: Seq<T::V>)
    ensures
        in_order::<T>(stably_sorted::<T>(s)),
    decreases s.len(),
{
    if s.len() > 0 {
        let front = stably_sorted::<T>(s.drop_last());
        let x = s.last();
        let p = next_where(front, behind::<T>(x), 0);
        let out = stably_sorted::<T>(s);
        lemma_sorting_orders::<T>(s.drop_last());
        lemma_next_where(front, behind::<T>(x), 0);
        assert forall|i: int, j: int| 0 <= i < j < out.len() implies T::le(
            #[trigger] out[i],
            #[trigger] out[j],
        ) by {
            if i == p {
                assert(out[j] == front[j - 1]);
                T::le_total(front[p], x);
                if j - 1 > p {
                    T::le_transitive(x, front[p], front[j - 1]);
                }
            } else if j == p {
                assert(out[i] == front[i]);
                assert(!behind::<T>(x)(front[i]));
            } else {
                let i0 = if i < p {
                    i
                } else {
                    i - 1
                };
                let j0 = if j < p {
                    j
                } else {
                    j - 1
                };
                assert(out[i] == front[i0] && out[j] == front[j0]);
            }
        }
    }
}

/// Sorting keeps the order of values of the same rank.
pub proof fn lemma_sorting_is_stable<T: Ranked>(s: Seq<T::V>, x: T::V)
    ensures
        stably_sorted::<T>(s).filter(tied::<T>(x)) == s.filter(tied::<T>(x)),
    decreases s.len(),
{
    if s.len() > 0 {
        let front = stably_sorted::<T>(s.drop_last());
        let last = s.last();
        let p = next_where(front, behind::<T>(last), 0);
        let same_rank = tied::<T>(x);
        let head = front.take(p);
        let tail = front.skip(p);
        lemma_sorting_is_stable::<T>(s.drop_last(), x);
        lemma_sorting_orders::<T>(s.drop_last());
        lemma_next_where(front, behind::<T>(last), 0);
        assert(stably_sorted::<T>(s) =~= head.push(last) + tail);
        assert(front =~= head + tail);
        Seq::filter_distributes_over_add(head.push(last), tail, same_rank);
        Seq::filter_distributes_over_add(head, tail, same_rank);
        head.lemma_filter_push(last, same_rank);
        s.drop_last().lemma_filter_push(last, same_rank);
        assert(s.drop_last().push(last) =~= s);
        if same_rank(last) {
            assert forall|i: int| 0 <= i < tail.len() implies !same_rank(#[trigger] tail[i]) by {
                if same_rank(tail[i]) {
                    assert(tail[i] == front[p + i]);
                    T::le_transitive(tail[i], x, last);
                    if i > 0 {
                        T::le_transitive(front[p], tail[i], last);
                    }
                    assert(behind::<T>(last)(front[p]));
                }
            }
            tail.lemma_all_neg_filter_empty(same_rank);
            assert(tail.filter(same_rank) =~= seq![]);
            assert(head.filter(same_rank).push(last) + seq![] =~= (head.filter(same_rank)
                + seq![]).push(last));
        }
    } else {
        assert(s =~= stably_sorted::<T>(s));
    }
}

/// Sorts by rank and keeps the order of items of the same rank.
pub fn sort_stably<T: Ranked>(items: &mut Vec<T>)
    ensures
        final(items).deep_view() == stably_sorted::<T>(old(items).deep_view()),
{
    let ghost start = items.deep_view();
    let mut i: usize = 0;
    assert(start.take(0) =~= seq![]);
    assert(items.deep_view() =~= stably_sorted::<T>(start.take(0)) + start.skip(0));
    while i < items.len()
        invariant
            i <= items@.len(),
            items@.len() == start.len(),
            stably_sorted::<T>(start.take(i as int)).len() == i,
            items.deep_view() == stably_sorted::<T>(start.take(i as int)) + start.skip(i as int),
        decreases items@.len() - i,
    {
        let ghost before = items.deep_view();
        let ghost front = stably_sorted::<T>(start.take(i as int));
        let ghost x = start[i as int];
        assert(before[i as int] == x);
        let mut p: usize = 0;
        while p < i && items[p].ranks_le(&items[i])
            invariant
                p <= i < items@.len(),
                items.deep_view() == before,
                before[i as int] == x,
                front.len() == i,
                forall|j: int| 0 <= j < i ==> before[j] == front[j],
                forall|j: int| 0 <= j < p ==> !behind::<T>(x)(#[trigger] front[j]),
            decreases i - p,
        {
            p += 1;
        }
        proof {
            lemma_next_where_is(front, behind::<T>(x), 0, p as int);
            assert(start.take(i + 1).drop_last() =~= start.take(i as int));
            assert(start.take(i + 1).last() == x);
            lemma_sorting_keeps_values::<T>(start.take(i + 1));
            assert(stably_sorted::<T>(start.take(i + 1)) == front.insert(p as int, x));
        }
        let item = take_item(items, i);
        put_item(items, p, item);
        i += 1;
        assert(items.deep_view() =~= stably_sorted::<T>(start.take(i as int)) + start.skip(
            i as int,
        ));
    }
    assert(start.take(i as int) =~= start);
    assert(items.deep_view() =~= stably_sorted::<T>(start));
}

// ---------------------------------------------------------------------------
// Entries ordered by key
// ---------------------------------------------------------------------------

/// Whether the keys of `entries` ascend; no key then occurs twice.
pub open spec fn ascending<V>(entries: Seq<(Seq<char>, V)>) -> bool {
    forall|i: int, j: int|
        0 <= i < j < entries.len() ==> precedes((#[trigger] entries[i]).0, (#[trigger] entries[j]).0)
}

/// Holds of the entries whose keys do not come before `key`.
pub open spec fn not_before<V>(key: Seq<char>) -> spec_fn((Seq<char>, V)) -> bool {
    |entry: (Seq<char>, V)| !precedes(entry.0, key)
}

/// `entries` with `value` under `key`, in place of what was there.
pub open spec fn put<V>(entries: Seq<(Seq<char>, V)>, key: Seq<char>, value: V) -> Seq<
    (Seq<char>, V),
> {
    let p = next_where(entries, not_before(key), 0);
    if p < entries.len() && entries[p].0 == key {
        entries.update(p, (key, value))
    } else {
        entries.insert(p, (key, value))
    }
}

/// Whether `value` stands under `key`.
pub open spec fn holds<V>(entries: Seq<(Seq<char>, V)>, key: Seq<char>, value: V) -> bool {
    entries.contains((key, value))
}

/// Whether anything stands under `key`.
pub open spec fn has_key<V>(entries: Seq<(Seq<char>, V)>, key: Seq<char>) -> bool {
    exists|i: int| 0 <= i < entries.len() && (#[trigger] entries[i]).0 == key
}

/// Putting a value under a key keeps the keys ascending, puts the value there and leaves every
/// other key with what it had.
pub proof fn lemma_put<V>(entries: Seq<(Seq<char>, V)>, key: Seq<char>, value: V)
    requires
        ascending(entries),
    ensures
        ascending(put(entries, key, value)),
        forall|v: V| #[trigger] holds(put(entries, key, value), key, v) <==> v == value,
        forall|k: Seq<char>, v: V|
            k != key ==> (#[trigger] holds(put(entries, key, value), k, v) <==> holds(
                entries,
                k,
                v,
            )),
        put(entries, key, value).len() == if has_key(entries, key) {
            entries.len()
        } else {
            entries.len() + 1
        },
{
    let p = next_where(entries, not_before(key), 0);
    let out = put(entries, key, value);
    lemma_next_where(entries, not_before(key), 0);
    assert forall|i: int| 0 <= i < p implies precedes((#[trigger] entries[i]).0, key) by {
        assert(!not_before::<V>(key)(entries[i]));
    }
    assert forall|i: int| p <= i < entries.len() implies entries[p].0 == key && i == p || precedes(
        key,
        (#[trigger] entries[i]).0,
    ) by {
        assert(not_before::<V>(key)(entries[p]));
        lemma_precedes_total(entries[p].0, key);
        if i > p {
            if entries[p].0 != key {
                lemma_precedes_transitive(key, entries[p].0, entries[i].0);
            }
        }
    }
    lemma_precedes_irreflexive(key);
    if p < entries.len() && entries[p].0 == key {
        assert(out[p] == (key, value));
        assert forall|k: Seq<char>, v: V| k != key implies (#[trigger] holds(out, k, v) <==> holds(
            entries,
            k,
            v,
        )) by {
            if holds(out, k, v) {
                let i = choose|i: int| 0 <= i < out.len() && out[i] == (k, v);
                assert(entries[i] == (k, v));
            }
            if holds(entries, k, v) {
                let i = choose|i: int| 0 <= i < entries.len() && entries[i] == (k, v);
                assert(out[i] == (k, v));
            }
        }
    } else {
        assert(out[p] == (key, value));
        assert forall|k: Seq<char>, v: V| k != key implies (#[trigger] holds(out, k, v) <==> holds(
            entries,
            k,
            v,
        )) by {
            if holds(out, k, v) {
                let i = choose|i: int| 0 <= i < out.len() && out[i] == (k, v);
                let i0 = if i < p {
                    i
                } else {
                    i - 1
                };
                assert(entries[i0] == (k, v));
            }
            if holds(entries, k, v) {
                let i = choose|i: int| 0 <= i < entries.len() && entries[i] == (k, v);
                let i0 = if i < p {
                    i
                } else {
                    i + 1
                };
                assert(out[i0] == (k, v));
            }
        }
        assert(!has_key(entries, key)) by {
            if has_key(entries, key) {
                let i = choose|i: int| 0 <= i < entries.len() && (#[trigger] entries[i]).0 == key;
                assert(precedes(key, key));
            }
        }
    }
    assert forall|i: int, j: int| 0 <= i < j < out.len() implies precedes(
        (#[trigger] out[i]).0,
        (#[trigger] out[j]).0,
    ) by {
        if !(p < entries.len() && entries[p].0 == key) {
            let i0 = if i < p {
                i
            } else {
                i - 1
            };
            let j0 = if j < p {
                j
            } else {
                j - 1
            };
            if i != p {
                assert(out[i] == entries[i0]);
            }
            if j != p {
                assert(out[j] == entries[j0]);
            }
        }
    }
    assert forall|v: V| #[trigger] holds(out, key, v) implies v == value by {
        let i = choose|i: int| 0 <= i < out.len() && out[i] == (key, v);
        if i < p {
            assert(precedes(out[i].0, out[p].0));
        } else if i > p {
            assert(precedes(out[p].0, out[i].0));
        }
    }
}

/// Puts `value` under `key`.
pub fn put_entry<V: DeepView>(entries: &mut Vec<(String, V)>, key: String, value: V)
    ensures
        final(entries).deep_view() == put(old(entries).deep_view(), key@, value.deep_view()),
{
    let ghost start = entries.deep_view();
    let mut p: usize = 0;
    while p < entries.len() && text_precedes(entries[p].0.as_str(), key.as_str())
        invariant
            p <= entries@.len(),
            entries.deep_view() == start,
            forall|j: int| 0 <= j < p ==> !not_before::<V::V>(key@)(#[trigger] start[j]),
        decreases entries@.len() - p,
    {
        assert(start[p as int].0 == entries@[p as int].0@);
        p += 1;
    }
    proof {
        if p < entries@.len() {
            assert(start[p as int].0 == entries@[p as int].0@);
        }
        lemma_next_where_is(start, not_before(key@), 0, p as int);
    }
    if p < entries.len() && same(entries[p].0.as_str(), key.as_str()) {
        entries[p] = (key, value);
        assert(entries.deep_view() =~= start.update(p as int, (key@, value.deep_view())));
    } else {
        entries.insert(p, (key, value));
        assert(entries.deep_view() =~= start.insert(p as int, (key@, value.deep_view())));
    }
}

/// Texts come in the order of the first characters in which they differ; a text comes before those
/// that it is the beginning of.
pub proof fn law_texts_come_by_their_first_difference(
    start: Seq<char>,
    a: char,
    b: char,
    left: Seq<char>,
    right: Seq<char>,
)
    ensures
        a < b ==> precedes(start + seq![a] + left, start + seq![b] + right),
        b <= a && a != b ==> !precedes(start + seq![a] + left, start + seq![b] + right),
        precedes(start, start + seq![b] + right),
        !precedes(start + seq![b] + right, start),
        !precedes(start, start),
    decreases start.len(),
{
    let one = start + seq![a] + left;
    let other = start + seq![b] + right;
    if start.len() > 0 {
        let rest = start.drop_first();
        law_texts_come_by_their_first_difference(rest, a, b, left, right);
        assert(one.drop_first() =~= rest + seq![a] + left);
        assert(other.drop_first() =~= rest + seq![b] + right);
        assert(one[0] == start[0] && other[0] == start[0]);
    } else {
        assert(one[0] == a);
        assert(other[0] == b);
    }
}

/// Filtering for less after filtering for more is filtering for less.
pub proof fn lemma_filter_within<A>(s: Seq<A>, wide: spec_fn(A) -> bool, narrow: spec_fn(A) -> bool)
    requires
        forall|x: A| #[trigger] narrow(x) ==> wide(x),
    ensures
        s.filter(wide).filter(narrow) == s.filter(narrow),
    decreases s.len(),
{
    if s.len() > 0 {
        let rest = s.drop_last();
        let x = s.last();
        lemma_filter_within(rest, wide, narrow);
        assert(rest.push(x) =~= s);
        rest.lemma_filter_push(x, wide);
        rest.lemma_filter_push(x, narrow);
        rest.filter(wide).lemma_filter_push(x, narrow);
    } else {
        reveal(Seq::filter);
    }
}

} // verus!
