//! Positions in sequences, and changing the item at a position.
use vstd::prelude::*;

verus! {

/// The first position at or after `i` whose item satisfies `p`; the length of `s` if there is
/// none.
pub open spec fn next_where<T>(s: Seq<T>, p: spec_fn(T) -> bool, i: int) -> int
    decreases s.len() - i,
{
    if i >= s.len() {
        s.len() as int
    } else if p(s[i]) {
        i
    } else {
        next_where(s, p, i + 1)
    }
}

/// `next_where` is the least position that satisfies `p`.
pub proof fn lemma_next_where<T>(s: Seq<T>, p: spec_fn(T) -> bool, i: int)
    requires
        0 <= i <= s.len(),
    ensures
        i <= next_where(s, p, i) <= s.len(),
        next_where(s, p, i) < s.len() ==> p(s[next_where(s, p, i)]),
        forall|j: int| i <= j < next_where(s, p, i) ==> !p(#[trigger] s[j]),
    decreases s.len() - i,
{
    if i < s.len() && !p(s[i]) {
        lemma_next_where(s, p, i + 1);
    }
}

/// A position that satisfies `p` and has none such before it is `next_where`.
pub proof fn lemma_next_where_is<T>(s: Seq<T>, p: spec_fn(T) -> bool, i: int, k: int)
    requires
        0 <= i <= k <= s.len(),
        k < s.len() ==> p(s[k]),
        forall|j: int| i <= j < k ==> !p(#[trigger] s[j]),
    ensures
        next_where(s, p, i) == k,
    decreases k - i,
{
    if i < k {
        assert(!p(s[i]));
        lemma_next_where_is(s, p, i + 1, k);
    }
}

/// Takes the item at position `k` out of `items`.
pub fn take_item<T: DeepView>(items: &mut Vec<T>, k: usize) -> (item: T)
    requires
        k < old(items)@.len(),
    ensures
        item.deep_view() == old(items).deep_view()[k as int],
        final(items)@.len() + 1 == old(items)@.len(),
        final(items).deep_view() == old(items).deep_view().remove(k as int),
{
    let ghost start = items.deep_view();
    let ghost held = items@;
    let item = items.remove(k);
    assert forall|i: int| 0 <= i < items@.len() implies (#[trigger] items@[i]).deep_view()
        == start.remove(k as int)[i] by {
        if i < k {
            assert(items@[i] == held[i] && held[i].deep_view() == start[i]);
        } else {
            assert(items@[i] == held[i + 1] && held[i + 1].deep_view() == start[i + 1]);
        }
    }
    assert(items.deep_view() =~= start.remove(k as int));
    item
}

/// Puts an item that was taken out of position `k`, and changed, back in its place.
pub fn put_item<T: DeepView>(items: &mut Vec<T>, k: usize, item: T)
    requires
        k <= old(items)@.len(),
    ensures
        final(items)@.len() == old(items)@.len() + 1,
        final(items).deep_view() == old(items).deep_view().insert(k as int, item.deep_view()),
{
    let ghost start = items.deep_view();
    let ghost held = items@;
    items.insert(k, item);
    assert forall|i: int| 0 <= i < items@.len() implies (#[trigger] items@[i]).deep_view()
        == start.insert(k as int, item.deep_view())[i] by {
        if i < k {
            assert(items@[i] == held[i] && held[i].deep_view() == start[i]);
        } else if i > k {
            assert(items@[i] == held[i - 1] && held[i - 1].deep_view() == start[i - 1]);
        }
    }
    assert(items.deep_view() =~= start.insert(k as int, item.deep_view()));
}

} // verus!
