//! The runs of a pull request in their order.
use crate::models::{RunMetadata, RunMetadataModel};
use crate::order::{
    lemma_sorting_is_stable, lemma_sorting_keeps_members, lemma_sorting_keeps_values,
    lemma_sorting_orders, sort_stably, stably_sorted, tied, Ranked,
};
use vstd::prelude::*;

verus! {

/// A run, with its place in the list that it was found in.
pub struct RunEntry {
    pub slot: usize,
    pub metadata: RunMetadata,
}

/// The value of a [`RunEntry`].
#[verifier::ext_equal]
pub struct RunEntryModel {
    pub slot: usize,
    pub metadata: RunMetadataModel,
}

impl DeepView for RunEntry {
    type V = RunEntryModel;

    open spec fn deep_view(&self) -> RunEntryModel {
        RunEntryModel { slot: self.slot, metadata: self.metadata.deep_view() }
    }
}

impl Ranked for RunEntry {
    open spec fn le(a: RunEntryModel, b: RunEntryModel) -> bool {
        a.metadata.run_number <= b.metadata.run_number
    }

    proof fn le_total(a: RunEntryModel, b: RunEntryModel) {
    }

    proof fn le_transitive(a: RunEntryModel, b: RunEntryModel, c: RunEntryModel) {
    }

    fn ranks_le(&self, other: &Self) -> (yes: bool) {
        self.metadata.run_number <= other.metadata.run_number
    }
}

/// Sorts runs by their number; runs with the same number keep their order.
pub fn sort_runs(runs: &mut Vec<RunEntry>)
    ensures
        final(runs).deep_view() == stably_sorted::<RunEntry>(old(runs).deep_view()),
{
    sort_stably(runs);
}

/// Sorted runs are the same runs by number, and runs with the number of `run` stand in the order in
/// which they were found.
pub proof fn law_runs_are_in_order(runs: Seq<RunEntryModel>, run: RunEntryModel)
    ensures
        stably_sorted::<RunEntry>(runs).to_multiset() == runs.to_multiset(),
        forall|i: int, j: int|
            0 <= i < j < stably_sorted::<RunEntry>(runs).len() ==> (
            #[trigger] stably_sorted::<RunEntry>(runs)[i]).metadata.run_number <= (
            #[trigger] stably_sorted::<RunEntry>(runs)[j]).metadata.run_number,
        stably_sorted::<RunEntry>(runs).filter(tied::<RunEntry>(run)) == runs.filter(
            tied::<RunEntry>(run),
        ),
{
    lemma_sorting_keeps_values::<RunEntry>(runs);
    lemma_sorting_orders::<RunEntry>(runs);
    lemma_sorting_is_stable::<RunEntry>(runs, run);
    let sorted = stably_sorted::<RunEntry>(runs);
    assert forall|i: int, j: int| 0 <= i < j < sorted.len() implies (
    #[trigger] sorted[i]).metadata.run_number <= (#[trigger] sorted[j]).metadata.run_number by {
        assert(RunEntry::le(sorted[i], sorted[j]));
    }
}

/// Sorting keeps the runs with one number in the order in which they were found, whatever else is
/// known of them.
pub proof fn law_runs_with_one_number_keep_their_order(runs: Seq<RunEntryModel>, number: u64)
    ensures
        ({
            let numbered = |run: RunEntryModel| run.metadata.run_number == number;
            stably_sorted::<RunEntry>(runs).filter(numbered) == runs.filter(numbered)
        }),
{
    let numbered = |run: RunEntryModel| run.metadata.run_number == number;
    let sorted = stably_sorted::<RunEntry>(runs);
    if exists|i: int| 0 <= i < runs.len() && numbered(#[trigger] runs[i]) {
        let i = choose|i: int| 0 <= i < runs.len() && numbered(#[trigger] runs[i]);
        assert(tied::<RunEntry>(runs[i]) =~= numbered);
        lemma_sorting_is_stable::<RunEntry>(runs, runs[i]);
    } else {
        assert forall|i: int| 0 <= i < sorted.len() implies !numbered(#[trigger] sorted[i]) by {
            lemma_sorting_keeps_members::<RunEntry>(runs, sorted[i]);
            let j = choose|j: int| 0 <= j < runs.len() && runs[j] == sorted[i];
            assert(!numbered(runs[j]));
        }
        lemma_nothing_left(runs, numbered);
        lemma_nothing_left(sorted, numbered);
    }
}

proof fn lemma_nothing_left(runs: Seq<RunEntryModel>, wanted: spec_fn(RunEntryModel) -> bool)
    requires
        forall|i: int| 0 <= i < runs.len() ==> !wanted(#[trigger] runs[i]),
    ensures
        runs.filter(wanted) =~= Seq::<RunEntryModel>::empty(),
{
    let kept = runs.filter(wanted);
    if kept.len() > 0 {
        assert(kept.contains(kept[0]));
        runs.lemma_filter_contains_rev(wanted, kept[0]);
        runs.lemma_filter_pred(wanted, 0);
    }
}

} // verus!
