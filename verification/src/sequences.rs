//! Facts about the part of a sequence that a condition keeps.

use vstd::prelude::*;

verus! {

/// What the kept part holds meets the condition and comes from the sequence.
pub proof fn lemma_filter_members<A>(items: Seq<A>, keep: spec_fn(A) -> bool, i: int)
    requires
        0 <= i < items.filter(keep).len(),
    ensures
        keep(items.filter(keep)[i]),
        items.contains(items.filter(keep)[i]),
    decreases items.len(),
{
    reveal(Seq::filter);
    if items.len() > 0 {
        let front = items.drop_last();
        if i < front.filter(keep).len() {
            lemma_filter_members(front, keep, i);
            let k = choose|k: int| 0 <= k < front.len() && front[k] == front.filter(keep)[i];
            assert(items[k] == front[k]);
        } else {
            assert(items.filter(keep)[i] == items.last());
            assert(items[items.len() - 1] == items.last());
        }
    }
}

/// The kept part of a sequence that holds nothing twice holds nothing twice.
pub proof fn lemma_filter_no_duplicates<A>(items: Seq<A>, keep: spec_fn(A) -> bool)
    requires
        items.no_duplicates(),
    ensures
        items.filter(keep).no_duplicates(),
    decreases items.len(),
{
    reveal(Seq::filter);
    if items.len() > 0 {
        let front = items.drop_last();
        let kept = front.filter(keep);
        assert forall|i: int, j: int| 0 <= i < front.len() && 0 <= j < front.len() && i
            != j implies front[i] != front[j] by {
            assert(front[i] == items[i] && front[j] == items[j]);
        }
        lemma_filter_no_duplicates(front, keep);
        if keep(items.last()) {
            assert forall|i: int| 0 <= i < kept.len() implies kept[i] != items.last() by {
                lemma_filter_members(front, keep, i);
                let k = choose|k: int| 0 <= k < front.len() && front[k] == kept[i];
                assert(items[k] == front[k]);
                assert(items[items.len() - 1] == items.last());
            }
        }
    }
}

} // verus!
