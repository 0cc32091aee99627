//! Faults in the order in which they are looked for: the first one decides.

use vstd::prelude::*;

verus! {

/// The first of two faults: what comes later is not looked at once a fault is found.
pub open spec fn or_fault<F>(first: Option<F>, second: Option<F>) -> Option<F> {
    if first is Some {
        first
    } else {
        second
    }
}

/// The first fault of a list.
pub open spec fn first_fault<F>(faults: Seq<Option<F>>) -> Option<F>
    decreases faults.len(),
{
    if faults.len() == 0 {
        None
    } else {
        or_fault(first_fault(faults.drop_last()), faults.last())
    }
}

/// A fault that only faultless entries come before is the first one.
pub proof fn lemma_first_fault<F>(faults: Seq<Option<F>>, k: int)
    requires
        0 <= k < faults.len(),
        faults[k] is Some,
        forall|i: int| 0 <= i < k ==> #[trigger] faults[i] is None,
    ensures
        first_fault(faults) == faults[k],
    decreases faults.len(),
{
    let start = faults.drop_last();
    if k == start.len() {
        lemma_no_fault(start);
    } else {
        lemma_first_fault(start, k);
    }
}

/// A list has no first fault exactly if it has no fault.
pub proof fn lemma_no_fault<F>(faults: Seq<Option<F>>)
    ensures
        first_fault(faults) is None <==> forall|i: int|
            0 <= i < faults.len() ==> #[trigger] faults[i] is None,
    decreases faults.len(),
{
    if faults.len() > 0 {
        let start = faults.drop_last();
        lemma_no_fault(start);
        if first_fault(faults) is None {
            assert forall|i: int| 0 <= i < faults.len() implies #[trigger] faults[i] is None by {
                if i < start.len() {
                    assert(start[i] is None);
                }
            }
        } else if forall|i: int| 0 <= i < faults.len() ==> #[trigger] faults[i] is None {
            assert forall|i: int| 0 <= i < start.len() implies #[trigger] start[i] is None by {
                assert(faults[i] is None);
            }
            assert(faults[faults.len() - 1] is None);
        }
    }
}

} // verus!
