//! One slot for the result of each playlist entry.
//!
//! The tracks of a playlist may be analyzed in any order and at the same
//! time. Each result is placed in the slot of its entry, so the results come
//! out in the order of the playlist whatever the order in which the analyses
//! ended.

use vstd::prelude::*;
use crate::analyzer::AnalyzeResult;

verus! {

/// `slots` after `result` has been placed at `index`; unchanged where there
/// is no such slot.
pub open spec fn placed(slots: Seq<Option<AnalyzeResult>>, index: int, result: AnalyzeResult) -> Seq<
    Option<AnalyzeResult>,
> {
    if 0 <= index < slots.len() {
        slots.update(index, Some(result))
    } else {
        slots
    }
}

/// `count` empty slots.
pub open spec fn empty_slots(count: nat) -> Seq<Option<AnalyzeResult>> {
    Seq::new(count, |i: int| None::<AnalyzeResult>)
}

/// Whether every slot holds a result.
pub open spec fn all_filled(slots: Seq<Option<AnalyzeResult>>) -> bool {
    forall|i: int| 0 <= i < slots.len() ==> (#[trigger] slots[i]) is Some
}

/// The results that the slots hold, in the order of the slots.
pub open spec fn contents_of(slots: Seq<Option<AnalyzeResult>>) -> Seq<AnalyzeResult> {
    Seq::new(slots.len(), |i: int| slots[i]->Some_0)
}

/// The slots after the analyses of the entries `completion` have ended in
/// that order, where `results[i]` is the result for entry `i`: each places
/// its result in the slot of its entry.
pub open spec fn slots_after(results: Seq<AnalyzeResult>, completion: Seq<int>) -> Seq<
    Option<AnalyzeResult>,
>
    decreases completion.len(),
{
    if completion.len() == 0 {
        empty_slots(results.len())
    } else {
        placed(
            slots_after(results, completion.drop_last()),
            completion.last(),
            results[completion.last()],
        )
    }
}

/// After any run of completions there is one slot for each entry, and the
/// slot of an entry holds the result of that entry if its analysis has
/// ended, and nothing otherwise.
pub proof fn lemma_slots_after(results: Seq<AnalyzeResult>, completion: Seq<int>)
    ensures
        slots_after(results, completion).len() == results.len(),
        forall|i: int|
            0 <= i < results.len() ==> #[trigger] slots_after(results, completion)[i] == (
            if completion.contains(i) {
                Some(results[i])
            } else {
                None
            }),
    decreases completion.len(),
{
    if completion.len() > 0 {
        let earlier = completion.drop_last();
        let last = completion.last();
        lemma_slots_after(results, earlier);
        assert forall|i: int| 0 <= i < results.len() implies #[trigger] slots_after(
            results,
            completion,
        )[i] == (if completion.contains(i) {
            Some(results[i])
        } else {
            None
        }) by {
            if i == last {
                assert(completion[completion.len() - 1] == i);
            } else if earlier.contains(i) {
                let k = choose|k: int| 0 <= k < earlier.len() && earlier[k] == i;
                assert(completion[k] == i);
            } else if completion.contains(i) {
                let k = choose|k: int| 0 <= k < completion.len() && completion[k] == i;
                assert(earlier[k] == i);
            }
        }
    } else {
        assert forall|i: int| 0 <= i < results.len() implies !completion.contains(i) by {}
    }
}

/// The order of the results is the order of the playlist, whatever the
/// order in which the analyses end: once the analysis of every entry has
/// ended, the slots hold exactly `results`, in that order.
pub proof fn lemma_order_preserved(results: Seq<AnalyzeResult>, completion: Seq<int>)
    requires
        forall|i: int| 0 <= i < results.len() ==> completion.contains(i),
    ensures
        all_filled(slots_after(results, completion)),
        contents_of(slots_after(results, completion)) == results,
{
    lemma_slots_after(results, completion);
    let slots = slots_after(results, completion);
    assert forall|i: int| 0 <= i < slots.len() implies (#[trigger] slots[i]) is Some by {
        assert(completion.contains(i));
    }
    assert(contents_of(slots) =~= results) by {
        assert forall|i: int| 0 <= i < results.len() implies contents_of(slots)[i]
            == results[i] by {
            assert(completion.contains(i));
            assert(slots[i] == Some(results[i]));
        }
    }
}

/// The slots for the results of a playlist, one for each entry.
pub struct ResultSlots {
    slots: Vec<Option<AnalyzeResult>>,
}

impl View for ResultSlots {
    type V = Seq<Option<AnalyzeResult>>;

    closed spec fn view(&self) -> Seq<Option<AnalyzeResult>> {
        self.slots@
    }
}

impl ResultSlots {
    /// `count` empty slots.
    pub fn new(count: usize) -> (slots: ResultSlots)
        ensures
            slots@ == empty_slots(count as nat),
    {
        let mut slots: Vec<Option<AnalyzeResult>> = Vec::new();
        let mut i: usize = 0;
        while i < count
            invariant
                i <= count,
                slots@.len() == i,
                forall|k: int| 0 <= k < i ==> (#[trigger] slots@[k]) is None,
            decreases count - i,
        {
            slots.push(None);
            i += 1;
        }
        assert(slots@ =~= empty_slots(count as nat));
        ResultSlots { slots }
    }

    /// The number of slots.
    pub fn len(&self) -> (count: usize)
        ensures
            count == self@.len(),
    {
        self.slots.len()
    }

    /// Places `result` in the slot of entry `index`, over what the slot
    /// held. Returns whether there is such a slot; where there is none,
    /// nothing changes.
    pub fn place(&mut self, index: usize, result: AnalyzeResult) -> (done: bool)
        ensures
            done == (index < old(self)@.len()),
            final(self)@ == placed(old(self)@, index as int, result),
    {
        if index < self.slots.len() {
            self.slots[index] = Some(result);
            true
        } else {
            false
        }
    }

    /// The results in the order of their slots, where every slot holds one.
    pub fn into_results(self) -> (results: Option<Vec<AnalyzeResult>>)
        ensures
            results.is_some() == all_filled(self@),
            results matches Some(list) ==> list@ == contents_of(self@),
    {
        let ghost held = self.slots@;
        let mut slots = self.slots;
        let mut backward: Vec<AnalyzeResult> = Vec::new();
        while slots.len() > 0
            invariant
                held == self@,
                slots@.len() + backward@.len() == held.len(),
                slots@ == held.take(slots@.len() as int),
                forall|k: int|
                    0 <= k < backward@.len() ==> held[held.len() - 1 - k] == Some(
                        #[trigger] backward@[k],
                    ),
            decreases slots@.len(),
        {
            let ghost at = slots@.len() - 1;
            match slots.pop() {
                Some(Some(result)) => {
                    backward.push(result);
                },
                _ => {
                    assert(held[at] is None);
                    return None;
                },
            }
            assert(slots@ =~= held.take(at));
        }
        let ghost turned = backward@;
        let mut results: Vec<AnalyzeResult> = Vec::new();
        while backward.len() > 0
            invariant
                turned.len() == held.len(),
                backward@.len() + results@.len() == turned.len(),
                backward@ == turned.take(backward@.len() as int),
                forall|k: int|
                    0 <= k < turned.len() ==> held[held.len() - 1 - k] == Some(
                        #[trigger] turned[k],
                    ),
                forall|k: int| 0 <= k < results@.len() ==> held[k] == Some(#[trigger] results@[k]),
            decreases backward@.len(),
        {
            let ghost at = backward@.len() - 1;
            match backward.pop() {
                Some(result) => {
                    assert(result == turned[at]);
                    results.push(result);
                },
                None => {},
            }
            assert(backward@ =~= turned.take(at));
        }
        assert forall|i: int| 0 <= i < held.len() implies (#[trigger] held[i]) is Some by {
            assert(held[i] == Some(results@[i]));
        }
        assert(results@ =~= contents_of(held));
        Some(results)
    }
}

} // verus!
