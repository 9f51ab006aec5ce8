//! The threshold scan: the time of the first sample, from either end, that is
//! louder than a threshold.

use vstd::prelude::*;
use crate::profile::LoudnessSample;

verus! {

/// Time of the earliest sample in sequence order that is strictly louder than
/// `threshold`, or 0 if there is none.
pub open spec fn forward_time(samples: Seq<LoudnessSample>, threshold: int) -> u64
    decreases samples.len(),
{
    if samples.len() == 0 {
        0
    } else if samples.first().loudness > threshold {
        samples.first().time
    } else {
        forward_time(samples.drop_first(), threshold)
    }
}

/// Time of the latest sample in sequence order that is strictly louder than
/// `threshold`, or 0 if there is none.
pub open spec fn backward_time(samples: Seq<LoudnessSample>, threshold: int) -> u64
    decreases samples.len(),
{
    if samples.len() == 0 {
        0
    } else if samples.last().loudness > threshold {
        samples.last().time
    } else {
        backward_time(samples.drop_last(), threshold)
    }
}

/// What a scan returns: [`backward_time`] when `rev` is set, [`forward_time`]
/// otherwise.
pub open spec fn threshold_time(samples: Seq<LoudnessSample>, threshold: int, rev: bool) -> u64 {
    if rev {
        backward_time(samples, threshold)
    } else {
        forward_time(samples, threshold)
    }
}

/// No sample is strictly louder than `threshold`.
pub open spec fn none_exceeds(samples: Seq<LoudnessSample>, threshold: int) -> bool {
    forall|j: int| 0 <= j < samples.len() ==> (#[trigger] samples[j]).loudness <= threshold
}

/// The sample at `i` is strictly louder than `threshold` and no sample before
/// it is.
pub open spec fn is_first_crossing(samples: Seq<LoudnessSample>, threshold: int, i: int) -> bool {
    &&& 0 <= i < samples.len()
    &&& samples[i].loudness > threshold
    &&& forall|j: int| 0 <= j < i ==> (#[trigger] samples[j]).loudness <= threshold
}

/// The sample at `i` is strictly louder than `threshold` and no sample after
/// it is.
pub open spec fn is_last_crossing(samples: Seq<LoudnessSample>, threshold: int, i: int) -> bool {
    &&& 0 <= i < samples.len()
    &&& samples[i].loudness > threshold
    &&& forall|j: int| i < j < samples.len() ==> (#[trigger] samples[j]).loudness <= threshold
}

/// The samples are in time order: no sample is earlier than one before it.
pub open spec fn time_ordered(samples: Seq<LoudnessSample>) -> bool {
    forall|i: int, j: int|
        0 <= i <= j < samples.len() ==> (#[trigger] samples[i]).time <= (#[trigger] samples[j]).time
}

/// A forward scan returns the time of the first crossing.
pub proof fn lemma_forward_time_at_first_crossing(
    samples: Seq<LoudnessSample>,
    threshold: int,
    i: int,
)
    requires
        is_first_crossing(samples, threshold, i),
    ensures
        forward_time(samples, threshold) == samples[i].time,
    decreases samples.len(),
{
    if i > 0 {
        let rest = samples.drop_first();
        assert(samples[0].loudness <= threshold);
        assert forall|j: int| 0 <= j < i - 1 implies (#[trigger] rest[j]).loudness <= threshold by {
            assert(rest[j] == samples[j + 1]);
        }
        assert(rest[i - 1] == samples[i]);
        lemma_forward_time_at_first_crossing(rest, threshold, i - 1);
    }
}

/// A backward scan returns the time of the last crossing.
pub proof fn lemma_backward_time_at_last_crossing(
    samples: Seq<LoudnessSample>,
    threshold: int,
    i: int,
)
    requires
        is_last_crossing(samples, threshold, i),
    ensures
        backward_time(samples, threshold) == samples[i].time,
    decreases samples.len(),
{
    if i < samples.len() - 1 {
        let rest = samples.drop_last();
        assert(samples[samples.len() - 1].loudness <= threshold);
        assert forall|j: int| i < j < rest.len() implies (#[trigger] rest[j]).loudness <= threshold by {
            assert(rest[j] == samples[j]);
        }
        assert(rest[i] == samples[i]);
        lemma_backward_time_at_last_crossing(rest, threshold, i);
    }
}

/// Where no sample is louder than the threshold, both scans return 0.
pub proof fn lemma_threshold_time_without_crossing(
    samples: Seq<LoudnessSample>,
    threshold: int,
    rev: bool,
)
    requires
        none_exceeds(samples, threshold),
    ensures
        threshold_time(samples, threshold, rev) == 0,
    decreases samples.len(),
{
    if samples.len() > 0 {
        assert(samples[0].loudness <= threshold);
        assert(samples[samples.len() - 1].loudness <= threshold);
        let rest = if rev { samples.drop_last() } else { samples.drop_first() };
        assert forall|j: int| 0 <= j < rest.len() implies (#[trigger] rest[j]).loudness <= threshold by {
            if rev {
                assert(rest[j] == samples[j]);
            } else {
                assert(rest[j] == samples[j + 1]);
            }
        }
        lemma_threshold_time_without_crossing(rest, threshold, rev);
    }
}

/// Either some sample is the first crossing, or no sample exceeds the
/// threshold; likewise for the last crossing.
pub proof fn lemma_crossing_exists_or_none(samples: Seq<LoudnessSample>, threshold: int)
    ensures
        none_exceeds(samples, threshold) || (exists|i: int|
            is_first_crossing(samples, threshold, i)),
        none_exceeds(samples, threshold) || (exists|i: int|
            is_last_crossing(samples, threshold, i)),
    decreases samples.len(),
{
    if samples.len() > 0 {
        let n = samples.len() - 1;
        let front = samples.drop_last();
        let back = samples.drop_first();
        lemma_crossing_exists_or_none(front, threshold);
        lemma_crossing_exists_or_none(back, threshold);
        // First crossing: look in all but the last sample, then at the last.
        if none_exceeds(front, threshold) {
            assert forall|j: int| 0 <= j < n implies (#[trigger] samples[j]).loudness
                <= threshold by {
                assert(front[j] == samples[j]);
            }
            if samples[n].loudness > threshold {
                assert(is_first_crossing(samples, threshold, n));
            }
        } else {
            let i = choose|i: int| is_first_crossing(front, threshold, i);
            assert forall|j: int| 0 <= j < i implies (#[trigger] samples[j]).loudness
                <= threshold by {
                assert(front[j] == samples[j]);
            }
            assert(front[i] == samples[i]);
            assert(is_first_crossing(samples, threshold, i));
        }
        // Last crossing: look in all but the first sample, then at the first.
        if none_exceeds(back, threshold) {
            assert forall|j: int| 0 < j <= n implies (#[trigger] samples[j]).loudness
                <= threshold by {
                assert(back[j - 1] == samples[j]);
            }
            if samples[0].loudness > threshold {
                assert(is_last_crossing(samples, threshold, 0));
            }
        } else {
            let i = choose|i: int| is_last_crossing(back, threshold, i);
            assert forall|j: int| i + 1 < j <= n implies (#[trigger] samples[j]).loudness
                <= threshold by {
                assert(back[j - 1] == samples[j]);
            }
            assert(back[i] == samples[i + 1]);
            assert(is_last_crossing(samples, threshold, i + 1));
        }
    }
}

/// In a time-ordered sequence the forward scan finds the earliest time at
/// which the loudness exceeds the threshold, and the backward scan the latest.
pub proof fn lemma_ordered_scan_bounds(samples: Seq<LoudnessSample>, threshold: int, k: int)
    requires
        time_ordered(samples),
        0 <= k < samples.len(),
        samples[k].loudness > threshold,
    ensures
        forward_time(samples, threshold) <= samples[k].time,
        samples[k].time <= backward_time(samples, threshold),
{
    lemma_crossing_exists_or_none(samples, threshold);
    assert(!none_exceeds(samples, threshold));
    let first = choose|i: int| is_first_crossing(samples, threshold, i);
    let last = choose|i: int| is_last_crossing(samples, threshold, i);
    lemma_forward_time_at_first_crossing(samples, threshold, first);
    lemma_backward_time_at_last_crossing(samples, threshold, last);
    assert(first <= k);
    assert(k <= last);
}

/// What the scan's result is in terms of positions: the time of the first
/// crossing met in scan direction, and 0 where there is no crossing.
pub proof fn lemma_threshold_time_by_position(
    samples: Seq<LoudnessSample>,
    threshold: int,
    rev: bool,
)
    ensures
        none_exceeds(samples, threshold) ==> threshold_time(samples, threshold, rev) == 0,
        !rev ==> forall|i: int|
            is_first_crossing(samples, threshold, i) ==> threshold_time(samples, threshold, rev)
                == samples[i].time,
        rev ==> forall|i: int|
            is_last_crossing(samples, threshold, i) ==> threshold_time(samples, threshold, rev)
                == samples[i].time,
{
    if none_exceeds(samples, threshold) {
        lemma_threshold_time_without_crossing(samples, threshold, rev);
    }
    assert forall|i: int| is_first_crossing(samples, threshold, i) implies forward_time(
        samples,
        threshold,
    ) == samples[i].time by {
        lemma_forward_time_at_first_crossing(samples, threshold, i);
    }
    assert forall|i: int| is_last_crossing(samples, threshold, i) implies backward_time(
        samples,
        threshold,
    ) == samples[i].time by {
        lemma_backward_time_at_last_crossing(samples, threshold, i);
    }
}

fn scan_forward(measure: &Vec<LoudnessSample>, threshold: i128) -> (time: u64)
    ensures
        time == forward_time(measure@, threshold as int),
{
    let n: usize = measure.len();
    let mut i: usize = 0;
    while i < n
        invariant
            i <= n,
            n == measure@.len(),
            forall|j: int| 0 <= j < i ==> (#[trigger] measure@[j]).loudness <= threshold,
        decreases n - i,
    {
        if measure[i].loudness as i128 > threshold {
            proof {
                lemma_forward_time_at_first_crossing(measure@, threshold as int, i as int);
            }
            return measure[i].time;
        }
        i += 1;
    }
    proof {
        lemma_threshold_time_without_crossing(measure@, threshold as int, false);
    }
    0
}

fn scan_backward(measure: &Vec<LoudnessSample>, threshold: i128) -> (time: u64)
    ensures
        time == backward_time(measure@, threshold as int),
{
    let n: usize = measure.len();
    let mut i: usize = n;
    while i > 0
        invariant
            i <= n,
            n == measure@.len(),
            forall|j: int| i <= j < n ==> (#[trigger] measure@[j]).loudness <= threshold,
        decreases i,
    {
        i -= 1;
        if measure[i].loudness as i128 > threshold {
            proof {
                lemma_backward_time_at_last_crossing(measure@, threshold as int, i as int);
            }
            return measure[i].time;
        }
    }
    proof {
        lemma_threshold_time_without_crossing(measure@, threshold as int, true);
    }
    0
}

/// Scans `measure` from the front, or from the back when `rev` is set, and
/// returns the time of the first sample met whose loudness is strictly above
/// `threshold`; 0 if no sample is.
pub fn first_time_threshold(measure: &Vec<LoudnessSample>, threshold: i128, rev: bool) -> (time:
    u64)
    ensures
        time == threshold_time(measure@, threshold as int, rev),
        none_exceeds(measure@, threshold as int) ==> time == 0,
        !rev ==> forall|i: int|
            is_first_crossing(measure@, threshold as int, i) ==> time == measure@[i].time,
        rev ==> forall|i: int|
            is_last_crossing(measure@, threshold as int, i) ==> time == measure@[i].time,
{
    proof {
        lemma_threshold_time_by_position(measure@, threshold as int, rev);
    }
    if rev {
        scan_backward(measure, threshold)
    } else {
        scan_forward(measure, threshold)
    }
}

} // verus!
