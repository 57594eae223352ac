use vstd::prelude::*;
use vstd::relations::{sorted_by, total_ordering};
use vstd::seq_lib::lemma_sorted_unique;
use crate::clock::{minutes_between, whole_minutes};
use crate::types::{all_wf, Candle};

verus! {

/// The order of the integers, as a relation.
pub open spec fn at_most() -> spec_fn(i64, i64) -> bool {
    |a: i64, b: i64| a <= b
}

/// The gaps in whole minutes between neighbouring candles among the first
/// `upto`, in order, without those that are zero or negative.
pub open spec fn positive_gaps(candles: Seq<Candle>, upto: int) -> Seq<i64>
    decreases upto,
{
    if upto <= 1 {
        Seq::empty()
    } else {
        let before = positive_gaps(candles, upto - 1);
        let gap = minutes_between(
            candles[upto - 2].time,
            candles[upto - 2].nanos,
            candles[upto - 1].time,
            candles[upto - 1].nanos,
        );
        if gap > 0 {
            before.push(gap as i64)
        } else {
            before
        }
    }
}

/// The median of the gaps, the lower of the two middle ones where their
/// number is even; none where there is no gap.
pub open spec fn median_of(gaps: Seq<i64>) -> Option<i64> {
    if gaps.len() == 0 {
        None
    } else {
        Some(gaps.sort_by(at_most())[(gaps.len() - 1) / 2])
    }
}

/// The sampling interval that the candles suggest.
pub open spec fn median_gap(candles: Seq<Candle>) -> Option<i64> {
    median_of(positive_gaps(candles, candles.len() as int))
}

/// Sorts with std's `sort_unstable`, which leaves the same values in
/// ascending order.
#[verifier::external_body]
fn sort_ascending(v: &mut Vec<i64>)
    ensures
        final(v)@.to_multiset() == old(v)@.to_multiset(),
        forall|i: int, j: int| 0 <= i <= j < final(v)@.len() ==> final(v)@[i] <= final(v)@[j],
{
    v.sort_unstable();
}

/// A median of the positive gaps between neighbouring candles, in minutes.
pub fn infer_timeframe_minutes(candles: &[Candle]) -> (r: Option<i64>)
    requires
        all_wf(candles@),
    ensures
        r == median_gap(candles@),
        candles@.len() < 2 ==> r is None,
        r matches Some(m) ==> m > 0,
{
    let n: usize = candles.len();
    let mut deltas: Vec<i64> = Vec::new();
    let mut i: usize = 1;
    while i < n
        invariant
            1 <= i,
            i <= n || i == 1,
            n == candles@.len(),
            all_wf(candles@),
            deltas@ == positive_gaps(candles@, i as int),
            forall|k: int| 0 <= k < deltas@.len() ==> deltas@[k] > 0,
        decreases n - i,
    {
        assert(candles@[i - 1].wf() && candles@[i as int].wf());
        let minutes: i64 = whole_minutes(
            candles[i - 1].time,
            candles[i - 1].nanos,
            candles[i].time,
            candles[i].nanos,
        );
        if minutes > 0 {
            deltas.push(minutes);
        }
        i = i + 1;
    }
    proof {
        if n == 0 {
            assert(positive_gaps(candles@, 0) == positive_gaps(candles@, 1));
        }
    }
    if deltas.len() == 0 {
        return None;
    }
    let ghost gaps = deltas@;
    sort_ascending(&mut deltas);
    proof {
        assert(total_ordering(at_most()));
        gaps.lemma_sort_by_ensures(at_most());
        assert(sorted_by(deltas@, at_most()));
        lemma_sorted_unique(deltas@, gaps.sort_by(at_most()), at_most());
        gaps.to_multiset_ensures();
        deltas@.to_multiset_ensures();
        assert(deltas@.len() == gaps.len());
    }
    let mid: usize = (deltas.len() - 1) / 2;
    let m: i64 = deltas[mid];
    proof {
        assert(deltas@.to_multiset().contains(m));
        assert(gaps.contains(m));
    }
    Some(m)
}

} // verus!
