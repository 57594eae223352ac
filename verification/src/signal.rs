use vstd::prelude::*;
use crate::types::{Candle, Direction};

verus! {

/// Lower end of the candle's body.
pub open spec fn body_low(c: Candle) -> i64 {
    if c.close < c.open { c.close } else { c.open }
}

/// Upper end of the candle's body.
pub open spec fn body_high(c: Candle) -> i64 {
    if c.close > c.open { c.close } else { c.open }
}

/// The body of `cur` reaches beyond the body of `prev` on both sides.
pub open spec fn engulfs(prev: Candle, cur: Candle) -> bool {
    body_low(cur) < body_low(prev) && body_high(cur) > body_high(prev)
}

/// The signal at index `i`: present where the candle's body engulfs the body
/// of the candle before it, long for a rising candle and short for a falling
/// one. Index 0 has no candle before it and never holds a signal.
pub open spec fn signal_at(candles: Seq<Candle>, i: int) -> Option<Direction> {
    if 1 <= i < candles.len() && engulfs(candles[i - 1], candles[i]) {
        if candles[i].close > candles[i].open {
            Some(Direction::Long)
        } else if candles[i].close < candles[i].open {
            Some(Direction::Short)
        } else {
            None
        }
    } else {
        None
    }
}

/// The signals of a candle sequence, index by index.
pub open spec fn signals_of(candles: Seq<Candle>) -> Seq<Option<Direction>> {
    Seq::new(candles.len(), |i: int| signal_at(candles, i))
}

fn low_of_body(c: &Candle) -> (r: i64)
    ensures
        r == body_low(*c),
{
    if c.close < c.open { c.close } else { c.open }
}

fn high_of_body(c: &Candle) -> (r: i64)
    ensures
        r == body_high(*c),
{
    if c.close > c.open { c.close } else { c.open }
}

/// Scans every pair of neighbouring candles for the reversal pattern.
pub fn compute_x_dirs(candles: &[Candle]) -> (r: Vec<Option<Direction>>)
    ensures
        r@ == signals_of(candles@),
        r@.len() == candles@.len(),
        forall|i: int| 0 <= i < r@.len() ==> r@[i] == signal_at(candles@, i),
{
    let n: usize = candles.len();
    let mut x_dirs: Vec<Option<Direction>> = Vec::new();
    let mut i: usize = 0;
    while i < n
        invariant
            i <= n,
            n == candles@.len(),
            x_dirs@.len() == i,
            forall|k: int| 0 <= k < i ==> x_dirs@[k] == signal_at(candles@, k),
        decreases n - i,
    {
        let mut found: Option<Direction> = None;
        if i >= 1 {
            let prev: &Candle = &candles[i - 1];
            let cur: &Candle = &candles[i];
            if low_of_body(cur) < low_of_body(prev) && high_of_body(cur) > high_of_body(prev) {
                if cur.close > cur.open {
                    found = Some(Direction::Long);
                } else if cur.close < cur.open {
                    found = Some(Direction::Short);
                }
            }
        }
        x_dirs.push(found);
        i = i + 1;
    }
    assert(x_dirs@ =~= signals_of(candles@));
    x_dirs
}

} // verus!
