use vstd::prelude::*;
use crate::clock::{fmt_time, minute_text};
use crate::types::{all_wf, Candle, ExitReason, Ratio, Summary, TradeReport};

verus! {

pub open spec fn is_win(t: TradeReport) -> bool {
    t.r_multiple > 0
}

pub open spec fn is_loss(t: TradeReport) -> bool {
    t.r_multiple < 0
}

/// Number of trades with a positive R-multiple.
pub open spec fn win_count(s: Seq<TradeReport>) -> int
    decreases s.len(),
{
    if s.len() == 0 {
        0
    } else {
        win_count(s.drop_last()) + if is_win(s.last()) { 1int } else { 0int }
    }
}

/// Number of trades with a negative R-multiple.
pub open spec fn loss_count(s: Seq<TradeReport>) -> int
    decreases s.len(),
{
    if s.len() == 0 {
        0
    } else {
        loss_count(s.drop_last()) + if is_loss(s.last()) { 1int } else { 0int }
    }
}

/// Sum of the positive R-multiples.
pub open spec fn gross_win(s: Seq<TradeReport>) -> int
    decreases s.len(),
{
    if s.len() == 0 {
        0
    } else {
        gross_win(s.drop_last()) + if is_win(s.last()) { s.last().r_multiple as int } else { 0int }
    }
}

/// Sum of the negative R-multiples; never positive.
pub open spec fn gross_loss(s: Seq<TradeReport>) -> int
    decreases s.len(),
{
    if s.len() == 0 {
        0
    } else {
        gross_loss(s.drop_last()) + if is_loss(s.last()) { s.last().r_multiple as int } else { 0int }
    }
}

/// Sum of all R-multiples: the equity after the last trade.
pub open spec fn net_r(s: Seq<TradeReport>) -> int
    decreases s.len(),
{
    if s.len() == 0 {
        0
    } else {
        net_r(s.drop_last()) + s.last().r_multiple
    }
}

/// Number of trades closed for `reason`.
pub open spec fn exit_count(s: Seq<TradeReport>, reason: ExitReason) -> int
    decreases s.len(),
{
    if s.len() == 0 {
        0
    } else {
        exit_count(s.drop_last(), reason) + if s.last().exit_reason == reason { 1int } else { 0int }
    }
}

/// Sum of the hold times in minutes.
pub open spec fn hold_total(s: Seq<TradeReport>) -> int
    decreases s.len(),
{
    if s.len() == 0 {
        0
    } else {
        hold_total(s.drop_last()) + s.last().hold_minutes
    }
}

/// Length of the run of wins that ends with the last trade.
pub open spec fn win_run(s: Seq<TradeReport>) -> int
    decreases s.len(),
{
    if s.len() == 0 || !is_win(s.last()) {
        0
    } else {
        win_run(s.drop_last()) + 1
    }
}

/// Length of the run of losses that ends with the last trade.
pub open spec fn loss_run(s: Seq<TradeReport>) -> int
    decreases s.len(),
{
    if s.len() == 0 || !is_loss(s.last()) {
        0
    } else {
        loss_run(s.drop_last()) + 1
    }
}

/// Longest run of consecutive wins.
pub open spec fn longest_win_run(s: Seq<TradeReport>) -> int
    decreases s.len(),
{
    if s.len() == 0 {
        0
    } else {
        let before = longest_win_run(s.drop_last());
        if win_run(s) > before { win_run(s) } else { before }
    }
}

/// Longest run of consecutive losses.
pub open spec fn longest_loss_run(s: Seq<TradeReport>) -> int
    decreases s.len(),
{
    if s.len() == 0 {
        0
    } else {
        let before = longest_loss_run(s.drop_last());
        if loss_run(s) > before { loss_run(s) } else { before }
    }
}

/// Highest equity reached so far, the start at zero included.
pub open spec fn peak(s: Seq<TradeReport>) -> int
    decreases s.len(),
{
    if s.len() == 0 {
        0
    } else {
        let before = peak(s.drop_last());
        if net_r(s) > before { net_r(s) } else { before }
    }
}

/// Deepest fall of the equity below its running peak; zero or negative.
pub open spec fn max_drawdown(s: Seq<TradeReport>) -> int
    decreases s.len(),
{
    if s.len() == 0 {
        0
    } else {
        let before = max_drawdown(s.drop_last());
        let now = net_r(s) - peak(s);
        if now < before { now } else { before }
    }
}

/// The profit factor: gross win over the size of the gross loss, defined
/// where there is a loss.
pub open spec fn profit_factor_of(s: Seq<TradeReport>, pf: Option<Ratio>) -> bool {
    if gross_loss(s) == 0 {
        pf is None
    } else {
        pf matches Some(q) && q.num == gross_win(s) && q.den == -gross_loss(s)
    }
}

/// The figures of `r` are those of the trades `s` over the candles `candles`.
pub open spec fn summarizes(
    r: Summary,
    candles: Seq<Candle>,
    timeframe_minutes: Option<i64>,
    s: Seq<TradeReport>,
) -> bool {
    &&& r.candles == candles.len()
    &&& r.timeframe_minutes == timeframe_minutes
    &&& r.trades == s.len()
    &&& r.wins == win_count(s)
    &&& r.losses == loss_count(s)
    &&& r.breakeven == s.len() - win_count(s) - loss_count(s)
    &&& r.win_rate.is_quotient(win_count(s), s.len() as int)
    &&& r.total_r == net_r(s)
    &&& r.avg_r.is_quotient(net_r(s), s.len() as int)
    &&& r.avg_win_r.is_quotient(gross_win(s), win_count(s))
    &&& r.avg_loss_r.is_quotient(gross_loss(s), loss_count(s))
    &&& profit_factor_of(s, r.profit_factor)
    &&& r.max_drawdown_r == max_drawdown(s)
    &&& r.max_consecutive_wins == longest_win_run(s)
    &&& r.max_consecutive_losses == longest_loss_run(s)
    &&& r.tp_exits == exit_count(s, ExitReason::Tp)
    &&& r.sl_exits == exit_count(s, ExitReason::Sl)
    &&& r.time_exits == exit_count(s, ExitReason::Time)
    &&& r.avg_hold_minutes.is_quotient(hold_total(s), s.len() as int)
    &&& r.start_time@ == if candles.len() == 0 {
        Seq::<char>::empty()
    } else {
        minute_text(candles[0].time)
    }
    &&& r.end_time@ == if candles.len() == 0 {
        Seq::<char>::empty()
    } else {
        minute_text(candles[candles.len() - 1].time)
    }
}

/// Bounds that keep the running sums inside 128 bits, and the facts that tie
/// the counts together: wins and losses are no more than the trades, a
/// longest run is no longer than the count of its kind, and every trade has
/// one exit reason.
pub proof fn lemma_stats_bounds(s: Seq<TradeReport>)
    ensures
        0 <= win_count(s) <= s.len(),
        0 <= loss_count(s) <= s.len(),
        win_count(s) + loss_count(s) <= s.len(),
        0 <= gross_win(s) <= win_count(s) * 0x8000_0000_0000_0000,
        -loss_count(s) * 0x8000_0000_0000_0000 <= gross_loss(s) <= -loss_count(s),
        net_r(s) == gross_win(s) + gross_loss(s),
        -s.len() * 0x8000_0000_0000_0000 <= hold_total(s) <= s.len() * 0x8000_0000_0000_0000,
        0 <= win_run(s) <= s.len(),
        0 <= loss_run(s) <= s.len(),
        win_run(s) <= longest_win_run(s) <= win_count(s),
        loss_run(s) <= longest_loss_run(s) <= loss_count(s),
        0 <= peak(s),
        net_r(s) <= peak(s),
        peak(s) - net_r(s) <= s.len() * 0x8000_0000_0000_0000,
        -s.len() * 0x8000_0000_0000_0000 <= max_drawdown(s) <= 0,
        exit_count(s, ExitReason::Tp) + exit_count(s, ExitReason::Sl) + exit_count(
            s,
            ExitReason::Time,
        ) == s.len(),
        0 <= exit_count(s, ExitReason::Tp),
        0 <= exit_count(s, ExitReason::Sl),
        0 <= exit_count(s, ExitReason::Time),
    decreases s.len(),
{
    if s.len() > 0 {
        lemma_stats_bounds(s.drop_last());
    }
}

/// The profit factor is absent exactly when no trade lost, which is exactly
/// when the losing R-multiples sum to zero.
pub proof fn lemma_profit_factor_defined(s: Seq<TradeReport>, pf: Option<Ratio>)
    requires
        profit_factor_of(s, pf),
    ensures
        pf is None <==> gross_loss(s) == 0,
        pf is None <==> loss_count(s) == 0,
        pf matches Some(q) ==> q.den > 0 && q.num >= 0,
{
    lemma_stats_bounds(s);
}

/// The win rate lies between zero and one.
pub proof fn lemma_win_rate_bounded(s: Seq<TradeReport>, rate: Ratio)
    requires
        rate.is_quotient(win_count(s), s.len() as int),
    ensures
        rate.den > 0,
        0 <= rate.num <= rate.den,
{
    lemma_stats_bounds(s);
}

/// The equity after the first `k` trades.
pub open spec fn equity_at(s: Seq<TradeReport>, k: int) -> int {
    net_r(s.take(k))
}

proof fn lemma_equity_of_prefix(s: Seq<TradeReport>, k: int)
    requires
        0 <= k < s.len(),
    ensures
        equity_at(s.drop_last(), k) == equity_at(s, k),
        equity_at(s, s.len() as int) == net_r(s),
        equity_at(s, 0) == 0,
{
    assert(s.drop_last().take(k) == s.take(k));
    assert(s.take(s.len() as int) == s);
}

/// The peak is the highest equity on the way, the start at zero included.
pub proof fn lemma_peak_is_highest(s: Seq<TradeReport>)
    ensures
        forall|i: int| 0 <= i <= s.len() ==> #[trigger] equity_at(s, i) <= peak(s),
        exists|i: int| 0 <= i <= s.len() && #[trigger] equity_at(s, i) == peak(s),
    decreases s.len(),
{
    if s.len() == 0 {
        assert(equity_at(s, 0) == peak(s));
    } else {
        let p = s.drop_last();
        lemma_peak_is_highest(p);
        assert forall|i: int| 0 <= i <= s.len() implies #[trigger] equity_at(s, i) <= peak(s) by {
            if i < s.len() {
                lemma_equity_of_prefix(s, i);
                assert(equity_at(p, i) <= peak(p));
            } else {
                lemma_equity_of_prefix(s, 0);
            }
        }
        if net_r(s) > peak(p) {
            lemma_equity_of_prefix(s, 0);
            assert(equity_at(s, s.len() as int) == peak(s));
        } else {
            let i = choose|i: int| 0 <= i <= p.len() && #[trigger] equity_at(p, i) == peak(p);
            lemma_equity_of_prefix(s, i);
            assert(equity_at(s, i) == peak(s));
        }
    }
}

/// The maximum drawdown is the deepest fall of the equity from a level it
/// had before: no fall between two points of the ledger is deeper, and one
/// is as deep.
pub proof fn lemma_drawdown_is_deepest_fall(s: Seq<TradeReport>)
    ensures
        forall|i: int, j: int|
            #![trigger equity_at(s, i), equity_at(s, j)]
            0 <= i <= j <= s.len() ==> equity_at(s, j) - equity_at(s, i) >= max_drawdown(s),
        exists|i: int, j: int|
            #![trigger equity_at(s, i), equity_at(s, j)]
            0 <= i <= j <= s.len() && equity_at(s, j) - equity_at(s, i) == max_drawdown(s),
    decreases s.len(),
{
    if s.len() == 0 {
        assert(equity_at(s, 0) - equity_at(s, 0) == max_drawdown(s));
    } else {
        let n = s.len() as int;
        let p = s.drop_last();
        lemma_drawdown_is_deepest_fall(p);
        lemma_peak_is_highest(s);
        lemma_equity_of_prefix(s, 0);
        assert forall|i: int, j: int|
            #![trigger equity_at(s, i), equity_at(s, j)]
            0 <= i <= j <= s.len() implies equity_at(s, j) - equity_at(s, i) >= max_drawdown(
            s,
        ) by {
            if j < n {
                lemma_equity_of_prefix(s, i);
                lemma_equity_of_prefix(s, j);
                assert(equity_at(p, j) - equity_at(p, i) >= max_drawdown(p));
            } else {
                assert(equity_at(s, i) <= peak(s));
            }
        }
        if net_r(s) - peak(s) < max_drawdown(p) {
            let i = choose|i: int| 0 <= i <= s.len() && #[trigger] equity_at(s, i) == peak(s);
            assert(equity_at(s, n) - equity_at(s, i) == max_drawdown(s));
        } else {
            let (i, j) = choose|i: int, j: int|
                #![trigger equity_at(p, i), equity_at(p, j)]
                0 <= i <= j <= p.len() && equity_at(p, j) - equity_at(p, i) == max_drawdown(p);
            lemma_equity_of_prefix(s, i);
            lemma_equity_of_prefix(s, j);
            assert(equity_at(s, j) - equity_at(s, i) == max_drawdown(s));
        }
    }
}

fn quotient(num: i128, den: usize) -> (r: Ratio)
    ensures
        r.is_quotient(num as int, den as int),
        r.wf(),
{
    if den == 0 {
        Ratio { num: 0, den: 1 }
    } else {
        Ratio { num, den: den as i128 }
    }
}

/// Reduces the ledger to its figures in one pass.
pub fn summarize(candles: &[Candle], timeframe_minutes: Option<i64>, trades: &[TradeReport]) -> (r:
    Summary)
    requires
        all_wf(candles@),
    ensures
        summarizes(r, candles@, timeframe_minutes, trades@),
        r.profit_factor is None <==> gross_loss(trades@) == 0,
        r.profit_factor is None <==> r.losses == 0,
        0 <= r.win_rate.num <= r.win_rate.den,
        r.win_rate.den > 0,
        r.max_drawdown_r <= 0,
        r.wins + r.losses + r.breakeven == r.trades,
        r.tp_exits + r.sl_exits + r.time_exits == r.trades,
{
    let n: usize = trades.len();
    let mut wins: usize = 0;
    let mut losses: usize = 0;
    let mut breakeven: usize = 0;
    let mut sum_wins: i128 = 0;
    let mut sum_losses: i128 = 0;
    let mut total_r: i128 = 0;
    let mut tp_exits: usize = 0;
    let mut sl_exits: usize = 0;
    let mut time_exits: usize = 0;
    let mut consecutive_wins: usize = 0;
    let mut consecutive_losses: usize = 0;
    let mut max_consecutive_wins: usize = 0;
    let mut max_consecutive_losses: usize = 0;
    let mut top: i128 = 0;
    let mut max_drawdown_r: i128 = 0;
    let mut total_hold: i128 = 0;
    let mut k: usize = 0;
    proof {
        lemma_stats_bounds(trades@.take(0));
    }
    while k < n
        invariant
            k <= n,
            n == trades@.len(),
            wins == win_count(trades@.take(k as int)),
            losses == loss_count(trades@.take(k as int)),
            breakeven == k - wins - losses,
            sum_wins == gross_win(trades@.take(k as int)),
            sum_losses == gross_loss(trades@.take(k as int)),
            total_r == net_r(trades@.take(k as int)),
            tp_exits == exit_count(trades@.take(k as int), ExitReason::Tp),
            sl_exits == exit_count(trades@.take(k as int), ExitReason::Sl),
            time_exits == exit_count(trades@.take(k as int), ExitReason::Time),
            consecutive_wins == win_run(trades@.take(k as int)),
            consecutive_losses == loss_run(trades@.take(k as int)),
            max_consecutive_wins == longest_win_run(trades@.take(k as int)),
            max_consecutive_losses == longest_loss_run(trades@.take(k as int)),
            top == peak(trades@.take(k as int)),
            max_drawdown_r == max_drawdown(trades@.take(k as int)),
            total_hold == hold_total(trades@.take(k as int)),
        decreases n - k,
    {
        let ghost before = trades@.take(k as int);
        let ghost now = trades@.take(k as int + 1);
        proof {
            assert(now.drop_last() == before);
            assert(now.last() == trades@[k as int]);
            lemma_stats_bounds(before);
            lemma_stats_bounds(now);
        }
        let r: i64 = trades[k].r_multiple;
        total_r = total_r + r as i128;
        match trades[k].exit_reason {
            ExitReason::Tp => {
                tp_exits = tp_exits + 1;
            },
            ExitReason::Sl => {
                sl_exits = sl_exits + 1;
            },
            ExitReason::Time => {
                time_exits = time_exits + 1;
            },
        }
        if r > 0 {
            wins = wins + 1;
            sum_wins = sum_wins + r as i128;
            consecutive_wins = consecutive_wins + 1;
            consecutive_losses = 0;
            if consecutive_wins > max_consecutive_wins {
                max_consecutive_wins = consecutive_wins;
            }
        } else if r < 0 {
            losses = losses + 1;
            sum_losses = sum_losses + r as i128;
            consecutive_losses = consecutive_losses + 1;
            consecutive_wins = 0;
            if consecutive_losses > max_consecutive_losses {
                max_consecutive_losses = consecutive_losses;
            }
        } else {
            breakeven = breakeven + 1;
            consecutive_wins = 0;
            consecutive_losses = 0;
        }
        if total_r > top {
            top = total_r;
        }
        let drawdown: i128 = total_r - top;
        if drawdown < max_drawdown_r {
            max_drawdown_r = drawdown;
        }
        total_hold = total_hold + trades[k].hold_minutes as i128;
        k = k + 1;
    }
    proof {
        assert(trades@.take(n as int) == trades@);
        lemma_stats_bounds(trades@);
    }
    let profit_factor: Option<Ratio> = if sum_losses < 0 {
        Some(Ratio { num: sum_wins, den: -sum_losses })
    } else {
        None
    };
    let start_time: String = if candles.len() == 0 {
        String::new()
    } else {
        fmt_time(candles[0].time)
    };
    let end_time: String = if candles.len() == 0 {
        String::new()
    } else {
        fmt_time(candles[candles.len() - 1].time)
    };
    Summary {
        candles: candles.len(),
        timeframe_minutes,
        trades: n,
        wins,
        losses,
        breakeven,
        win_rate: quotient(wins as i128, n),
        total_r,
        avg_r: quotient(total_r, n),
        avg_win_r: quotient(sum_wins, wins),
        avg_loss_r: quotient(sum_losses, losses),
        profit_factor,
        max_drawdown_r,
        max_consecutive_wins,
        max_consecutive_losses,
        tp_exits,
        sl_exits,
        time_exits,
        avg_hold_minutes: quotient(total_hold, n),
        start_time,
        end_time,
    }
}

} // verus!
