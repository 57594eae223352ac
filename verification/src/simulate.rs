use vstd::prelude::*;
use crate::clock::{
    day_number, day_of, fmt_time, in_entry_window, is_entry_window, is_time_exit, minute_text,
    minutes_between, time_exit_due, whole_minutes,
};
use crate::types::{
    all_wf, valid_time, Candle, Direction, ExitReason, Outcome, SkipReason, Skipped, Trade,
    TradeReport, R_SCALE,
};

verus! {

/// How the forward walk from an entry candle ended.
#[derive(Debug, Clone, Copy, PartialEq, Eq, Structural)]
pub enum Scan {
    /// The data or the entry day ran out with the position still open.
    Open,
    /// One candle crossed the stop and carried an opposing signal.
    Conflict,
    /// The position was closed.
    Closed { time: i64, nanos: u32, price: i64, reason: ExitReason },
}

pub open spec fn min3(a: i64, b: i64, c: i64) -> i64 {
    let ab = if b < a { b } else { a };
    if c < ab { c } else { ab }
}

pub open spec fn max3(a: i64, b: i64, c: i64) -> i64 {
    let ab = if b > a { b } else { a };
    if c > ab { c } else { ab }
}

/// The stop of a position entered at index `e`: taken over the three candles
/// before `e`, the lowest low for a long and the highest high for a short.
pub open spec fn stop_level(candles: Seq<Candle>, e: int, d: Direction) -> i64
    recommends
        3 <= e <= candles.len(),
{
    match d {
        Direction::Long => min3(candles[e - 3].low, candles[e - 2].low, candles[e - 1].low),
        Direction::Short => max3(candles[e - 3].high, candles[e - 2].high, candles[e - 1].high),
    }
}

/// Distance from the entry price to the stop, counted as a loss.
pub open spec fn risk_of(entry_price: i64, stop: i64, d: Direction) -> int {
    match d {
        Direction::Long => entry_price - stop,
        Direction::Short => stop - entry_price,
    }
}

/// Price move from entry to exit, counted in the position's favour.
pub open spec fn gain_of(entry_price: i64, exit_price: i64, d: Direction) -> int {
    match d {
        Direction::Long => exit_price - entry_price,
        Direction::Short => entry_price - exit_price,
    }
}

/// `gain / risk` in millionths, rounded away from zero, so that its sign is
/// the sign of the gain.
pub open spec fn r_multiple_of(gain: int, risk: int) -> int
    recommends
        risk > 0,
{
    if gain >= 0 {
        (gain * 1_000_000 + risk - 1) / risk
    } else {
        -(((-gain) * 1_000_000 + risk - 1) / risk)
    }
}

/// An R-multiple as a trade holds it: itself within the range of `i64`, the
/// nearest bound of that range beyond it.
pub open spec fn held_r(r: int) -> i64 {
    if r > i64::MAX {
        i64::MAX
    } else if r < -i64::MAX {
        (-i64::MAX) as i64
    } else {
        r as i64
    }
}

/// Whether the candle trades through the stop.
pub open spec fn stop_hit(c: Candle, d: Direction, stop: i64) -> bool {
    match d {
        Direction::Long => c.low < stop,
        Direction::Short => c.high > stop,
    }
}

/// Whether a candle's signal points against the position.
pub open spec fn opposing(signal: Option<Direction>, d: Direction) -> bool {
    match signal {
        Some(s) => s != d,
        None => false,
    }
}

/// The forward walk from candle `j` for a position of direction `d` entered
/// at `entry_time` with stop `stop`. Per candle, in this order: a later day
/// ends the walk with the position open; the cut-off time closes it at the
/// open; stop and opposing signal together void it; the stop alone closes it
/// at the stop; an opposing signal alone closes it at the close.
pub open spec fn scan_from(
    candles: Seq<Candle>,
    dirs: Seq<Option<Direction>>,
    d: Direction,
    entry_time: i64,
    stop: i64,
    j: int,
) -> Scan
    decreases candles.len() - j,
{
    if j < 0 || j >= candles.len() {
        Scan::Open
    } else {
        let c = candles[j];
        if day_of(c.time) > day_of(entry_time) {
            Scan::Open
        } else if time_exit_due(entry_time, c.time) {
            Scan::Closed { time: c.time, nanos: c.nanos, price: c.open, reason: ExitReason::Time }
        } else if stop_hit(c, d, stop) && opposing(dirs[j], d) {
            Scan::Conflict
        } else if stop_hit(c, d, stop) {
            Scan::Closed { time: c.time, nanos: c.nanos, price: stop, reason: ExitReason::Sl }
        } else if opposing(dirs[j], d) {
            Scan::Closed { time: c.time, nanos: c.nanos, price: c.close, reason: ExitReason::Tp }
        } else {
            scan_from(candles, dirs, d, entry_time, stop, j + 1)
        }
    }
}

/// The ledger line of a position.
pub open spec fn trade_of(
    signal: Candle,
    entry: Candle,
    d: Direction,
    stop: i64,
    exit_time: i64,
    exit_nanos: u32,
    exit_price: i64,
    reason: ExitReason,
) -> Trade {
    let risk = risk_of(entry.open, stop, d);
    Trade {
        entry_time: entry.time,
        exit_time: exit_time,
        direction: d,
        entry_price: entry.open,
        exit_price: exit_price,
        sl: stop,
        risk: risk as i128,
        r_multiple: held_r(r_multiple_of(gain_of(entry.open, exit_price, d), risk)),
        exit_reason: reason,
        x_time: signal.time,
        x_direction: d,
        hold_minutes: minutes_between(entry.time, entry.nanos, exit_time, exit_nanos) as i64,
    }
}

/// What becomes of index `i`: nothing where it holds no signal; otherwise the
/// signal is dropped, skipped for exactly one reason, or traded.
pub open spec fn outcome_at(candles: Seq<Candle>, dirs: Seq<Option<Direction>>, i: int) -> Outcome
    recommends
        1 <= i < candles.len(),
        dirs.len() == candles.len(),
{
    match dirs[i] {
        None => Outcome::Quiet,
        Some(d) => {
            let e = i + 1;
            if e >= candles.len() {
                Outcome::Dropped
            } else if !in_entry_window(candles[e].time, candles[e].nanos) {
                Outcome::Skipped(SkipReason::OutsideWindow)
            } else if e < 3 {
                Outcome::Skipped(SkipReason::InsufficientHistory)
            } else {
                let stop = stop_level(candles, e, d);
                if risk_of(candles[e].open, stop, d) <= 0 {
                    Outcome::Skipped(SkipReason::InvalidRisk)
                } else {
                    match scan_from(candles, dirs, d, candles[e].time, stop, e) {
                        Scan::Open => Outcome::Skipped(SkipReason::NoExit),
                        Scan::Conflict => Outcome::Skipped(SkipReason::InvalidSameCandle),
                        Scan::Closed { time, nanos, price, reason } => Outcome::Traded(
                            trade_of(candles[i], candles[e], d, stop, time, nanos, price, reason),
                        ),
                    }
                }
            }
        },
    }
}

/// The trades of the indices `1 .. upto`, in index order.
pub open spec fn ledger(candles: Seq<Candle>, dirs: Seq<Option<Direction>>, upto: int) -> Seq<
    Trade,
>
    decreases upto,
{
    if upto <= 1 {
        Seq::empty()
    } else {
        let before = ledger(candles, dirs, upto - 1);
        match outcome_at(candles, dirs, upto - 1) {
            Outcome::Traded(t) => before.push(t),
            _ => before,
        }
    }
}

/// How many of the indices `1 .. upto` have the outcome `which`.
pub open spec fn tally(
    candles: Seq<Candle>,
    dirs: Seq<Option<Direction>>,
    upto: int,
    which: Outcome,
) -> int
    decreases upto,
{
    if upto <= 1 {
        0
    } else {
        tally(candles, dirs, upto - 1, which) + if outcome_at(candles, dirs, upto - 1) == which {
            1int
        } else {
            0int
        }
    }
}

/// How many of the indices `1 .. upto` hold a signal.
pub open spec fn signal_count(dirs: Seq<Option<Direction>>, upto: int) -> int
    decreases upto,
{
    if upto <= 1 {
        0
    } else {
        signal_count(dirs, upto - 1) + if dirs[upto - 1] is Some {
            1int
        } else {
            0int
        }
    }
}

/// The five tallies of `s` are those of the indices `1 .. upto`.
pub open spec fn tallies_match(
    s: Skipped,
    candles: Seq<Candle>,
    dirs: Seq<Option<Direction>>,
    upto: int,
) -> bool {
    &&& s.outside_window == tally(
        candles,
        dirs,
        upto,
        Outcome::Skipped(SkipReason::OutsideWindow),
    )
    &&& s.insufficient_history == tally(
        candles,
        dirs,
        upto,
        Outcome::Skipped(SkipReason::InsufficientHistory),
    )
    &&& s.invalid_risk == tally(candles, dirs, upto, Outcome::Skipped(SkipReason::InvalidRisk))
    &&& s.invalid_same_candle == tally(
        candles,
        dirs,
        upto,
        Outcome::Skipped(SkipReason::InvalidSameCandle),
    )
    &&& s.no_exit == tally(candles, dirs, upto, Outcome::Skipped(SkipReason::NoExit))
}

fn lowest_of(a: i64, b: i64, c: i64) -> (r: i64)
    ensures
        r == min3(a, b, c),
{
    let ab: i64 = if b < a { b } else { a };
    if c < ab { c } else { ab }
}

fn highest_of(a: i64, b: i64, c: i64) -> (r: i64)
    ensures
        r == max3(a, b, c),
{
    let ab: i64 = if b > a { b } else { a };
    if c > ab { c } else { ab }
}

/// Walks forward from the entry candle `e` until the position closes, is
/// voided, or the entry day or the data ends.
pub fn scan_forward(
    candles: &[Candle],
    x_dirs: &[Option<Direction>],
    d: Direction,
    stop: i64,
    e: usize,
) -> (r: Scan)
    requires
        candles@.len() == x_dirs@.len(),
        e < candles@.len(),
        all_wf(candles@),
    ensures
        r == scan_from(candles@, x_dirs@, d, candles@[e as int].time, stop, e as int),
        r matches Scan::Closed { time, nanos, .. } ==> valid_time(time) && nanos < 1_000_000_000,
{
    let n: usize = candles.len();
    let entry_time: i64 = candles[e].time;
    let entry_day: i64 = day_number(entry_time);
    let mut j: usize = e;
    while j < n
        invariant
            e <= j <= n,
            n == candles@.len(),
            n == x_dirs@.len(),
            all_wf(candles@),
            entry_time == candles@[e as int].time,
            entry_day == day_of(entry_time) + 719_528,
            scan_from(candles@, x_dirs@, d, entry_time, stop, e as int) == scan_from(
                candles@,
                x_dirs@,
                d,
                entry_time,
                stop,
                j as int,
            ),
        decreases n - j,
    {
        let c: Candle = candles[j];
        assert(c.wf());
        if day_number(c.time) > entry_day {
            return Scan::Open;
        }
        if is_time_exit(entry_time, c.time) {
            return Scan::Closed {
                time: c.time,
                nanos: c.nanos,
                price: c.open,
                reason: ExitReason::Time,
            };
        }
        let hit: bool = match d {
            Direction::Long => c.low < stop,
            Direction::Short => c.high > stop,
        };
        let opp: bool = match x_dirs[j] {
            Some(s) => s != d,
            None => false,
        };
        if hit && opp {
            return Scan::Conflict;
        }
        if hit {
            return Scan::Closed {
                time: c.time,
                nanos: c.nanos,
                price: stop,
                reason: ExitReason::Sl,
            };
        }
        if opp {
            return Scan::Closed {
                time: c.time,
                nanos: c.nanos,
                price: c.close,
                reason: ExitReason::Tp,
            };
        }
        j = j + 1;
    }
    Scan::Open
}

/// Decides what becomes of candle index `i`.
pub fn resolve_signal(candles: &[Candle], x_dirs: &[Option<Direction>], i: usize) -> (r: Outcome)
    requires
        candles@.len() == x_dirs@.len(),
        1 <= i < candles@.len(),
        all_wf(candles@),
    ensures
        r == outcome_at(candles@, x_dirs@, i as int),
        r matches Outcome::Traded(t) ==> t.timed(),
{
    let d: Direction = match x_dirs[i] {
        Some(d) => d,
        None => {
            return Outcome::Quiet;
        },
    };
    let e: usize = i + 1;
    if e >= candles.len() {
        return Outcome::Dropped;
    }
    let signal: Candle = candles[i];
    let entry: Candle = candles[e];
    assert(entry.wf());
    if !is_entry_window(entry.time, entry.nanos) {
        return Outcome::Skipped(SkipReason::OutsideWindow);
    }
    if e < 3 {
        return Outcome::Skipped(SkipReason::InsufficientHistory);
    }
    let c1: Candle = candles[e - 3];
    let c2: Candle = candles[e - 2];
    let c3: Candle = candles[e - 1];
    let stop: i64 = match d {
        Direction::Long => lowest_of(c1.low, c2.low, c3.low),
        Direction::Short => highest_of(c1.high, c2.high, c3.high),
    };
    let risk: i128 = match d {
        Direction::Long => entry.open as i128 - stop as i128,
        Direction::Short => stop as i128 - entry.open as i128,
    };
    if risk <= 0 {
        return Outcome::Skipped(SkipReason::InvalidRisk);
    }
    match scan_forward(candles, x_dirs, d, stop, e) {
        Scan::Open => Outcome::Skipped(SkipReason::NoExit),
        Scan::Conflict => Outcome::Skipped(SkipReason::InvalidSameCandle),
        Scan::Closed { time, nanos, price, reason } => {
            let gain: i128 = match d {
                Direction::Long => price as i128 - entry.open as i128,
                Direction::Short => entry.open as i128 - price as i128,
            };
            Outcome::Traded(
                Trade {
                    entry_time: entry.time,
                    exit_time: time,
                    direction: d,
                    entry_price: entry.open,
                    exit_price: price,
                    sl: stop,
                    risk,
                    r_multiple: r_multiple(gain, risk),
                    exit_reason: reason,
                    x_time: signal.time,
                    x_direction: d,
                    hold_minutes: whole_minutes(entry.time, entry.nanos, time, nanos),
                },
            )
        },
    }
}

/// A quotient rounded up is positive exactly where the number divided is,
/// and is no larger than that number.
proof fn lemma_rounded_up(x: int, y: int)
    requires
        0 <= x,
        0 < y,
    ensures
        0 <= (x + y - 1) / y <= x,
        x > 0 <==> (x + y - 1) / y > 0,
{
    assert(0 <= (x + y - 1) / y <= x && (x > 0 <==> (x + y - 1) / y > 0)) by (nonlinear_arith)
        requires
            0 <= x,
            0 < y,
    ;
}

/// The R-multiple of a gain over a risk, as a trade holds it.
fn r_multiple(gain: i128, risk: i128) -> (r: i64)
    requires
        -0x1_0000_0000_0000_0000 < gain < 0x1_0000_0000_0000_0000,
        0 < risk < 0x1_0000_0000_0000_0000,
    ensures
        r == held_r(r_multiple_of(gain as int, risk as int)),
{
    let size: i128 = if gain >= 0 { gain } else { -gain };
    proof {
        lemma_rounded_up(size * 1_000_000, risk as int);
    }
    let rounded: i128 = (size * (R_SCALE as i128) + risk - 1) / risk;
    let held: i64 = if rounded > i64::MAX as i128 { i64::MAX } else { rounded as i64 };
    if gain >= 0 {
        held
    } else {
        -held
    }
}

/// A walk that closes the position does so at the instant of one of the
/// candles from `j` on, not after the entry day, and a stop closes it at the
/// stop price.
pub proof fn lemma_closed_at_candle(
    candles: Seq<Candle>,
    dirs: Seq<Option<Direction>>,
    d: Direction,
    entry_time: i64,
    stop: i64,
    j: int,
)
    requires
        0 <= j,
    ensures
        match scan_from(candles, dirs, d, entry_time, stop, j) {
            Scan::Closed { time, nanos, price, reason } => exists|k: int|
                j <= k < candles.len() && time == (#[trigger] candles[k]).time && nanos
                    == candles[k].nanos && day_of(time) <= day_of(entry_time) && (reason
                    == ExitReason::Sl ==> price == stop),
            _ => true,
        },
    decreases candles.len() - j,
{
    if j < candles.len() {
        let c = candles[j];
        if day_of(c.time) > day_of(entry_time) {
        } else if time_exit_due(entry_time, c.time) {
        } else if stop_hit(c, d, stop) || opposing(dirs[j], d) {
        } else {
            lemma_closed_at_candle(candles, dirs, d, entry_time, stop, j + 1);
        }
    }
}

/// Tallies that match at index `i` and took up the outcome of `i` match at
/// `i + 1`.
proof fn lemma_tallies_step(
    before: Skipped,
    after: Skipped,
    candles: Seq<Candle>,
    dirs: Seq<Option<Direction>>,
    i: int,
)
    requires
        1 <= i,
        tallies_match(before, candles, dirs, i),
        before.total() <= i,
        match outcome_at(candles, dirs, i) {
            Outcome::Skipped(reason) => after.spec_count(reason) == before.spec_count(reason) + 1
                && forall|other: SkipReason|
                other != reason ==> after.spec_count(other) == before.spec_count(other),
            _ => after == before,
        },
    ensures
        tallies_match(after, candles, dirs, i + 1),
        after.total() <= i + 1,
{
    let o = outcome_at(candles, dirs, i);
    assert(after.spec_count(SkipReason::OutsideWindow) - before.spec_count(
        SkipReason::OutsideWindow,
    ) == if o == Outcome::Skipped(SkipReason::OutsideWindow) { 1int } else { 0int });
    assert(after.spec_count(SkipReason::InsufficientHistory) - before.spec_count(
        SkipReason::InsufficientHistory,
    ) == if o == Outcome::Skipped(SkipReason::InsufficientHistory) { 1int } else { 0int });
    assert(after.spec_count(SkipReason::InvalidRisk) - before.spec_count(SkipReason::InvalidRisk)
        == if o == Outcome::Skipped(SkipReason::InvalidRisk) { 1int } else { 0int });
    assert(after.spec_count(SkipReason::InvalidSameCandle) - before.spec_count(
        SkipReason::InvalidSameCandle,
    ) == if o == Outcome::Skipped(SkipReason::InvalidSameCandle) { 1int } else { 0int });
    assert(after.spec_count(SkipReason::NoExit) - before.spec_count(SkipReason::NoExit) == if o
        == Outcome::Skipped(SkipReason::NoExit) { 1int } else { 0int });
}

/// Without candles every tally is zero, whatever the upper index.
proof fn lemma_tallies_empty(s: Skipped, candles: Seq<Candle>, dirs: Seq<Option<Direction>>)
    requires
        tallies_match(s, candles, dirs, 1),
    ensures
        tallies_match(s, candles, dirs, 0),
{
}

/// The reported line `row` is the trade `t` with its three instants written
/// out to the minute.
pub open spec fn renders(row: TradeReport, t: Trade) -> bool {
    &&& row.entry_time@ == minute_text(t.entry_time)
    &&& row.exit_time@ == minute_text(t.exit_time)
    &&& row.direction == t.direction
    &&& row.entry_price == t.entry_price
    &&& row.exit_price == t.exit_price
    &&& row.sl == t.sl
    &&& row.risk == t.risk
    &&& row.r_multiple == t.r_multiple
    &&& row.exit_reason == t.exit_reason
    &&& row.x_time@ == minute_text(t.x_time)
    &&& row.x_direction == t.x_direction
    &&& row.hold_minutes == t.hold_minutes
}

/// The reported lines are the trades, one for one and in the same order.
pub open spec fn renders_all(rows: Seq<TradeReport>, trades: Seq<Trade>) -> bool {
    &&& rows.len() == trades.len()
    &&& forall|k: int| 0 <= k < rows.len() ==> renders(#[trigger] rows[k], trades[k])
}

/// Writes a trade out as a line of the report.
pub fn render_trade(t: &Trade) -> (r: TradeReport)
    requires
        t.timed(),
    ensures
        renders(r, *t),
{
    TradeReport {
        entry_time: fmt_time(t.entry_time),
        exit_time: fmt_time(t.exit_time),
        direction: t.direction,
        entry_price: t.entry_price,
        exit_price: t.exit_price,
        sl: t.sl,
        risk: t.risk,
        r_multiple: t.r_multiple,
        exit_reason: t.exit_reason,
        x_time: fmt_time(t.x_time),
        x_direction: t.x_direction,
        hold_minutes: t.hold_minutes,
    }
}

/// Simulates one position per signal. The ledger holds the trades in the
/// order of their signals; each signal that gives no trade adds one to the
/// tally of its reason, except a signal on the last candle, which is dropped.
pub fn simulate_trades(candles: &[Candle], x_dirs: &[Option<Direction>]) -> (r: (
    Vec<TradeReport>,
    Skipped,
))
    requires
        candles@.len() == x_dirs@.len(),
        all_wf(candles@),
    ensures
        renders_all(r.0@, ledger(candles@, x_dirs@, candles@.len() as int)),
        tallies_match(r.1, candles@, x_dirs@, candles@.len() as int),
        r.0@.len() + r.1.total() + tally(
            candles@,
            x_dirs@,
            candles@.len() as int,
            Outcome::Dropped,
        ) == signal_count(x_dirs@, candles@.len() as int),
        forall|k: int|
            #![trigger r.0@[k]]
            0 <= k < r.0@.len() ==> {
                &&& r.0@[k].risk > 0
                &&& r.0@[k].r_multiple > 0 <==> favourable(
                    r.0@[k].direction,
                    r.0@[k].entry_price,
                    r.0@[k].exit_price,
                )
                &&& r.0@[k].r_multiple < 0 <==> adverse(
                    r.0@[k].direction,
                    r.0@[k].entry_price,
                    r.0@[k].exit_price,
                )
            },
        ascending(candles@) ==> entries_ascend(
            ledger(candles@, x_dirs@, candles@.len() as int),
        ),
{
    let n: usize = candles.len();
    let mut trades: Vec<TradeReport> = Vec::new();
    let mut skipped: Skipped = Skipped::default();
    let mut i: usize = 1;
    while i < n
        invariant
            1 <= i,
            i <= n || i == 1,
            n == candles@.len(),
            n == x_dirs@.len(),
            all_wf(candles@),
            renders_all(trades@, ledger(candles@, x_dirs@, i as int)),
            tallies_match(skipped, candles@, x_dirs@, i as int),
            skipped.total() <= i,
        decreases n - i,
    {
        let ghost before = skipped;
        match resolve_signal(candles, x_dirs, i) {
            Outcome::Traded(t) => {
                let row: TradeReport = render_trade(&t);
                trades.push(row);
            },
            Outcome::Skipped(reason) => {
                skipped.record(reason);
            },
            _ => {},
        }
        proof {
            lemma_tallies_step(before, skipped, candles@, x_dirs@, i as int);
        }
        i = i + 1;
    }
    proof {
        if n == 0 {
            assert(ledger(candles@, x_dirs@, 0) == ledger(candles@, x_dirs@, 1));
            lemma_tallies_empty(skipped, candles@, x_dirs@);
        }
        let trades_made = ledger(candles@, x_dirs@, n as int);
        lemma_conservation(candles@, x_dirs@, n as int);
        lemma_ledger_coherent(candles@, x_dirs@, n as int);
        assert forall|k: int| 0 <= k < trades@.len() implies {
            &&& trades@[k].risk > 0
            &&& trades@[k].r_multiple > 0 <==> favourable(
                trades@[k].direction,
                trades@[k].entry_price,
                trades@[k].exit_price,
            )
            &&& trades@[k].r_multiple < 0 <==> adverse(
                trades@[k].direction,
                trades@[k].entry_price,
                trades@[k].exit_price,
            )
        } by {
            assert(renders(trades@[k], trades_made[k]));
            assert(coherent(trades_made[k]));
        }
        if ascending(candles@) {
            lemma_ledger_ascends(candles@, x_dirs@, n as int);
        }
    }
    (trades, skipped)
}

/// The first candle is not later than the second.
pub open spec fn not_later(a: Candle, b: Candle) -> bool {
    a.time < b.time || (a.time == b.time && a.nanos <= b.nanos)
}

/// The candles are in ascending order of time (equal times allowed).
pub open spec fn ascending(candles: Seq<Candle>) -> bool {
    forall|i: int, j: int|
        #![trigger candles[i], candles[j]]
        0 <= i <= j < candles.len() ==> not_later(candles[i], candles[j])
}

/// No trade of the ledger is entered before the one in front of it.
pub open spec fn entries_ascend(trades: Seq<Trade>) -> bool {
    forall|a: int, b: int|
        0 <= a <= b < trades.len() ==> trades[a].entry_time <= trades[b].entry_time
}

/// The exit price lies on the winning side of the entry price.
pub open spec fn favourable(d: Direction, entry_price: i64, exit_price: i64) -> bool {
    match d {
        Direction::Long => exit_price > entry_price,
        Direction::Short => exit_price < entry_price,
    }
}

/// The exit price lies on the losing side of the entry price.
pub open spec fn adverse(d: Direction, entry_price: i64, exit_price: i64) -> bool {
    match d {
        Direction::Long => exit_price < entry_price,
        Direction::Short => exit_price > entry_price,
    }
}

/// What holds of every line of a ledger: the risk is positive and is the
/// distance from entry to stop; the R-multiple is the gain over the risk in
/// millionths; it is positive exactly where the exit is better than the
/// entry and negative exactly where it is worse; and a stop costs one R.
pub open spec fn coherent(t: Trade) -> bool {
    &&& t.risk > 0
    &&& t.risk == risk_of(t.entry_price, t.sl, t.direction)
    &&& t.r_multiple == held_r(
        r_multiple_of(gain_of(t.entry_price, t.exit_price, t.direction), t.risk as int),
    )
    &&& t.r_multiple > 0 <==> favourable(t.direction, t.entry_price, t.exit_price)
    &&& t.r_multiple < 0 <==> adverse(t.direction, t.entry_price, t.exit_price)
    &&& t.exit_reason == ExitReason::Sl ==> t.exit_price == t.sl && t.r_multiple == -1_000_000
    &&& t.x_direction == t.direction
}

/// Every trade that the simulation records is coherent: in particular a
/// positive R-multiple comes only with an exit better than the entry, and a
/// negative one only with an exit worse than the entry.
pub proof fn lemma_trade_coherent(candles: Seq<Candle>, dirs: Seq<Option<Direction>>, i: int)
    requires
        candles.len() == dirs.len(),
        1 <= i < candles.len(),
    ensures
        match outcome_at(candles, dirs, i) {
            Outcome::Traded(t) => coherent(t) && t.entry_time == candles[i + 1].time && t.x_time
                == candles[i].time,
            _ => true,
        },
{
    match outcome_at(candles, dirs, i) {
        Outcome::Traded(t) => {
            let d = dirs[i]->0;
            let e = i + 1;
            let entry = candles[e];
            let stop = stop_level(candles, e, d);
            lemma_closed_at_candle(candles, dirs, d, entry.time, stop, e);
            let risk = risk_of(entry.open, stop, d);
            let gain = gain_of(entry.open, t.exit_price, d);
            if gain >= 0 {
                lemma_rounded_up(gain * 1_000_000, risk);
            } else {
                lemma_rounded_up((-gain) * 1_000_000, risk);
            }
            if t.exit_reason == ExitReason::Sl {
                assert(gain == -risk);
                assert((risk * 1_000_000 + risk - 1) / risk == 1_000_000) by (nonlinear_arith)
                    requires
                        risk > 0,
                ;
            }
        },
        _ => {},
    }
}

/// Every line of the ledger is coherent.
pub proof fn lemma_ledger_coherent(candles: Seq<Candle>, dirs: Seq<Option<Direction>>, upto: int)
    requires
        candles.len() == dirs.len(),
        upto <= candles.len(),
    ensures
        forall|k: int|
            0 <= k < ledger(candles, dirs, upto).len() ==> coherent(
                #[trigger] ledger(candles, dirs, upto)[k],
            ),
    decreases upto,
{
    if upto > 1 {
        lemma_ledger_coherent(candles, dirs, upto - 1);
        lemma_trade_coherent(candles, dirs, upto - 1);
        let before = ledger(candles, dirs, upto - 1);
        let now = ledger(candles, dirs, upto);
        assert forall|k: int| 0 <= k < now.len() implies coherent(#[trigger] now[k]) by {
            if k < before.len() {
                assert(now[k] == before[k]);
            }
        }
    }
}

/// No signal of the ledger is earlier than the one in front of it.
pub open spec fn signals_ascend(trades: Seq<Trade>) -> bool {
    forall|a: int, b: int| 0 <= a <= b < trades.len() ==> trades[a].x_time <= trades[b].x_time
}

/// Over candles in ascending order of time the ledger comes out in ascending
/// order of entry time and of signal time, and no entry is later than the
/// candle at `upto` (or the last candle, where `upto` is the number of
/// candles).
pub proof fn lemma_ledger_ascends(candles: Seq<Candle>, dirs: Seq<Option<Direction>>, upto: int)
    requires
        candles.len() == dirs.len(),
        upto <= candles.len(),
        ascending(candles),
    ensures
        entries_ascend(ledger(candles, dirs, upto)),
        signals_ascend(ledger(candles, dirs, upto)),
        forall|k: int, m: int|
            0 <= k < ledger(candles, dirs, upto).len() && upto <= m < candles.len() ==> (
            #[trigger] ledger(candles, dirs, upto)[k]).entry_time <= (#[trigger] candles[m]).time,
        forall|k: int|
            0 <= k < ledger(candles, dirs, upto).len() ==> (#[trigger] ledger(
                candles,
                dirs,
                upto,
            )[k]).x_time <= ledger(candles, dirs, upto)[k].entry_time <= candles[candles.len()
                - 1].time,
    decreases upto,
{
    if upto > 1 {
        lemma_ledger_ascends(candles, dirs, upto - 1);
        lemma_trade_coherent(candles, dirs, upto - 1);
        let before = ledger(candles, dirs, upto - 1);
        let now = ledger(candles, dirs, upto);
        match outcome_at(candles, dirs, upto - 1) {
            Outcome::Traded(t) => {
                assert(t.entry_time == candles[upto].time);
                assert(t.x_time == candles[upto - 1].time);
                assert(not_later(candles[upto - 1], candles[upto]));
                assert(not_later(candles[upto], candles[candles.len() - 1]));
                assert(now == before.push(t));
                assert forall|a: int, b: int| 0 <= a <= b < now.len() implies now[a].entry_time
                    <= now[b].entry_time && now[a].x_time <= now[b].x_time by {
                    if b < before.len() {
                        assert(now[a] == before[a] && now[b] == before[b]);
                    } else if a < before.len() {
                        assert(now[a] == before[a]);
                        assert(before[a].entry_time <= candles[upto - 1].time);
                    }
                }
                assert forall|k: int, m: int|
                    0 <= k < now.len() && upto <= m < candles.len() implies (
                #[trigger] now[k]).entry_time <= (#[trigger] candles[m]).time by {
                    assert(not_later(candles[upto], candles[m]));
                    if k < before.len() {
                        assert(now[k] == before[k]);
                    }
                }
                assert forall|k: int| 0 <= k < now.len() implies (#[trigger] now[k]).x_time
                    <= now[k].entry_time <= candles[candles.len() - 1].time by {
                    if k < before.len() {
                        assert(now[k] == before[k]);
                    }
                }
            },
            _ => {},
        }
    }
}

/// Over candles in ascending order of time a trade runs forward and ends
/// on the day it began: the signal is not later than the entry, the entry
/// not later than the exit, the exit falls on the entry day, and the hold
/// time is at least zero and under a day of minutes.
pub proof fn lemma_trade_runs_forward(candles: Seq<Candle>, dirs: Seq<Option<Direction>>, i: int)
    requires
        candles.len() == dirs.len(),
        1 <= i < candles.len(),
        all_wf(candles),
        ascending(candles),
    ensures
        match outcome_at(candles, dirs, i) {
            Outcome::Traded(t) => {
                &&& t.x_time <= t.entry_time <= t.exit_time
                &&& day_of(t.exit_time) == day_of(t.entry_time)
                &&& 0 <= t.hold_minutes < 1_440
            },
            _ => true,
        },
{
    match outcome_at(candles, dirs, i) {
        Outcome::Traded(t) => {
            let d = dirs[i]->0;
            let e = i + 1;
            lemma_trade_coherent(candles, dirs, i);
            lemma_closed_at_candle(
                candles,
                dirs,
                d,
                candles[e].time,
                stop_level(candles, e, d),
                e,
            );
            let k = choose|k: int|
                e <= k < candles.len() && t.exit_time == (#[trigger] candles[k]).time
                    && t.hold_minutes == minutes_between(
                    candles[e].time,
                    candles[e].nanos,
                    candles[k].time,
                    candles[k].nanos,
                ) as i64 && day_of(candles[k].time) <= day_of(candles[e].time);
            assert(candles[k].wf() && candles[e].wf());
            assert(not_later(candles[e], candles[k]));
            assert(not_later(candles[i], candles[e]));
        },
        _ => {},
    }
}

/// Each signal ends in exactly one way: the signals among the indices
/// `1 .. upto` are as many as the trades, the five tallies and the dropped
/// signals together. At most one signal is dropped, the one on the last
/// candle.
pub proof fn lemma_conservation(candles: Seq<Candle>, dirs: Seq<Option<Direction>>, upto: int)
    requires
        candles.len() == dirs.len(),
        upto <= candles.len(),
    ensures
        signal_count(dirs, upto) == ledger(candles, dirs, upto).len() + tally(
            candles,
            dirs,
            upto,
            Outcome::Skipped(SkipReason::OutsideWindow),
        ) + tally(candles, dirs, upto, Outcome::Skipped(SkipReason::InsufficientHistory)) + tally(
            candles,
            dirs,
            upto,
            Outcome::Skipped(SkipReason::InvalidRisk),
        ) + tally(candles, dirs, upto, Outcome::Skipped(SkipReason::InvalidSameCandle)) + tally(
            candles,
            dirs,
            upto,
            Outcome::Skipped(SkipReason::NoExit),
        ) + tally(candles, dirs, upto, Outcome::Dropped),
        tally(candles, dirs, upto, Outcome::Dropped) == if 2 <= upto == candles.len() && dirs[upto
            - 1] is Some {
            1int
        } else {
            0int
        },
    decreases upto,
{
    if upto > 1 {
        lemma_conservation(candles, dirs, upto - 1);
        match outcome_at(candles, dirs, upto - 1) {
            Outcome::Skipped(reason) => {
                match reason {
                    SkipReason::OutsideWindow => {},
                    SkipReason::InsufficientHistory => {},
                    SkipReason::InvalidRisk => {},
                    SkipReason::InvalidSameCandle => {},
                    SkipReason::NoExit => {},
                }
            },
            _ => {},
        }
    }
}

} // verus!
