use vstd::prelude::*;
use crate::loader::{loaded, parse_csv, sort_candles, sorted_by_time};
use crate::signal::{compute_x_dirs, signals_of};
use crate::simulate::{
    entries_ascend, ledger, renders, renders_all, simulate_trades, tallies_match,
};
use crate::text::{ends_with_folded, ends_with_ignoring_case};
use crate::timeframe::{infer_timeframe_minutes, median_gap};
use crate::stats::{
    summarize, summarizes,
    exit_count, gross_loss, gross_win, hold_total, longest_loss_run, longest_win_run, loss_count,
    loss_run, max_drawdown, net_r, peak, win_count, win_run,
};
use crate::types::{
    AnalysisError, Candle, Decoded, Direction, ExitReason, Report, Summary, TradeReport,
};

verus! {

/// The bytes begin with one of the three signatures of a zip archive.
pub open spec fn zip_like(bytes: Seq<u8>) -> bool {
    &&& bytes.len() >= 4
    &&& bytes[0] == 0x50
    &&& bytes[1] == 0x4b
    &&& (bytes[2] == 3 && bytes[3] == 4) || (bytes[2] == 5 && bytes[3] == 6) || (bytes[2] == 7
        && bytes[3] == 8)
}

/// Whether the bytes begin like a zip archive.
pub fn looks_like_zip(bytes: &[u8]) -> (r: bool)
    ensures
        r == zip_like(bytes@),
{
    bytes.len() >= 4 && bytes[0] == 0x50 && bytes[1] == 0x4b && ((bytes[2] == 3 && bytes[3] == 4)
        || (bytes[2] == 5 && bytes[3] == 6) || (bytes[2] == 7 && bytes[3] == 8))
}

/// The name marks a packaged spreadsheet document: it ends in `.numbers` or
/// in `.zip`, in letters of either case.
pub open spec fn packaged_name(file_name: Option<&str>) -> bool {
    match file_name {
        Some(name) => ends_with_folded(name@, ".numbers"@) || ends_with_folded(name@, ".zip"@),
        None => false,
    }
}

/// Whether the name marks a packaged spreadsheet document.
pub fn is_numbers_file(file_name: Option<&str>) -> (r: bool)
    ensures
        r == packaged_name(file_name),
{
    match file_name {
        Some(name) => ends_with_ignoring_case(name, ".numbers") || ends_with_ignoring_case(
            name,
            ".zip",
        ),
        None => false,
    }
}

/// Among the first `upto` tables, the index of the first one that holds the
/// most candles; none where no table holds a candle.
pub open spec fn best_table(tables: Seq<Seq<u8>>, upto: int) -> Option<int>
    decreases upto,
{
    if upto <= 0 {
        None
    } else {
        let held = loaded(tables[upto - 1]).len();
        match best_table(tables, upto - 1) {
            Some(b) => if held > loaded(tables[b]).len() {
                Some(upto - 1)
            } else {
                Some(b)
            },
            None => if held > 0 {
                Some(upto - 1)
            } else {
                None
            },
        }
    }
}

/// The table picked holds a candle, no table holds more, and no earlier
/// table holds as many. Where none is picked, no table holds a candle.
pub proof fn lemma_best_table(tables: Seq<Seq<u8>>, upto: int)
    requires
        0 <= upto <= tables.len(),
    ensures
        match best_table(tables, upto) {
            Some(b) => {
                &&& 0 <= b < upto
                &&& loaded(tables[b]).len() > 0
                &&& forall|k: int| 0 <= k < upto ==> loaded(#[trigger] tables[k]).len() <= loaded(
                    tables[b],
                ).len()
                &&& forall|k: int| 0 <= k < b ==> loaded(#[trigger] tables[k]).len() < loaded(
                    tables[b],
                ).len()
            },
            None => forall|k: int| 0 <= k < upto ==> loaded(#[trigger] tables[k]).len() == 0,
        },
    decreases upto,
{
    if upto > 0 {
        lemma_best_table(tables, upto - 1);
    }
}

/// The delimited text to analyse for a packaged document: the bytes must
/// begin like an archive, the decoder must have read the package and taken
/// out its tables, there must be a table, and one must hold a candle. Each
/// failure has its own error, looked for in this order.
pub open spec fn chosen_text(bytes: Seq<u8>, decoded: Decoded) -> Result<Seq<u8>, AnalysisError> {
    if !zip_like(bytes) {
        Err(AnalysisError::NotAnArchive)
    } else {
        match decoded {
            Decoded::Unreadable => Err(AnalysisError::DocumentParse),
            Decoded::Unextractable => Err(AnalysisError::TableExtract),
            Decoded::Tables(tables) => if tables@.len() == 0 {
                Err(AnalysisError::NoTables)
            } else {
                match best_table(tables.deep_view(), tables@.len() as int) {
                    Some(b) => Ok(tables@[b]@),
                    None => Err(AnalysisError::NoValidTable),
                }
            },
        }
    }
}

/// Picks the delimited text to analyse for a packaged document. `decoded` is
/// what the document decoder made of `bytes`.
pub fn numbers_to_csv(bytes: &[u8], decoded: Decoded) -> (r: Result<Vec<u8>, AnalysisError>)
    ensures
        match r {
            Ok(text) => chosen_text(bytes@, decoded) == Ok::<Seq<u8>, AnalysisError>(text@),
            Err(e) => chosen_text(bytes@, decoded) == Err::<Seq<u8>, AnalysisError>(e),
        },
{
    if !looks_like_zip(bytes) {
        return Err(AnalysisError::NotAnArchive);
    }
    let mut tables: Vec<Vec<u8>> = match decoded {
        Decoded::Unreadable => {
            return Err(AnalysisError::DocumentParse);
        },
        Decoded::Unextractable => {
            return Err(AnalysisError::TableExtract);
        },
        Decoded::Tables(tables) => tables,
    };
    let n: usize = tables.len();
    if n == 0 {
        return Err(AnalysisError::NoTables);
    }
    let ghost views = tables.deep_view();
    let mut best: Option<usize> = None;
    let mut best_len: usize = 0;
    let mut i: usize = 0;
    while i < n
        invariant
            i <= n,
            n == tables@.len(),
            views == tables.deep_view(),
            match best {
                Some(b) => best_table(views, i as int) == Some(b as int) && b < i && best_len
                    == loaded(views[b as int]).len(),
                None => best_table(views, i as int) is None && best_len == 0,
            },
        decreases n - i,
    {
        assert(views[i as int] == tables@[i as int]@);
        let held: usize = parse_csv(tables[i].as_slice()).len();
        if held > best_len {
            best_len = held;
            best = Some(i);
        }
        i = i + 1;
    }
    match best {
        Some(b) => {
            assert(views[b as int] == tables@[b as int]@);
            Ok(tables.swap_remove(b))
        },
        None => Err(AnalysisError::NoValidTable),
    }
}

/// `rep` is the report on the candles `candles`, which stand in ascending
/// order of time: its ledger is that of the simulation over their signals,
/// its tallies are the simulation's, and its summary is that of the ledger.
pub open spec fn reports(rep: Report, candles: Seq<Candle>) -> bool {
    &&& renders_all(
        rep.trades@,
        ledger(candles, signals_of(candles), candles.len() as int),
    )
    &&& tallies_match(rep.skipped, candles, signals_of(candles), candles.len() as int)
    &&& summarizes(rep.summary, candles, median_gap(candles), rep.trades@)
}

/// `r` is the result of analysing `bytes` as delimited text: an error where
/// they hold no candle, else the report on their candles in ascending order
/// of time.
pub open spec fn analysis_of(bytes: Seq<u8>, r: Result<Report, AnalysisError>) -> bool {
    if loaded(bytes).len() == 0 {
        r matches Err(e) && e == AnalysisError::NoValidRows
    } else {
        r matches Ok(rep) && reports(rep, sorted_by_time(loaded(bytes)))
    }
}

/// Analyses delimited text: loads the candles, sorts them, finds the
/// signals, simulates the trades and sums them up.
pub fn analyze_csv(bytes: &[u8]) -> (r: Result<Report, AnalysisError>)
    ensures
        analysis_of(bytes@, r),
        r is Ok ==> entries_ascend(
            ledger(
                sorted_by_time(loaded(bytes@)),
                signals_of(sorted_by_time(loaded(bytes@))),
                loaded(bytes@).len() as int,
            ),
        ),
{
    let mut candles: Vec<Candle> = parse_csv(bytes);
    if candles.len() == 0 {
        return Err(AnalysisError::NoValidRows);
    }
    sort_candles(&mut candles);
    let timeframe_minutes: Option<i64> = infer_timeframe_minutes(candles.as_slice());
    let x_dirs: Vec<Option<Direction>> = compute_x_dirs(candles.as_slice());
    let (trades, skipped) = simulate_trades(candles.as_slice(), x_dirs.as_slice());
    let summary: Summary = summarize(candles.as_slice(), timeframe_minutes, trades.as_slice());
    Ok(Report { summary, skipped, trades })
}

/// `r` is the result for an upload: of the bytes themselves, or, where the
/// name marks a packaged document, of the text chosen from what the decoder
/// made of them.
pub open spec fn input_analysis_of(
    bytes: Seq<u8>,
    file_name: Option<&str>,
    decoded: Decoded,
    r: Result<Report, AnalysisError>,
) -> bool {
    if packaged_name(file_name) {
        match chosen_text(bytes, decoded) {
            Ok(text) => analysis_of(text, r),
            Err(e) => r matches Err(f) && f == e,
        }
    } else {
        analysis_of(bytes, r)
    }
}

/// Analyses an upload. `decoded` is what the document decoder made of
/// `bytes`; it is read only where the name marks a packaged document.
pub fn analyze_input(bytes: &[u8], file_name: Option<&str>, decoded: Decoded) -> (r: Result<
    Report,
    AnalysisError,
>)
    ensures
        input_analysis_of(bytes@, file_name, decoded, r),
{
    if is_numbers_file(file_name) {
        match numbers_to_csv(bytes, decoded) {
            Ok(text) => analyze_csv(text.as_slice()),
            Err(e) => Err(e),
        }
    } else {
        analyze_csv(bytes)
    }
}

/// Two lines of a ledger read the same.
pub open spec fn same_row(a: TradeReport, b: TradeReport) -> bool {
    &&& a.entry_time@ == b.entry_time@
    &&& a.exit_time@ == b.exit_time@
    &&& a.direction == b.direction
    &&& a.entry_price == b.entry_price
    &&& a.exit_price == b.exit_price
    &&& a.sl == b.sl
    &&& a.risk == b.risk
    &&& a.r_multiple == b.r_multiple
    &&& a.exit_reason == b.exit_reason
    &&& a.x_time@ == b.x_time@
    &&& a.x_direction == b.x_direction
    &&& a.hold_minutes == b.hold_minutes
}

/// Two summaries read the same.
pub open spec fn same_summary(a: Summary, b: Summary) -> bool {
    &&& a.candles == b.candles
    &&& a.timeframe_minutes == b.timeframe_minutes
    &&& a.trades == b.trades
    &&& a.wins == b.wins
    &&& a.losses == b.losses
    &&& a.breakeven == b.breakeven
    &&& a.win_rate == b.win_rate
    &&& a.total_r == b.total_r
    &&& a.avg_r == b.avg_r
    &&& a.avg_win_r == b.avg_win_r
    &&& a.avg_loss_r == b.avg_loss_r
    &&& a.profit_factor == b.profit_factor
    &&& a.max_drawdown_r == b.max_drawdown_r
    &&& a.max_consecutive_wins == b.max_consecutive_wins
    &&& a.max_consecutive_losses == b.max_consecutive_losses
    &&& a.tp_exits == b.tp_exits
    &&& a.sl_exits == b.sl_exits
    &&& a.time_exits == b.time_exits
    &&& a.avg_hold_minutes == b.avg_hold_minutes
    &&& a.start_time@ == b.start_time@
    &&& a.end_time@ == b.end_time@
}

/// Two reports read the same: summary, tallies, and the ledger line by line.
pub open spec fn same_report(a: Report, b: Report) -> bool {
    &&& same_summary(a.summary, b.summary)
    &&& a.skipped == b.skipped
    &&& a.trades@.len() == b.trades@.len()
    &&& forall|k: int| 0 <= k < a.trades@.len() ==> same_row(#[trigger] a.trades@[k], b.trades@[k])
}

/// The result of an analysis depends on the bytes alone: any two results for
/// the same bytes are the same error, or reports that read the same.
pub proof fn lemma_analysis_determined(
    bytes: Seq<u8>,
    a: Result<Report, AnalysisError>,
    b: Result<Report, AnalysisError>,
)
    requires
        analysis_of(bytes, a),
        analysis_of(bytes, b),
    ensures
        match (a, b) {
            (Ok(x), Ok(y)) => same_report(x, y),
            (Err(e), Err(f)) => e == f,
            _ => false,
        },
{
    if loaded(bytes).len() > 0 {
        let x = a->Ok_0;
        let y = b->Ok_0;
        let candles = sorted_by_time(loaded(bytes));
        let trades = ledger(candles, signals_of(candles), candles.len() as int);
        assert forall|k: int| 0 <= k < x.trades@.len() implies same_row(
            #[trigger] x.trades@[k],
            y.trades@[k],
        ) by {
            assert(renders(x.trades@[k], trades[k]));
            assert(renders(y.trades@[k], trades[k]));
        }
        lemma_same_figures(x.trades@, y.trades@);
    }
}

/// Ledgers that read the same line by line have the same figures.
proof fn lemma_same_figures(a: Seq<TradeReport>, b: Seq<TradeReport>)
    requires
        a.len() == b.len(),
        forall|k: int| 0 <= k < a.len() ==> same_row(#[trigger] a[k], b[k]),
    ensures
        win_count(a) == win_count(b),
        loss_count(a) == loss_count(b),
        gross_win(a) == gross_win(b),
        gross_loss(a) == gross_loss(b),
        net_r(a) == net_r(b),
        hold_total(a) == hold_total(b),
        win_run(a) == win_run(b),
        loss_run(a) == loss_run(b),
        longest_win_run(a) == longest_win_run(b),
        longest_loss_run(a) == longest_loss_run(b),
        peak(a) == peak(b),
        max_drawdown(a) == max_drawdown(b),
        exit_count(a, ExitReason::Tp) == exit_count(b, ExitReason::Tp),
        exit_count(a, ExitReason::Sl) == exit_count(b, ExitReason::Sl),
        exit_count(a, ExitReason::Time) == exit_count(
            b,
            ExitReason::Time,
        ),
    decreases a.len(),
{
    if a.len() > 0 {
        let x = a.drop_last();
        let y = b.drop_last();
        assert forall|k: int| 0 <= k < x.len() implies same_row(#[trigger] x[k], y[k]) by {
            assert(x[k] == a[k] && y[k] == b[k]);
        }
        lemma_same_figures(x, y);
        assert(same_row(a[a.len() - 1], b[a.len() - 1]));
    }
}

} // verus!
