use vstd::prelude::*;

verus! {

/// Number of fixed-point steps in one price unit.
pub const PRICE_SCALE: i64 = 1_000_000;

/// Number of fixed-point steps in one unit of risk (1 R).
pub const R_SCALE: i64 = 1_000_000;

/// Nanoseconds in one second.
pub const NANOS_PER_SECOND: u32 = 1_000_000_000;

/// First representable instant: 0000-01-01 00:00:00.
pub const TIME_MIN: i64 = -62_167_219_200;

/// Last representable instant: 9999-12-31 23:59:59.
pub const TIME_MAX: i64 = 253_402_300_799;

/// Side of a position or of a signal.
#[derive(Debug, Clone, Copy, PartialEq, Eq, Structural)]
pub enum Direction {
    Long,
    Short,
}

/// Why a position was closed.
#[derive(Debug, Clone, Copy, PartialEq, Eq, Structural)]
pub enum ExitReason {
    /// An opposing signal closed the position at that candle's close.
    Tp,
    /// The stop level was crossed; the position closed at the stop.
    Sl,
    /// The daily cut-off time was reached; the position closed at the open.
    Time,
}

/// One OHLC record. `time` is in whole seconds and `nanos` is the fraction of
/// a second that follows it; the prices are in fixed-point steps.
#[derive(Debug, Clone, Copy, PartialEq, Eq, Structural)]
pub struct Candle {
    pub time: i64,
    pub nanos: u32,
    pub open: i64,
    pub high: i64,
    pub low: i64,
    pub close: i64,
}

pub open spec fn valid_time(t: i64) -> bool {
    TIME_MIN <= t <= TIME_MAX
}

impl Candle {
    /// The instant has a four-digit year and its fraction is less than a
    /// second. Nothing is asked of the prices.
    pub open spec fn wf(&self) -> bool {
        &&& valid_time(self.time)
        &&& self.nanos < 1_000_000_000
    }

    /// Whether the candle is well formed.
    pub fn is_wf(&self) -> (r: bool)
        ensures
            r == self.wf(),
    {
        TIME_MIN <= self.time && self.time <= TIME_MAX && self.nanos < NANOS_PER_SECOND
    }
}

pub open spec fn all_wf(candles: Seq<Candle>) -> bool {
    forall|i: int| 0 <= i < candles.len() ==> (#[trigger] candles[i]).wf()
}

/// One closed position, with its instants in seconds.
#[derive(Debug, Clone, Copy, PartialEq, Eq, Structural)]
pub struct Trade {
    pub entry_time: i64,
    pub exit_time: i64,
    pub direction: Direction,
    pub entry_price: i64,
    pub exit_price: i64,
    /// Stop level.
    pub sl: i64,
    /// Distance from entry to stop; positive.
    pub risk: i128,
    /// Signed result in millionths of the risk, rounded away from zero and
    /// held within the range of `i64`.
    pub r_multiple: i64,
    pub exit_reason: ExitReason,
    /// Time of the candle that gave the signal.
    pub x_time: i64,
    pub x_direction: Direction,
    pub hold_minutes: i64,
}

impl Trade {
    /// The three instants of the trade have four-digit years.
    pub open spec fn timed(&self) -> bool {
        valid_time(self.entry_time) && valid_time(self.exit_time) && valid_time(self.x_time)
    }
}

/// One line of the ledger as it is reported: a closed position with its
/// instants written out to the minute.
#[derive(Debug, Clone, PartialEq, Eq)]
pub struct TradeReport {
    pub entry_time: String,
    pub exit_time: String,
    pub direction: Direction,
    pub entry_price: i64,
    pub exit_price: i64,
    /// Stop level.
    pub sl: i64,
    /// Distance from entry to stop; positive.
    pub risk: i128,
    /// Signed result in millionths of the risk, rounded away from zero and
    /// held within the range of `i64`.
    pub r_multiple: i64,
    pub exit_reason: ExitReason,
    /// Time of the candle that gave the signal.
    pub x_time: String,
    pub x_direction: Direction,
    pub hold_minutes: i64,
}

/// Why a signal gave no trade.
#[derive(Debug, Clone, Copy, PartialEq, Eq, Structural)]
pub enum SkipReason {
    OutsideWindow,
    InsufficientHistory,
    InvalidRisk,
    InvalidSameCandle,
    NoExit,
}

/// What became of one candle index in the simulation.
#[derive(Debug, Clone, Copy, PartialEq, Eq, Structural)]
pub enum Outcome {
    /// The index holds no signal.
    Quiet,
    /// The signal sits on the last candle, so there is no candle to enter on.
    Dropped,
    Skipped(SkipReason),
    Traded(Trade),
}

/// Tallies of the signals that gave no trade, one per reason.
#[derive(Debug, Clone, Copy, PartialEq, Eq, Structural)]
pub struct Skipped {
    pub outside_window: usize,
    pub insufficient_history: usize,
    pub invalid_risk: usize,
    pub invalid_same_candle: usize,
    pub no_exit: usize,
}

impl Skipped {
    /// The tally kept for `reason`.
    pub open spec fn spec_count(&self, reason: SkipReason) -> usize {
        match reason {
            SkipReason::OutsideWindow => self.outside_window,
            SkipReason::InsufficientHistory => self.insufficient_history,
            SkipReason::InvalidRisk => self.invalid_risk,
            SkipReason::InvalidSameCandle => self.invalid_same_candle,
            SkipReason::NoExit => self.no_exit,
        }
    }

    /// The tally kept for `reason`.
    #[verifier::when_used_as_spec(spec_count)]
    pub fn count(&self, reason: SkipReason) -> (r: usize)
        ensures
            r == self.spec_count(reason),
    {
        match reason {
            SkipReason::OutsideWindow => self.outside_window,
            SkipReason::InsufficientHistory => self.insufficient_history,
            SkipReason::InvalidRisk => self.invalid_risk,
            SkipReason::InvalidSameCandle => self.invalid_same_candle,
            SkipReason::NoExit => self.no_exit,
        }
    }

    /// Sum of the five tallies.
    pub open spec fn total(&self) -> int {
        self.outside_window + self.insufficient_history + self.invalid_risk
            + self.invalid_same_candle + self.no_exit
    }

    /// Adds one to the tally of `reason` and leaves the other four alone.
    pub fn record(&mut self, reason: SkipReason)
        requires
            old(self).spec_count(reason) < usize::MAX,
        ensures
            final(self).spec_count(reason) == old(self).spec_count(reason) + 1,
            forall|other: SkipReason|
                other != reason ==> final(self).spec_count(other) == old(self).spec_count(other),
    {
        match reason {
            SkipReason::OutsideWindow => {
                self.outside_window = self.outside_window + 1;
            },
            SkipReason::InsufficientHistory => {
                self.insufficient_history = self.insufficient_history + 1;
            },
            SkipReason::InvalidRisk => {
                self.invalid_risk = self.invalid_risk + 1;
            },
            SkipReason::InvalidSameCandle => {
                self.invalid_same_candle = self.invalid_same_candle + 1;
            },
            SkipReason::NoExit => {
                self.no_exit = self.no_exit + 1;
            },
        }
    }
}

impl Default for Skipped {
    fn default() -> (r: Skipped)
        ensures
            r.outside_window == 0,
            r.insufficient_history == 0,
            r.invalid_risk == 0,
            r.invalid_same_candle == 0,
            r.no_exit == 0,
    {
        Skipped {
            outside_window: 0,
            insufficient_history: 0,
            invalid_risk: 0,
            invalid_same_candle: 0,
            no_exit: 0,
        }
    }
}

/// An exact quotient of two integers. The denominator is positive.
#[derive(Debug, Clone, Copy, PartialEq, Eq, Structural)]
pub struct Ratio {
    pub num: i128,
    pub den: i128,
}

impl Ratio {
    pub open spec fn wf(&self) -> bool {
        self.den > 0
    }

    /// The ratio is `num / den`, written with these very numbers, or `0 / 1`
    /// where `den` is zero.
    pub open spec fn is_quotient(&self, num: int, den: int) -> bool {
        if den == 0 {
            self.num == 0 && self.den == 1
        } else {
            self.num == num && self.den == den
        }
    }
}

/// Aggregate figures of one run. Sums of R-multiples are in millionths of one
/// unit of risk, averages and rates are exact quotients.
#[derive(Debug, Clone, PartialEq, Eq)]
pub struct Summary {
    pub candles: usize,
    pub timeframe_minutes: Option<i64>,
    pub trades: usize,
    pub wins: usize,
    pub losses: usize,
    pub breakeven: usize,
    pub win_rate: Ratio,
    pub total_r: i128,
    pub avg_r: Ratio,
    pub avg_win_r: Ratio,
    pub avg_loss_r: Ratio,
    pub profit_factor: Option<Ratio>,
    pub max_drawdown_r: i128,
    pub max_consecutive_wins: usize,
    pub max_consecutive_losses: usize,
    pub tp_exits: usize,
    pub sl_exits: usize,
    pub time_exits: usize,
    pub avg_hold_minutes: Ratio,
    pub start_time: String,
    pub end_time: String,
}

/// The result of one run.
#[derive(Debug, Clone, PartialEq, Eq)]
pub struct Report {
    pub summary: Summary,
    pub skipped: Skipped,
    pub trades: Vec<TradeReport>,
}

/// Why a run gave no report.
#[derive(Debug, Clone, Copy, PartialEq, Eq, Structural)]
pub enum AnalysisError {
    /// The input holds no candle.
    NoValidRows,
    /// A packaged document was announced, but the bytes do not begin like an
    /// archive.
    NotAnArchive,
    /// The document decoder could not read the package.
    DocumentParse,
    /// The document decoder could not take the tables out of the package.
    TableExtract,
    /// The document holds no table.
    NoTables,
    /// No table of the document holds a candle.
    NoValidTable,
}

impl AnalysisError {
    /// The message of the error, as a client is to read it.
    pub fn message(&self) -> (r: &'static str)
        ensures
            r@ == match *self {
                AnalysisError::NoValidRows => "No valid rows parsed from input."@,
                AnalysisError::NotAnArchive =>
                "This .numbers file looks like a package directory. Export as CSV or compress it to .zip first."@,
                AnalysisError::DocumentParse => "failed to parse .numbers file"@,
                AnalysisError::TableExtract => "failed to extract tables from .numbers"@,
                AnalysisError::NoTables => "No tables found in .numbers file."@,
                AnalysisError::NoValidTable => "No valid table found in .numbers file."@,
            },
    {
        match self {
            AnalysisError::NoValidRows => "No valid rows parsed from input.",
            AnalysisError::NotAnArchive =>
            "This .numbers file looks like a package directory. Export as CSV or compress it to .zip first.",
            AnalysisError::DocumentParse => "failed to parse .numbers file",
            AnalysisError::TableExtract => "failed to extract tables from .numbers",
            AnalysisError::NoTables => "No tables found in .numbers file.",
            AnalysisError::NoValidTable => "No valid table found in .numbers file.",
        }
    }
}

/// What the document decoder made of a packaged document.
#[derive(Debug, Clone, PartialEq, Eq)]
pub enum Decoded {
    /// The decoder could not read the package.
    Unreadable,
    /// The decoder read the package but could not take its tables out.
    Unextractable,
    /// The tables of the document, each as delimited text.
    Tables(Vec<Vec<u8>>),
}

} // verus!
