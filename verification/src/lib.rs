//! Backtesting engine for an intraday outside-bar reversal strategy.
//!
//! The engine loads OHLC candles from delimited text, finds the candles whose
//! body engulfs the body before them, simulates one position per signal under
//! fixed entry and exit rules, and sums the closed positions up.
//!
//! Prices are fixed-point integers in millionths of a price unit, as far as
//! 64 bits reach. Instants are whole seconds counted from 1970-01-01 00:00:00
//! on the data's own clock, with the nanoseconds behind them. R-multiples are
//! fixed-point integers in millionths of one unit of risk, rounded away from
//! zero so that their sign is the sign of the gain. Averages and rates are
//! exact quotients. The contracts are stated over these integers.
//!
//! Two outside crates and two sorts of the standard library are called
//! through items whose contracts are taken on trust: chrono reads and writes
//! the instants, csv splits the bytes into records.

pub mod clock;
pub mod engine;
pub mod loader;
pub mod numeral;
pub mod signal;
pub mod simulate;
pub mod stats;
pub mod text;
pub mod timeframe;
pub mod types;

pub use crate::clock::is_entry_window;
pub use crate::engine::{
    analyze_csv, analyze_input, is_numbers_file, looks_like_zip, numbers_to_csv,
};
pub use crate::loader::{parse_csv, parse_row, parse_time};
pub use crate::numeral::{parse_decimal, parse_price};
pub use crate::signal::compute_x_dirs;
pub use crate::simulate::{resolve_signal, simulate_trades};
pub use crate::stats::summarize;
pub use crate::timeframe::infer_timeframe_minutes;
pub use crate::types::{
    AnalysisError, Candle, Decoded, Direction, ExitReason, Outcome, Ratio, Report, SkipReason,
    Skipped, Summary, Trade, TradeReport,
};
