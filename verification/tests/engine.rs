use reversal_backtest::loader::sort_candles;
use reversal_backtest::{
    analyze_csv, analyze_input, is_numbers_file, looks_like_zip, numbers_to_csv, AnalysisError,
    Candle, Decoded, Direction, ExitReason, Ratio, Skipped,
};

const DAY: i64 = 1_704_153_600; // 2024-01-02 00:00:00

const SCENARIO: &str = "Downloaded from example.com,,,,\n\
                        Time,Open,High,Low,Close\n\
                        2024-01-02 08:00,100,101,99,100\n\
                        2024-01-02 08:05,100,102,97,99\n\
                        \"2024-01-02 08:10\",98,104,97,103\n\
                        2024-01-02 08:15:00,103,105,101,104\n\
                        2024-01-02 13:05:00.000,110,111,109,110\n";

const ARCHIVE: &[u8] = b"PK\x03\x04rest";

fn no_skips() -> Skipped {
    Skipped {
        outside_window: 0,
        insufficient_history: 0,
        invalid_risk: 0,
        invalid_same_candle: 0,
        no_exit: 0,
    }
}

fn flat(time: i64, open: i64) -> Candle {
    Candle { time, nanos: 0, open, high: open, low: open, close: open }
}

#[test]
fn report_of_the_time_exit_scenario() {
    let report = analyze_csv(SCENARIO.as_bytes()).unwrap();
    assert_eq!(report.skipped, no_skips());
    assert_eq!(report.trades.len(), 1);
    let t = &report.trades[0];
    assert_eq!(t.entry_time, "2024-01-02 09:15");
    assert_eq!(t.exit_time, "2024-01-02 14:05");
    assert_eq!(t.x_time, "2024-01-02 09:10");
    assert_eq!(t.direction, Direction::Long);
    assert_eq!(t.entry_price, 103_000_000);
    assert_eq!(t.exit_price, 110_000_000);
    assert_eq!(t.sl, 97_000_000);
    assert_eq!(t.risk, 6_000_000);
    assert_eq!(t.r_multiple, 1_166_667);
    assert_eq!(t.exit_reason, ExitReason::Time);
    assert_eq!(t.hold_minutes, 290);
    let s = &report.summary;
    assert_eq!(s.candles, 5);
    assert_eq!(s.timeframe_minutes, Some(5));
    assert_eq!(s.trades, 1);
    assert_eq!((s.wins, s.losses, s.breakeven), (1, 0, 0));
    assert_eq!(s.win_rate, Ratio { num: 1, den: 1 });
    assert_eq!(s.total_r, 1_166_667);
    assert_eq!(s.avg_r, Ratio { num: 1_166_667, den: 1 });
    assert_eq!(s.avg_win_r, Ratio { num: 1_166_667, den: 1 });
    assert_eq!(s.avg_loss_r, Ratio { num: 0, den: 1 });
    assert_eq!(s.profit_factor, None);
    assert_eq!(s.max_drawdown_r, 0);
    assert_eq!((s.max_consecutive_wins, s.max_consecutive_losses), (1, 0));
    assert_eq!((s.tp_exits, s.sl_exits, s.time_exits), (0, 0, 1));
    assert_eq!(s.avg_hold_minutes, Ratio { num: 290, den: 1 });
    assert_eq!(s.start_time, "2024-01-02 09:00");
    assert_eq!(s.end_time, "2024-01-02 14:05");
}

#[test]
fn report_of_the_truncated_scenario() {
    let text: String = SCENARIO.lines().take(6).map(|l| format!("{}\n", l)).collect();
    let report = analyze_csv(text.as_bytes()).unwrap();
    assert!(report.trades.is_empty());
    assert_eq!(report.skipped, Skipped { no_exit: 1, ..no_skips() });
    assert_eq!(report.summary.candles, 4);
    assert_eq!(report.summary.trades, 0);
    assert_eq!(report.summary.end_time, "2024-01-02 09:15");
}

#[test]
fn records_are_sorted_before_the_analysis() {
    let mut lines: Vec<&str> = SCENARIO.lines().collect();
    lines.reverse();
    let text: String = lines.iter().map(|l| format!("{}\n", l)).collect();
    let shuffled = analyze_csv(text.as_bytes()).unwrap();
    let straight = analyze_csv(SCENARIO.as_bytes()).unwrap();
    assert_eq!(shuffled, straight);
}

#[test]
fn two_runs_give_the_same_report() {
    let first = analyze_csv(SCENARIO.as_bytes()).unwrap();
    let second = analyze_csv(SCENARIO.as_bytes()).unwrap();
    assert_eq!(first, second);
}

#[test]
fn sorting_keeps_candles_of_equal_time_in_order() {
    let mut candles = vec![
        flat(DAY + 120, 1),
        flat(DAY + 60, 2),
        flat(DAY + 120, 3),
        flat(DAY, 4),
        flat(DAY + 60, 5),
        flat(DAY + 120, 6),
    ];
    sort_candles(&mut candles);
    let opens: Vec<i64> = candles.iter().map(|c| c.open).collect();
    assert_eq!(opens, vec![4, 2, 5, 1, 3, 6]);
    // Within one second the fraction decides.
    let mut candles = vec![flat(DAY, 1), flat(DAY, 2), flat(DAY - 1, 3), flat(DAY, 4)];
    candles[0].nanos = 500;
    candles[1].nanos = 20;
    candles[2].nanos = 999_999_999;
    candles[3].nanos = 20;
    sort_candles(&mut candles);
    let opens: Vec<i64> = candles.iter().map(|c| c.open).collect();
    assert_eq!(opens, vec![3, 2, 4, 1]);
}

#[test]
fn input_without_a_candle_is_an_error() {
    assert_eq!(analyze_csv(b""), Err(AnalysisError::NoValidRows));
    assert_eq!(analyze_csv(b"Time,Open,High,Low,Close\n"), Err(AnalysisError::NoValidRows));
    assert_eq!(AnalysisError::NoValidRows.message(), "No valid rows parsed from input.");
}

#[test]
fn trades_come_out_in_order_of_entry() {
    let text = "2024-01-03 08:00,100,101,99,100\n\
                2024-01-03 08:05,100,102,97,99\n\
                2024-01-03 08:10,98,104,97,103\n\
                2024-01-03 08:15,103,105,101,104\n\
                2024-01-03 13:00,110,111,109,110\n\
                2024-01-02 08:00,100,101,99,100\n\
                2024-01-02 08:05,100,102,97,99\n\
                2024-01-02 08:10,98,104,97,103\n\
                2024-01-02 08:15,103,105,101,104\n\
                2024-01-02 13:00,110,111,109,110\n";
    let report = analyze_csv(text.as_bytes()).unwrap();
    let entries: Vec<&str> = report.trades.iter().map(|t| t.entry_time.as_str()).collect();
    assert_eq!(entries, vec!["2024-01-02 09:15", "2024-01-03 09:15"]);
    assert_eq!(report.summary.trades, 2);
    assert_eq!(report.summary.wins, 2);
    assert_eq!(report.summary.total_r, 2_333_334);
}

#[test]
fn names_of_packaged_documents() {
    assert!(is_numbers_file(Some("prices.numbers")));
    assert!(is_numbers_file(Some("PRICES.NUMBERS")));
    assert!(is_numbers_file(Some("prices.Zip")));
    assert!(is_numbers_file(Some(".numbers")));
    assert!(!is_numbers_file(Some("prices.csv")));
    assert!(!is_numbers_file(Some("numbers")));
    assert!(!is_numbers_file(Some("prices.numbers.csv")));
    assert!(!is_numbers_file(Some("")));
    assert!(!is_numbers_file(None));
}

#[test]
fn archive_signatures() {
    assert!(looks_like_zip(b"PK\x03\x04"));
    assert!(looks_like_zip(b"PK\x05\x06 and more"));
    assert!(looks_like_zip(b"PK\x07\x08"));
    assert!(!looks_like_zip(b"PK\x03\x05"));
    assert!(!looks_like_zip(b"PK\x05\x04"));
    assert!(!looks_like_zip(b"PK\x03"));
    assert!(!looks_like_zip(b"pk\x03\x04"));
    assert!(!looks_like_zip(b""));
}

#[test]
fn the_first_table_with_the_most_candles_is_chosen() {
    let one = b"2024-01-02 08:00,1,1,1,1\n".to_vec();
    let two_a = b"2024-01-02 08:00,2,2,2,2\n2024-01-02 08:05,2,2,2,2\n".to_vec();
    let two_b = b"2024-01-02 08:00,3,3,3,3\n2024-01-02 08:05,3,3,3,3\n".to_vec();
    let none = b"no,candles,here\n".to_vec();
    let tables = vec![none.clone(), one.clone(), two_a.clone(), two_b.clone()];
    assert_eq!(numbers_to_csv(ARCHIVE, Decoded::Tables(tables)), Ok(two_a.clone()));
    let tables = vec![two_b.clone(), two_a, one];
    assert_eq!(numbers_to_csv(ARCHIVE, Decoded::Tables(tables)), Ok(two_b));
}

#[test]
fn failures_of_a_packaged_document() {
    let table = b"2024-01-02 08:00,1,1,1,1\n".to_vec();
    assert_eq!(
        numbers_to_csv(b"plain", Decoded::Tables(vec![table])),
        Err(AnalysisError::NotAnArchive)
    );
    assert_eq!(numbers_to_csv(b"plain", Decoded::Unreadable), Err(AnalysisError::NotAnArchive));
    assert_eq!(numbers_to_csv(ARCHIVE, Decoded::Unreadable), Err(AnalysisError::DocumentParse));
    assert_eq!(numbers_to_csv(ARCHIVE, Decoded::Unextractable), Err(AnalysisError::TableExtract));
    assert_eq!(numbers_to_csv(ARCHIVE, Decoded::Tables(vec![])), Err(AnalysisError::NoTables));
    assert_eq!(
        numbers_to_csv(ARCHIVE, Decoded::Tables(vec![b"x\n".to_vec(), Vec::new()])),
        Err(AnalysisError::NoValidTable)
    );
}

#[test]
fn error_messages() {
    assert_eq!(
        AnalysisError::NotAnArchive.message(),
        "This .numbers file looks like a package directory. Export as CSV or compress it to .zip first."
    );
    assert_eq!(AnalysisError::DocumentParse.message(), "failed to parse .numbers file");
    assert_eq!(AnalysisError::TableExtract.message(), "failed to extract tables from .numbers");
    assert_eq!(AnalysisError::NoTables.message(), "No tables found in .numbers file.");
    assert_eq!(AnalysisError::NoValidTable.message(), "No valid table found in .numbers file.");
}

#[test]
fn uploads_are_analysed_by_their_name() {
    let direct = analyze_csv(SCENARIO.as_bytes()).unwrap();
    // Without a packaged name the bytes are the text, whatever the decoder says.
    assert_eq!(analyze_input(SCENARIO.as_bytes(), None, Decoded::Unreadable), Ok(direct.clone()));
    assert_eq!(
        analyze_input(SCENARIO.as_bytes(), Some("prices.csv"), Decoded::Unreadable),
        Ok(direct.clone())
    );
    // With one, the text comes from the decoder's tables.
    let tables = Decoded::Tables(vec![b"nothing\n".to_vec(), SCENARIO.as_bytes().to_vec()]);
    assert_eq!(analyze_input(ARCHIVE, Some("prices.numbers"), tables.clone()), Ok(direct));
    assert_eq!(
        analyze_input(SCENARIO.as_bytes(), Some("prices.numbers"), tables),
        Err(AnalysisError::NotAnArchive)
    );
    assert_eq!(
        analyze_input(ARCHIVE, Some("prices.zip"), Decoded::Unextractable),
        Err(AnalysisError::TableExtract)
    );
}

#[test]
fn a_fraction_past_the_window_skips_the_signal() {
    let text = SCENARIO.replace("2024-01-02 08:15:00,", "2024-01-02 10:30:00.5,");
    let report = analyze_csv(text.as_bytes()).unwrap();
    assert!(report.trades.is_empty());
    assert_eq!(report.skipped, Skipped { outside_window: 1, ..no_skips() });
    let text = SCENARIO.replace("2024-01-02 08:15:00,", "2024-01-02 10:30:00.0,");
    let report = analyze_csv(text.as_bytes()).unwrap();
    assert_eq!(report.trades.len(), 1);
    assert_eq!(report.trades[0].entry_time, "2024-01-02 11:30");
}

#[test]
fn large_prices_and_exponents_are_analysed() {
    let text = "2024-01-02 08:00,1e8,101000000,99000000,100000000\n\
                2024-01-02 08:05,100000000,102000000,97000000,9.9e7\n\
                2024-01-02 08:10,98000000,104000000,97000000,103000000\n\
                2024-01-02 08:15,103000000,105000000,101000000,104000000\n\
                2024-01-02 13:05,1.1E+8,111000000,109000000,110000000\n";
    let report = analyze_csv(text.as_bytes()).unwrap();
    assert_eq!(report.trades.len(), 1);
    let t = &report.trades[0];
    assert_eq!(t.entry_price, 103_000_000_000_000);
    assert_eq!(t.exit_price, 110_000_000_000_000);
    assert_eq!(t.risk, 6_000_000_000_000);
    assert_eq!(t.r_multiple, 1_166_667);
}
