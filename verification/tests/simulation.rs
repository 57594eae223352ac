use reversal_backtest::{
    compute_x_dirs, is_entry_window, resolve_signal, simulate_trades, Candle, Direction,
    ExitReason, Outcome, SkipReason, Skipped, TradeReport,
};

const DAY: i64 = 1_704_153_600; // 2024-01-02 00:00:00

fn at(hour: i64, minute: i64, second: i64) -> i64 {
    DAY + hour * 3_600 + minute * 60 + second
}

fn candle(time: i64, open: i64, high: i64, low: i64, close: i64) -> Candle {
    Candle { time, nanos: 0, open, high, low, close }
}

/// Prices given in hundredths of a unit.
fn cents(time: i64, open: i64, high: i64, low: i64, close: i64) -> Candle {
    candle(time, open * 10_000, high * 10_000, low * 10_000, close * 10_000)
}

fn setup() -> Vec<Candle> {
    vec![
        cents(at(9, 0, 0), 10_000, 10_100, 9_900, 10_000),
        cents(at(9, 5, 0), 10_000, 10_200, 9_700, 9_900),
        cents(at(9, 10, 0), 9_800, 10_400, 9_700, 10_300),
        cents(at(9, 15, 0), 10_300, 10_500, 10_100, 10_400),
    ]
}

fn run(candles: &[Candle]) -> (Vec<TradeReport>, Skipped) {
    let dirs = compute_x_dirs(candles);
    simulate_trades(candles, &dirs)
}

fn no_skips() -> Skipped {
    Skipped {
        outside_window: 0,
        insufficient_history: 0,
        invalid_risk: 0,
        invalid_same_candle: 0,
        no_exit: 0,
    }
}

#[test]
fn time_exit_scenario() {
    let mut candles = setup();
    candles.push(cents(at(14, 5, 0), 11_000, 11_100, 10_900, 11_000));
    let dirs = compute_x_dirs(&candles);
    assert_eq!(dirs, vec![None, None, Some(Direction::Long), None, None]);
    let (trades, skipped) = simulate_trades(&candles, &dirs);
    assert_eq!(skipped, no_skips());
    assert_eq!(trades.len(), 1);
    let t = &trades[0];
    assert_eq!(t.entry_time, "2024-01-02 09:15");
    assert_eq!(t.exit_time, "2024-01-02 14:05");
    assert_eq!(t.x_time, "2024-01-02 09:10");
    assert_eq!(t.direction, Direction::Long);
    assert_eq!(t.x_direction, Direction::Long);
    assert_eq!(t.entry_price, 103_000_000);
    assert_eq!(t.exit_price, 110_000_000);
    assert_eq!(t.sl, 97_000_000);
    assert_eq!(t.risk, 6_000_000);
    assert_eq!(t.r_multiple, 1_166_667);
    assert!((t.r_multiple as f64 / 1e6 - 7.0 / 6.0).abs() < 1e-6);
    assert_eq!(t.exit_reason, ExitReason::Time);
    assert_eq!(t.hold_minutes, 290);
}

#[test]
fn no_exit_scenario() {
    let candles = setup();
    let (trades, skipped) = run(&candles);
    assert!(trades.is_empty());
    assert_eq!(skipped, Skipped { no_exit: 1, ..no_skips() });
}

#[test]
fn entry_window_closes_after_half_past_eleven() {
    assert!(is_entry_window(at(0, 0, 0), 0));
    assert!(is_entry_window(at(11, 30, 0), 0));
    assert!(!is_entry_window(at(11, 30, 1), 0));
    assert!(!is_entry_window(at(23, 59, 59), 0));
    // A fraction of a second past the end is outside too.
    assert!(!is_entry_window(at(11, 30, 0), 1));
    assert!(!is_entry_window(at(11, 30, 0), 500_000_000));
    assert!(is_entry_window(at(11, 29, 59), 999_999_999));
    // A day before 1970 has the same window.
    assert!(is_entry_window(-86_400 + 41_400, 0));
    assert!(!is_entry_window(-86_400 + 41_401, 0));
}

#[test]
fn entry_at_half_past_eleven_is_accepted() {
    let mut candles = setup();
    candles[3].time = at(11, 30, 0);
    candles.push(cents(at(14, 0, 0), 10_400, 10_500, 10_300, 10_400));
    let (trades, skipped) = run(&candles);
    assert_eq!(skipped, no_skips());
    assert_eq!(trades.len(), 1);
    assert_eq!(trades[0].entry_time, "2024-01-02 11:30");
    assert_eq!(trades[0].exit_reason, ExitReason::Time);
    assert_eq!(trades[0].hold_minutes, 150);
}

#[test]
fn entry_one_second_later_is_outside_the_window() {
    let mut candles = setup();
    candles[3].time = at(11, 30, 1);
    candles.push(cents(at(14, 0, 0), 10_400, 10_500, 10_300, 10_400));
    let (trades, skipped) = run(&candles);
    assert!(trades.is_empty());
    assert_eq!(skipped, Skipped { outside_window: 1, ..no_skips() });
}

#[test]
fn stop_closes_at_the_stop_price() {
    let mut candles = setup();
    candles.push(cents(at(9, 20, 0), 10_400, 10_400, 9_600, 9_700));
    let (trades, skipped) = run(&candles);
    assert_eq!(skipped, no_skips());
    assert_eq!(trades.len(), 1);
    let t = &trades[0];
    assert_eq!(t.exit_reason, ExitReason::Sl);
    assert_eq!(t.exit_price, 97_000_000);
    assert_eq!(t.exit_time, "2024-01-02 09:20");
    assert_eq!(t.r_multiple, -1_000_000);
    assert_eq!(t.hold_minutes, 5);
}

#[test]
fn opposing_signal_closes_at_the_close() {
    let mut candles = setup();
    candles.push(cents(at(9, 20, 0), 10_400, 10_500, 10_350, 10_450));
    candles.push(cents(at(9, 25, 0), 11_000, 11_000, 10_380, 10_390));
    let dirs = compute_x_dirs(&candles);
    assert_eq!(dirs[5], Some(Direction::Short));
    let (trades, skipped) = simulate_trades(&candles, &dirs);
    // The short signal sits on the last candle and is dropped.
    assert_eq!(skipped, no_skips());
    assert_eq!(trades.len(), 1);
    let t = &trades[0];
    assert_eq!(t.exit_reason, ExitReason::Tp);
    assert_eq!(t.exit_price, 103_900_000);
    assert_eq!(t.r_multiple, 150_000);
    assert_eq!(t.hold_minutes, 10);
}

#[test]
fn stop_and_opposing_signal_on_one_candle_void_the_trade() {
    let mut candles = setup();
    candles.push(cents(at(9, 20, 0), 10_500, 10_500, 9_600, 10_200));
    let dirs = compute_x_dirs(&candles);
    assert_eq!(dirs[4], Some(Direction::Short));
    let (trades, skipped) = simulate_trades(&candles, &dirs);
    assert!(trades.is_empty());
    assert_eq!(skipped, Skipped { invalid_same_candle: 1, ..no_skips() });
}

#[test]
fn time_exit_comes_before_stop_and_signal() {
    let mut candles = setup();
    candles.push(cents(at(14, 0, 0), 10_500, 10_500, 9_600, 10_200));
    let (trades, skipped) = run(&candles);
    assert_eq!(skipped, no_skips());
    assert_eq!(trades.len(), 1);
    assert_eq!(trades[0].exit_reason, ExitReason::Time);
    assert_eq!(trades[0].exit_price, 105_000_000);
}

#[test]
fn entry_at_or_below_the_stop_is_an_invalid_risk() {
    let mut candles = setup();
    candles[3] = cents(at(9, 15, 0), 9_700, 10_500, 9_600, 10_400);
    candles.push(cents(at(14, 5, 0), 11_000, 11_100, 10_900, 11_000));
    let dirs = vec![None, None, Some(Direction::Long), None, None];
    let (trades, skipped) = simulate_trades(&candles, &dirs);
    assert!(trades.is_empty());
    assert_eq!(skipped, Skipped { invalid_risk: 1, ..no_skips() });
}

#[test]
fn signal_at_index_one_lacks_history() {
    let candles = vec![
        cents(at(9, 0, 0), 10_000, 10_100, 9_900, 10_050),
        cents(at(9, 5, 0), 9_900, 10_200, 9_800, 10_100),
        cents(at(9, 10, 0), 10_100, 10_200, 10_000, 10_150),
        cents(at(14, 0, 0), 10_100, 10_200, 10_000, 10_150),
    ];
    let dirs = compute_x_dirs(&candles);
    assert_eq!(dirs, vec![None, Some(Direction::Long), None, None]);
    let (trades, skipped) = simulate_trades(&candles, &dirs);
    assert!(trades.is_empty());
    assert_eq!(skipped, Skipped { insufficient_history: 1, ..no_skips() });
}

#[test]
fn scan_stops_at_the_end_of_the_entry_day() {
    let mut candles = setup();
    candles.push(cents(at(24 + 14, 0, 0), 11_000, 11_100, 10_900, 11_000));
    let (trades, skipped) = run(&candles);
    assert!(trades.is_empty());
    assert_eq!(skipped, Skipped { no_exit: 1, ..no_skips() });
}

#[test]
fn signal_on_the_last_candle_is_dropped() {
    let candles = setup()[..3].to_vec();
    let dirs = compute_x_dirs(&candles);
    assert_eq!(dirs[2], Some(Direction::Long));
    let (trades, skipped) = simulate_trades(&candles, &dirs);
    assert!(trades.is_empty());
    assert_eq!(skipped, no_skips());
    assert_eq!(resolve_signal(&candles, &dirs, 2), Outcome::Dropped);
    assert_eq!(resolve_signal(&candles, &dirs, 1), Outcome::Quiet);
}

#[test]
fn short_trade_mirrors_the_long_one() {
    let candles = vec![
        cents(at(9, 0, 0), 10_000, 10_100, 9_900, 10_000),
        cents(at(9, 5, 0), 10_000, 10_300, 9_800, 10_100),
        cents(at(9, 10, 0), 10_200, 10_300, 9_600, 9_700),
        cents(at(9, 15, 0), 9_700, 9_900, 9_500, 9_600),
        cents(at(14, 5, 0), 9_000, 9_100, 8_900, 9_000),
    ];
    let dirs = compute_x_dirs(&candles);
    assert_eq!(dirs, vec![None, None, Some(Direction::Short), None, None]);
    let (trades, skipped) = simulate_trades(&candles, &dirs);
    assert_eq!(skipped, no_skips());
    assert_eq!(trades.len(), 1);
    let t = &trades[0];
    assert_eq!(t.direction, Direction::Short);
    assert_eq!(t.sl, 103_000_000);
    assert_eq!(t.risk, 6_000_000);
    assert_eq!(t.exit_price, 90_000_000);
    assert_eq!(t.r_multiple, 1_166_667);
}

#[test]
fn resolve_signal_names_the_reason() {
    let candles = setup();
    let dirs = compute_x_dirs(&candles);
    assert_eq!(resolve_signal(&candles, &dirs, 2), Outcome::Skipped(SkipReason::NoExit));
    let mut skipped = no_skips();
    skipped.record(SkipReason::NoExit);
    skipped.record(SkipReason::InvalidRisk);
    skipped.record(SkipReason::NoExit);
    assert_eq!(skipped.count(SkipReason::NoExit), 2);
    assert_eq!(skipped.count(SkipReason::InvalidRisk), 1);
    assert_eq!(skipped.count(SkipReason::OutsideWindow), 0);
    assert_eq!(Skipped::default(), no_skips());
}

#[test]
fn doji_and_first_candle_hold_no_signal() {
    let candles = vec![
        cents(at(9, 0, 0), 9_800, 10_400, 9_700, 10_300),
        cents(at(9, 5, 0), 10_000, 10_100, 9_900, 10_000),
        cents(at(9, 10, 0), 10_000, 10_100, 9_900, 10_000),
        // Wicks reach beyond the candle before, the body does not.
        cents(at(9, 15, 0), 10_000, 10_900, 9_000, 10_000),
    ];
    assert_eq!(compute_x_dirs(&candles), vec![None, None, None, None]);
    assert_eq!(compute_x_dirs(&[]), Vec::<Option<Direction>>::new());
}

#[test]
fn every_signal_ends_in_exactly_one_way() {
    let mut candles = setup();
    candles.push(cents(at(9, 20, 0), 10_400, 10_500, 10_350, 10_450));
    candles.push(cents(at(9, 25, 0), 11_000, 11_000, 10_380, 10_390));
    candles.push(cents(at(9, 30, 0), 10_300, 11_100, 10_200, 11_050));
    let dirs = compute_x_dirs(&candles);
    let signals = dirs.iter().skip(1).filter(|d| d.is_some()).count();
    let dropped = if dirs[dirs.len() - 1].is_some() { 1 } else { 0 };
    let (trades, skipped) = simulate_trades(&candles, &dirs);
    let tallied = skipped.outside_window + skipped.insufficient_history + skipped.invalid_risk
        + skipped.invalid_same_candle + skipped.no_exit;
    assert_eq!(signals, 3);
    assert_eq!(trades.len() + tallied + dropped, signals);
    for pair in trades.windows(2) {
        assert!(pair[0].entry_time <= pair[1].entry_time);
    }
    for t in &trades {
        assert!(t.risk > 0);
        if t.r_multiple > 0 {
            assert!(match t.direction {
                Direction::Long => t.exit_price > t.entry_price,
                Direction::Short => t.exit_price < t.entry_price,
            });
        }
        if t.r_multiple < 0 {
            assert!(match t.direction {
                Direction::Long => t.exit_price < t.entry_price,
                Direction::Short => t.exit_price > t.entry_price,
            });
        }
    }
}

#[test]
fn candles_are_well_formed_within_the_years() {
    let good = candle(at(9, 0, 0), i64::MAX, i64::MIN, 0, 5);
    assert!(good.is_wf());
    assert!(candle(253_402_300_799, 1, 1, 1, 1).is_wf());
    assert!(candle(-62_167_219_200, 1, 1, 1, 1).is_wf());
    assert!(!candle(253_402_300_800, 1, 1, 1, 1).is_wf());
    assert!(!candle(-62_167_219_201, 1, 1, 1, 1).is_wf());
    let mut late = candle(0, 1, 1, 1, 1);
    late.nanos = 999_999_999;
    assert!(late.is_wf());
    late.nanos = 1_000_000_000;
    assert!(!late.is_wf());
}

#[test]
fn entry_a_fraction_past_half_past_eleven_is_outside() {
    let mut candles = setup();
    candles[3].time = at(11, 30, 0);
    candles[3].nanos = 500_000_000;
    candles.push(cents(at(14, 0, 0), 10_400, 10_500, 10_300, 10_400));
    let (trades, skipped) = run(&candles);
    assert!(trades.is_empty());
    assert_eq!(skipped, Skipped { outside_window: 1, ..no_skips() });
}

#[test]
fn hold_time_counts_the_fractions() {
    let mut candles = setup();
    candles[3].nanos = 900_000_000;
    let mut last = cents(at(14, 5, 0), 11_000, 11_100, 10_900, 11_000);
    last.nanos = 100_000_000;
    candles.push(last);
    let (trades, _) = run(&candles);
    assert_eq!(trades.len(), 1);
    // 290 minutes less eight tenths of a second.
    assert_eq!(trades[0].hold_minutes, 289);
}

#[test]
fn the_smallest_gain_is_a_win_and_the_smallest_loss_a_loss() {
    let mut candles = setup();
    candles.push(candle(at(14, 5, 0), 103_000_001, 103_000_001, 103_000_001, 103_000_001));
    let (trades, _) = run(&candles);
    assert_eq!(trades[0].r_multiple, 1);
    let mut candles = setup();
    candles.push(candle(at(14, 5, 0), 102_999_999, 102_999_999, 102_999_999, 102_999_999));
    let (trades, _) = run(&candles);
    assert_eq!(trades[0].r_multiple, -1);
    let mut candles = setup();
    candles.push(candle(at(14, 5, 0), 103_000_000, 103_000_000, 103_000_000, 103_000_000));
    let (trades, _) = run(&candles);
    assert_eq!(trades[0].r_multiple, 0);
}

#[test]
fn prices_of_any_size_are_simulated() {
    let candles = vec![
        candle(at(9, 0, 0), 0, 0, i64::MIN, 0),
        candle(at(9, 5, 0), 0, 0, 0, 0),
        candle(at(9, 10, 0), 0, 0, 0, 0),
        candle(at(9, 15, 0), i64::MAX, i64::MAX, 0, 0),
        candle(at(14, 0, 0), i64::MAX, 0, 0, 0),
    ];
    let dirs = vec![None, None, Some(Direction::Long), None, None];
    let (trades, skipped) = simulate_trades(&candles, &dirs);
    assert_eq!(skipped, no_skips());
    assert_eq!(trades.len(), 1);
    assert_eq!(trades[0].sl, i64::MIN);
    assert_eq!(trades[0].risk, i64::MAX as i128 - i64::MIN as i128);
    assert_eq!(trades[0].r_multiple, 0);

    // A result beyond what the field holds stays at its bound.
    let candles = vec![
        candle(at(9, 0, 0), 0, 0, 0, 0),
        candle(at(9, 5, 0), 0, 0, 0, 0),
        candle(at(9, 10, 0), 0, 0, 0, 0),
        candle(at(9, 15, 0), 1, 1, 1, 1),
        candle(at(14, 0, 0), i64::MAX, 0, 0, 0),
    ];
    let (trades, _) = simulate_trades(&candles, &dirs);
    assert_eq!(trades[0].risk, 1);
    assert_eq!(trades[0].r_multiple, i64::MAX);
    let shorts = vec![None, None, Some(Direction::Short), None, None];
    let candles = vec![
        candle(at(9, 0, 0), 0, 0, 0, 0),
        candle(at(9, 5, 0), 0, 0, 0, 0),
        candle(at(9, 10, 0), 0, 0, 0, 0),
        candle(at(9, 15, 0), -1, 0, 1, 1),
        candle(at(14, 0, 0), i64::MAX, 0, 0, 0),
    ];
    let (trades, _) = simulate_trades(&candles, &shorts);
    assert_eq!(trades[0].risk, 1);
    assert_eq!(trades[0].r_multiple, -i64::MAX);
}
