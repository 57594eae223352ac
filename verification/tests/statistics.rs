use reversal_backtest::{
    infer_timeframe_minutes, summarize, Candle, Direction, ExitReason, Ratio, TradeReport,
};

const DAY: i64 = 1_704_153_600; // 2024-01-02 00:00:00

fn flat(time: i64) -> Candle {
    Candle { time, nanos: 0, open: 1_000_000, high: 1_000_000, low: 1_000_000, close: 1_000_000 }
}

fn trade(r_multiple: i64, exit_reason: ExitReason, hold_minutes: i64) -> TradeReport {
    TradeReport {
        entry_time: String::from("2024-01-02 09:15"),
        exit_time: String::from("2024-01-02 09:30"),
        direction: Direction::Long,
        entry_price: 100_000_000,
        exit_price: 101_000_000,
        sl: 99_000_000,
        risk: 1_000_000,
        r_multiple,
        exit_reason,
        x_time: String::from("2024-01-02 09:10"),
        x_direction: Direction::Long,
        hold_minutes,
    }
}

fn value(q: Ratio) -> f64 {
    q.num as f64 / q.den as f64
}

#[test]
fn summary_of_a_mixed_ledger() {
    let trades = vec![
        trade(1_000_000, ExitReason::Tp, 10),
        trade(500_000, ExitReason::Time, 20),
        trade(-1_000_000, ExitReason::Sl, 30),
        trade(0, ExitReason::Time, 40),
        trade(-250_000, ExitReason::Sl, 50),
        trade(-250_000, ExitReason::Sl, 60),
        trade(2_000_000, ExitReason::Tp, 70),
    ];
    let candles = vec![flat(DAY + 32_400), flat(DAY + 32_700), flat(DAY + 50_400)];
    let s = summarize(&candles, Some(5), &trades);
    assert_eq!(s.candles, 3);
    assert_eq!(s.timeframe_minutes, Some(5));
    assert_eq!(s.trades, 7);
    assert_eq!(s.wins, 3);
    assert_eq!(s.losses, 3);
    assert_eq!(s.breakeven, 1);
    assert_eq!(s.win_rate, Ratio { num: 3, den: 7 });
    assert_eq!(s.total_r, 2_000_000);
    assert_eq!(s.avg_r, Ratio { num: 2_000_000, den: 7 });
    assert_eq!(s.avg_win_r, Ratio { num: 3_500_000, den: 3 });
    assert_eq!(s.avg_loss_r, Ratio { num: -1_500_000, den: 3 });
    assert_eq!(s.profit_factor, Some(Ratio { num: 3_500_000, den: 1_500_000 }));
    assert_eq!(s.max_drawdown_r, -1_500_000);
    assert_eq!(s.max_consecutive_wins, 2);
    assert_eq!(s.max_consecutive_losses, 2);
    assert_eq!(s.tp_exits, 2);
    assert_eq!(s.sl_exits, 3);
    assert_eq!(s.time_exits, 2);
    assert_eq!(s.avg_hold_minutes, Ratio { num: 280, den: 7 });
    assert_eq!(s.start_time, "2024-01-02 09:00");
    assert_eq!(s.end_time, "2024-01-02 14:00");
    assert!((value(s.win_rate) - 3.0 / 7.0).abs() < 1e-12);
    assert!((value(s.profit_factor.unwrap()) - 7.0 / 3.0).abs() < 1e-12);
    assert!((value(s.avg_hold_minutes) - 40.0).abs() < 1e-12);
}

#[test]
fn summary_without_trades() {
    let s = summarize(&[], None, &[]);
    assert_eq!(s.candles, 0);
    assert_eq!(s.trades, 0);
    assert_eq!(s.win_rate, Ratio { num: 0, den: 1 });
    assert_eq!(s.avg_r, Ratio { num: 0, den: 1 });
    assert_eq!(s.avg_win_r, Ratio { num: 0, den: 1 });
    assert_eq!(s.avg_loss_r, Ratio { num: 0, den: 1 });
    assert_eq!(s.avg_hold_minutes, Ratio { num: 0, den: 1 });
    assert_eq!(s.profit_factor, None);
    assert_eq!(s.max_drawdown_r, 0);
    assert_eq!(s.total_r, 0);
    assert_eq!(s.start_time, "");
    assert_eq!(s.end_time, "");
}

#[test]
fn profit_factor_is_absent_without_a_loss() {
    let winners = vec![trade(1_000_000, ExitReason::Tp, 5), trade(0, ExitReason::Time, 5)];
    let s = summarize(&[], None, &winners);
    assert_eq!(s.losses, 0);
    assert_eq!(s.profit_factor, None);
    assert_eq!(s.avg_loss_r, Ratio { num: 0, den: 1 });
    assert_eq!(s.win_rate, Ratio { num: 1, den: 2 });
    assert_eq!(s.max_drawdown_r, 0);

    let losers = vec![trade(-1, ExitReason::Sl, 5)];
    let s = summarize(&[], None, &losers);
    assert_eq!(s.profit_factor, Some(Ratio { num: 0, den: 1 }));
    assert_eq!(s.win_rate, Ratio { num: 0, den: 1 });
    assert_eq!(s.avg_win_r, Ratio { num: 0, den: 1 });
    assert_eq!(s.max_drawdown_r, -1);
    assert_eq!(s.max_consecutive_losses, 1);
}

#[test]
fn win_rate_stays_between_zero_and_one() {
    let ledgers = vec![
        vec![],
        vec![trade(5, ExitReason::Tp, 1)],
        vec![trade(-5, ExitReason::Sl, 1)],
        vec![trade(5, ExitReason::Tp, 1), trade(-5, ExitReason::Sl, 1), trade(0, ExitReason::Time, 1)],
    ];
    for ledger in &ledgers {
        let s = summarize(&[], None, ledger);
        assert!(s.win_rate.den > 0);
        assert!(0 <= s.win_rate.num && s.win_rate.num <= s.win_rate.den);
        assert_eq!(s.wins + s.losses + s.breakeven, s.trades);
    }
}

#[test]
fn sums_do_not_overflow_at_the_extremes() {
    let trades = vec![
        trade(i64::MAX, ExitReason::Tp, i64::MAX),
        trade(i64::MAX, ExitReason::Tp, i64::MAX),
        trade(i64::MIN, ExitReason::Sl, i64::MIN),
        trade(i64::MIN, ExitReason::Sl, i64::MIN),
        trade(i64::MIN, ExitReason::Sl, i64::MIN),
    ];
    let s = summarize(&[], None, &trades);
    assert_eq!(s.total_r, 2 * (i64::MAX as i128) + 3 * (i64::MIN as i128));
    assert_eq!(s.max_drawdown_r, 3 * (i64::MIN as i128));
    assert_eq!(s.profit_factor, Some(Ratio { num: 2 * (i64::MAX as i128), den: -3 * (i64::MIN as i128) }));
}

#[test]
fn timeframe_is_the_lower_middle_gap() {
    let minutes = [0, 1, 3, 6, 10];
    let candles: Vec<Candle> = minutes.iter().map(|m| flat(DAY + m * 60)).collect();
    assert_eq!(infer_timeframe_minutes(&candles), Some(2));
    let minutes = [0, 4, 5, 25];
    let candles: Vec<Candle> = minutes.iter().map(|m| flat(DAY + m * 60)).collect();
    // Gaps 4, 1, 20: the middle one of 1, 4, 20.
    assert_eq!(infer_timeframe_minutes(&candles), Some(4));
}

#[test]
fn timeframe_is_unknown_without_a_positive_gap() {
    assert_eq!(infer_timeframe_minutes(&[]), None);
    assert_eq!(infer_timeframe_minutes(&[flat(DAY)]), None);
    assert_eq!(infer_timeframe_minutes(&[flat(DAY), flat(DAY)]), None);
    assert_eq!(infer_timeframe_minutes(&[flat(DAY), flat(DAY + 59)]), None);
    assert_eq!(infer_timeframe_minutes(&[flat(DAY + 600), flat(DAY)]), None);
    assert_eq!(infer_timeframe_minutes(&[flat(DAY), flat(DAY + 60)]), Some(1));
    // A fraction short of the minute is no whole minute.
    let mut early = flat(DAY);
    early.nanos = 1;
    assert_eq!(infer_timeframe_minutes(&[early, flat(DAY + 60)]), None);
}
