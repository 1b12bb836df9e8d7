use profit_tracker::aggregate::calculate_total_premium_sold;
use profit_tracker::date::Date;
use profit_tracker::model::{Action, Campaign, OptionTrade};
use profit_tracker::summary::{
    calculate_campaign_summary, calculate_weekly_premium, find_last_open_put,
    trades_in_progress_this_week,
};

fn d(y: u32, m: u32, day: u32) -> Date {
    Date::from_ymd(y, m, day).unwrap()
}

fn trade(
    symbol: &str,
    action: Action,
    strike: i64,
    exp: Date,
    act_date: Date,
    shares: i32,
    credit: i64,
) -> OptionTrade {
    OptionTrade {
        id: None,
        symbol: symbol.to_string(),
        campaign: symbol.to_string(),
        action,
        strike,
        delta: 0,
        expiration_date: exp,
        date_of_action: act_date,
        number_of_shares: shares,
        credit,
    }
}

#[test]
fn date_validity_and_day_numbers() {
    assert!(Date::from_ymd(2025, 2, 30).is_none());
    assert!(Date::from_ymd(2024, 2, 29).is_some());
    assert!(Date::from_ymd(2023, 2, 29).is_none());
    assert!(Date::from_ymd(2025, 13, 1).is_none());
    assert!(Date::from_ymd(0, 1, 1).is_none());
    let a = d(2025, 7, 3);
    let b = d(2025, 7, 7);
    assert_eq!(b.day_number() - a.day_number(), 4);
    // 2025-07-07 is a Monday, 2025-07-03 a Thursday.
    assert_eq!(b.iso_weekday(), 1);
    assert_eq!(a.iso_weekday(), 4);
    assert_eq!(d(2024, 2, 29).iso_string(), "2024-02-29");
    assert_eq!(d(987, 1, 5).iso_string(), "0987-01-05");
}

#[test]
fn total_premium_nets_sold_against_bought_per_group() {
    let exp = d(2025, 7, 18);
    let when = d(2025, 6, 2);
    let trades = vec![
        trade("AAA", Action::SellPut, 1_000_000, exp, when, 100, 10_000),
        trade("AAA", Action::BuyPut, 1_000_000, exp, when, 100, 4_000),
        trade("BBB", Action::SellCall, 500_000, exp, when, 200, 5_000),
        trade("AAA", Action::Assigned, 1_000_000, exp, when, 100, 99_999),
    ];
    // 10_000*100 - 4_000*100 + 5_000*200, with the assignment adding nothing.
    assert_eq!(calculate_total_premium_sold(&trades), 1_600_000);
}

#[test]
fn total_premium_invariant_under_reordering() {
    let exp = d(2025, 7, 18);
    let when = d(2025, 6, 2);
    let a = trade("AAA", Action::SellPut, 1_000_000, exp, when, 100, 10_000);
    let b = trade("AAA", Action::BuyPut, 1_000_000, exp, when, 100, 4_000);
    let c = trade("BBB", Action::SellCall, 500_000, exp, when, 200, 5_000);
    let one = vec![a.clone(), b.clone(), c.clone()];
    let two = vec![c, b, a];
    assert_eq!(
        calculate_total_premium_sold(&one),
        calculate_total_premium_sold(&two)
    );
}

#[test]
fn lifecycle_trades_contribute_nothing() {
    let exp = d(2025, 7, 18);
    let when = d(2025, 6, 2);
    let base = vec![trade("AAA", Action::SellPut, 1_000_000, exp, when, 100, 10_000)];
    let mut with_lifecycle = base.clone();
    with_lifecycle.push(trade("AAA", Action::Assigned, 1_000_000, exp, when, 100, 7_777));
    with_lifecycle.push(trade("AAA", Action::Exercised, 1_000_000, exp, when, 100, 8_888));
    assert_eq!(
        calculate_total_premium_sold(&base),
        calculate_total_premium_sold(&with_lifecycle)
    );
}

#[test]
fn break_even_from_single_open_put() {
    // Strike $100, 100 shares, credit $2.00: break-even $98.00.
    let exp = d(2025, 7, 18);
    let when = d(2025, 6, 2);
    let trades = vec![trade("AAA", Action::SellPut, 1_000_000, exp, when, 100, 20_000)];
    let today = d(2025, 6, 2);
    let (break_even, _, _, credits, pnl) = calculate_campaign_summary(&trades, None, today);
    assert_eq!(credits, 2_000_000);
    assert_eq!(pnl, 2_000_000);
    assert_eq!(break_even, Some(980_000));
}

#[test]
fn break_even_falls_back_to_assigned_cost() {
    let exp = d(2025, 7, 18);
    let when = d(2025, 6, 2);
    let trades = vec![
        trade("AAA", Action::SellPut, 1_000_000, exp, when, 100, 20_000),
        trade("AAA", Action::Assigned, 1_000_000, exp, when, 100, 1_000_000),
    ];
    // The put is assigned, so no open put remains; cost basis per
    // assigned share: (100_000_000 - 2_000_000) / 100 = $98.00.
    let (break_even, _, _, _, _) = calculate_campaign_summary(&trades, None, d(2025, 6, 30));
    assert_eq!(break_even, Some(980_000));
}

#[test]
fn break_even_absent_without_puts_or_assignments() {
    let exp = d(2025, 7, 18);
    let when = d(2025, 6, 2);
    let trades = vec![trade("AAA", Action::SellCall, 1_000_000, exp, when, 100, 20_000)];
    let (break_even, _, _, _, _) = calculate_campaign_summary(&trades, None, d(2025, 6, 30));
    assert_eq!(break_even, None);
}

#[test]
fn last_open_put_prefers_latest_date_then_later_position() {
    let exp = d(2025, 7, 18);
    let trades = vec![
        trade("AAA", Action::SellPut, 1_000_000, exp, d(2025, 6, 2), 100, 10_000),
        trade("AAA", Action::SellPut, 2_000_000, exp, d(2025, 6, 9), 100, 10_000),
        trade("AAA", Action::SellPut, 3_000_000, exp, d(2025, 6, 9), 100, 10_000),
    ];
    assert_eq!(find_last_open_put(&trades), Some(2));
    let mut assigned = trades.clone();
    assigned.push(trade("AAA", Action::Assigned, 3_000_000, exp, d(2025, 6, 10), 100, 0));
    // The latest put is assigned away; the tie partner at index 1 wins.
    assert_eq!(find_last_open_put(&assigned), Some(1));
}

#[test]
fn weeks_running_zero_for_trade_dated_today() {
    let today = d(2025, 7, 7);
    let trades = vec![trade(
        "AAA",
        Action::SellPut,
        1_000_000,
        d(2025, 7, 18),
        today,
        100,
        20_000,
    )];
    let (_, weeks, _, _, _) = calculate_campaign_summary(&trades, None, today);
    assert_eq!(weeks, 0);
}

#[test]
fn weeks_running_counts_whole_weeks() {
    let trades = vec![trade(
        "AAA",
        Action::SellPut,
        1_000_000,
        d(2025, 7, 18),
        d(2025, 6, 2),
        100,
        20_000,
    )];
    let (_, weeks, _, _, _) = calculate_campaign_summary(&trades, None, d(2025, 6, 30));
    assert_eq!(weeks, 4);
    let (_, weeks27, _, _, _) = calculate_campaign_summary(&trades, None, d(2025, 6, 29));
    assert_eq!(weeks27, 3);
}

#[test]
fn weeks_running_floors_negative_differences() {
    // The only trade is dated three days after today: the floor of
    // -3/7 is -1, not 0.
    let today = d(2025, 7, 7);
    let trades = vec![trade(
        "AAA",
        Action::SellPut,
        1_000_000,
        d(2025, 7, 18),
        d(2025, 7, 10),
        100,
        20_000,
    )];
    let (_, weeks, _, _, _) = calculate_campaign_summary(&trades, None, today);
    assert_eq!(weeks, -1);
    let (_, two_weeks_back, _, _, _) =
        calculate_campaign_summary(&trades, None, d(2025, 6, 29));
    assert_eq!(two_weeks_back, -2);
}

#[test]
fn empty_campaign_yields_no_derived_values() {
    let trades: Vec<OptionTrade> = Vec::new();
    let (break_even, weeks, ppw, credits, pnl) =
        calculate_campaign_summary(&trades, Some(1_000_000), d(2025, 7, 7));
    assert_eq!(break_even, None);
    assert_eq!(weeks, 0);
    assert_eq!(ppw, None);
    assert_eq!(credits, 0);
    assert_eq!(pnl, 0);
}

#[test]
fn profit_per_week_projection() {
    let exp = d(2025, 7, 18);
    let trades = vec![
        trade("AAA", Action::SellPut, 1_000_000, exp, d(2025, 6, 2), 100, 20_000),
        trade("AAA", Action::Assigned, 900_000, exp, d(2025, 6, 2), 100, 0),
    ];
    // Open put break-even $98.00; target $103.00; 100 assigned shares
    // over 4 weeks: (1_030_000 - 980_000) * 100 / 4.
    let (break_even, weeks, ppw, _, _) =
        calculate_campaign_summary(&trades, Some(1_030_000), d(2025, 6, 30));
    assert_eq!(break_even, Some(980_000));
    assert_eq!(weeks, 4);
    assert_eq!(ppw, Some(1_250_000));
}

#[test]
fn profit_per_week_needs_target_assignment_and_time() {
    let exp = d(2025, 7, 18);
    let no_assignment = vec![trade(
        "AAA",
        Action::SellPut,
        1_000_000,
        exp,
        d(2025, 6, 2),
        100,
        20_000,
    )];
    let (_, _, ppw, _, _) =
        calculate_campaign_summary(&no_assignment, Some(1_030_000), d(2025, 6, 30));
    assert_eq!(ppw, None);
    let with_assignment = vec![
        trade("AAA", Action::SellPut, 1_000_000, exp, d(2025, 6, 2), 100, 20_000),
        trade("AAA", Action::Assigned, 900_000, exp, d(2025, 6, 2), 100, 0),
    ];
    let (_, _, no_target, _, _) =
        calculate_campaign_summary(&with_assignment, None, d(2025, 6, 30));
    assert_eq!(no_target, None);
    let (_, weeks, same_week, _, _) =
        calculate_campaign_summary(&with_assignment, Some(1_030_000), d(2025, 6, 2));
    assert_eq!(weeks, 0);
    assert_eq!(same_week, None);
}

#[test]
fn weekly_premium_window_is_monday_to_sunday() {
    let today = d(2025, 7, 7);
    let when = d(2025, 6, 2);
    let on_monday = trade("AAA", Action::SellPut, 1_000_000, today, when, 100, 10_000);
    let eight_days_out = trade(
        "BBB",
        Action::SellPut,
        1_000_000,
        d(2025, 7, 15),
        when,
        100,
        7_000,
    );
    let on_sunday = trade(
        "CCC",
        Action::SellCall,
        1_000_000,
        d(2025, 7, 13),
        when,
        100,
        3_000,
    );
    let next_monday = trade(
        "DDD",
        Action::SellCall,
        1_000_000,
        d(2025, 7, 14),
        when,
        100,
        9_000,
    );
    let trades = vec![on_monday, eight_days_out, on_sunday, next_monday];
    // Only the Monday and Sunday expirations fall in the current week.
    assert_eq!(
        calculate_weekly_premium(&trades, today),
        10_000 * 100 + 3_000 * 100
    );
}

#[test]
fn week_filter_returns_matching_trades_in_order() {
    let today = d(2025, 7, 7);
    let when = d(2025, 6, 2);
    let inside = trade("AAA", Action::SellPut, 1_000_000, d(2025, 7, 9), when, 100, 10_000);
    let outside = trade("BBB", Action::SellPut, 1_000_000, d(2025, 8, 9), when, 100, 10_000);
    let sunday = trade("CCC", Action::SellCall, 1_000_000, d(2025, 7, 13), when, 100, 3_000);
    let picked = trades_in_progress_this_week(&vec![inside, outside, sunday], today);
    assert_eq!(picked.len(), 2);
    assert_eq!(picked[0].symbol, "AAA");
    assert_eq!(picked[1].symbol, "CCC");
}

#[test]
fn campaign_target_drives_projection() {
    let campaign = Campaign {
        name: "wheel".to_string(),
        symbol: "AAA".to_string(),
        target_exit_price: Some(1_030_000),
    };
    let exp = d(2025, 7, 18);
    let trades = vec![
        trade("AAA", Action::SellPut, 1_000_000, exp, d(2025, 6, 2), 100, 20_000),
        trade("AAA", Action::Assigned, 900_000, exp, d(2025, 6, 2), 100, 0),
    ];
    let (_, _, ppw, _, _) =
        calculate_campaign_summary(&trades, campaign.target_exit_price, d(2025, 6, 30));
    assert_eq!(ppw, Some(1_250_000));
}
