use core::str::FromStr;
use profit_tracker::date::Date;
use profit_tracker::model::Action;
use profit_tracker::normalize::{assign_campaign, Broker, CsvProcessor};

fn d(y: u32, m: u32, day: u32) -> Date {
    Date::from_ymd(y, m, day).unwrap()
}

fn row(cols: &[&str]) -> Vec<String> {
    cols.iter().map(|c| c.to_string()).collect()
}

#[test]
fn broker_names_round_trip() {
    assert_eq!(Broker::from_str("etrade"), Some(Broker::ETrade));
    assert_eq!(Broker::from_str("ETrade"), Some(Broker::ETrade));
    assert_eq!(Broker::from_str("ROBINHOOD"), Some(Broker::Robinhood));
    assert_eq!(Broker::from_str("fidelity"), None);
    assert_eq!(Broker::ETrade.as_str(), "etrade");
    assert_eq!(Broker::Robinhood.as_str(), "robinhood");
    assert_eq!(Broker::supported_brokers(), vec!["etrade", "robinhood"]);
}

#[test]
fn unknown_broker_message_lists_supported() {
    let err = <Broker as FromStr>::from_str("fidelity").unwrap_err();
    assert_eq!(
        err,
        "Invalid broker: 'fidelity'. Supported brokers: etrade, robinhood"
    );
}

#[test]
fn etrade_row_normalizes_to_trade_record() {
    let today = d(2025, 7, 7);
    let p = CsvProcessor::new(Broker::ETrade);
    let rows = vec![row(&[
        "07/03/25 10:00:00 AM",
        "Sold",
        "",
        "",
        "15 Put NVTS 07/03/25 6.500 @ $0.18",
        "",
        "",
        "$270.00",
    ])];
    let trades = p.process_rows(&rows, today);
    assert_eq!(trades.len(), 1);
    let t = &trades[0];
    assert_eq!(t.symbol, "NVTS");
    assert_eq!(t.action, Action::SellPut);
    assert_eq!(t.strike, 65_000);
    assert_eq!(t.expiration_date, d(2025, 7, 3));
    assert_eq!(t.date_of_action, d(2025, 7, 3));
    assert_eq!(t.number_of_shares, 1_500);
    assert_eq!(t.credit, 1_800);
    assert_eq!(t.campaign, "NVTS");
}

#[test]
fn etrade_verbs_and_signs() {
    let today = d(2025, 7, 7);
    let p = CsvProcessor::new(Broker::ETrade);
    let rows = vec![
        row(&[
            "07/03/25 10:00:00 AM",
            "Bought To Cover",
            "",
            "",
            "2 Call RKLB 07/18/25 40.000 @ $1.00",
            "",
            "",
            "($200.00)",
        ]),
        row(&[
            "07/03/25 10:00:00 AM",
            "Sold Short",
            "",
            "",
            "3 Call HOOD 07/18/25 90.000 @ $1.00",
            "",
            "",
            "$1,500.00",
        ]),
    ];
    let trades = p.process_rows(&rows, today);
    assert_eq!(trades.len(), 2);
    assert_eq!(trades[0].action, Action::BuyCall);
    // ($200.00) is negative: -2_000_000 over 200 shares.
    assert_eq!(trades[0].credit, -10_000);
    assert_eq!(trades[1].action, Action::SellCall);
    // The thousands comma is ignored: $1,500.00 over 300 shares.
    assert_eq!(trades[1].credit, 50_000);
    assert_eq!(trades[1].strike, 900_000);
}

#[test]
fn etrade_skips_unrecognizable_rows() {
    let today = d(2025, 7, 7);
    let p = CsvProcessor::new(Broker::ETrade);
    let rows = vec![
        // A stock trade: the description has no Put or Call mark.
        row(&[
            "07/03/25 10:00:00 AM",
            "Bought",
            "",
            "",
            "TSLA 100 shares market order",
            "",
            "",
            "$25,000.00",
        ]),
        // An unknown verb.
        row(&[
            "07/03/25 10:00:00 AM",
            "Transferred",
            "",
            "",
            "15 Put NVTS 07/03/25 6.500 @ $0.18",
            "",
            "",
            "$270.00",
        ]),
        // Too few columns.
        row(&["07/03/25 10:00:00 AM", "Sold"]),
        // A zero quantity cannot carry a per-share credit.
        row(&[
            "07/03/25 10:00:00 AM",
            "Sold",
            "",
            "",
            "0 Put NVTS 07/03/25 6.500 @ $0.18",
            "",
            "",
            "$270.00",
        ]),
    ];
    assert!(p.process_rows(&rows, today).is_empty());
}

#[test]
fn etrade_malformed_fields_take_defaults() {
    let today = d(2025, 7, 7);
    let p = CsvProcessor::new(Broker::ETrade);
    let rows = vec![row(&[
        "not a timestamp",
        "Sold",
        "",
        "",
        "1 Put XYZ 13/45/25 oops @ $0.18",
        "",
        "",
        "nonsense",
    ])];
    let trades = p.process_rows(&rows, today);
    assert_eq!(trades.len(), 1);
    let t = &trades[0];
    // Malformed strike and amount read as zero; bad dates become today.
    assert_eq!(t.strike, 0);
    assert_eq!(t.credit, 0);
    assert_eq!(t.expiration_date, today);
    assert_eq!(t.date_of_action, today);
}

#[test]
fn robinhood_row_normalizes_to_trade_record() {
    let today = d(2025, 7, 7);
    let p = CsvProcessor::new(Broker::Robinhood);
    let rows = vec![row(&[
        "6/20/2025",
        "",
        "",
        "AAPL",
        "AAPL 6/20/2025 Call $200",
        "STO",
        "2",
        "$300.00",
        "",
    ])];
    let trades = p.process_rows(&rows, today);
    assert_eq!(trades.len(), 1);
    let t = &trades[0];
    assert_eq!(t.symbol, "AAPL");
    assert_eq!(t.action, Action::SellCall);
    assert_eq!(t.strike, 2_000_000);
    assert_eq!(t.expiration_date, d(2025, 6, 20));
    assert_eq!(t.date_of_action, d(2025, 6, 20));
    assert_eq!(t.number_of_shares, 200);
    // $300.00 over 200 shares: $1.50 per share.
    assert_eq!(t.credit, 15_000);
    assert_eq!(t.campaign, "AAPL_2025-06-20");
}

#[test]
fn robinhood_assignment_code_wins_over_option_type() {
    let today = d(2025, 7, 7);
    let p = CsvProcessor::new(Broker::Robinhood);
    let rows = vec![
        row(&[
            "6/20/2025",
            "",
            "",
            "AAPL",
            "AAPL 6/20/2025 Call $200",
            "OASGN",
            "1",
            "$0.00",
            "",
        ]),
        row(&[
            "6/20/2025",
            "",
            "",
            "AAPL",
            "AAPL 6/20/2025 Put $200",
            "OASGN",
            "1",
            "$0.00",
            "",
        ]),
    ];
    let trades = p.process_rows(&rows, today);
    assert_eq!(trades.len(), 2);
    assert_eq!(trades[0].action, Action::Assigned);
    assert_eq!(trades[1].action, Action::Assigned);
}

#[test]
fn robinhood_codes_and_bracketed_amounts() {
    let today = d(2025, 7, 7);
    let p = CsvProcessor::new(Broker::Robinhood);
    let rows = vec![
        row(&[
            "6/20/2025",
            "",
            "",
            "AAPL",
            "AAPL 6/20/2025 Put $200",
            "BTC",
            "1",
            "$150.00",
            "($150.00)",
        ]),
        row(&[
            "6/20/2025",
            "",
            "",
            "AAPL",
            "AAPL 6/20/2025 Call $200",
            "STC",
            "1",
            "$80.00",
            "$80.00",
        ]),
        row(&[
            "6/20/2025",
            "",
            "",
            "AAPL",
            "AAPL 6/20/2025 Call $200",
            "BTO",
            "1",
            "$90.00",
            "$90.00",
        ]),
        row(&[
            "6/20/2025",
            "",
            "",
            "AAPL",
            "AAPL 6/20/2025 Call $200",
            "XFER",
            "1",
            "$90.00",
            "$90.00",
        ]),
    ];
    let trades = p.process_rows(&rows, today);
    assert_eq!(trades.len(), 3);
    assert_eq!(trades[0].action, Action::BuyPut);
    // The bracketed companion column makes the amount negative.
    assert_eq!(trades[0].credit, -15_000);
    assert_eq!(trades[1].action, Action::SellCall);
    assert_eq!(trades[2].action, Action::BuyCall);
}

#[test]
fn robinhood_symbol_is_word_suffix_and_strike_run_stops() {
    let today = d(2025, 7, 7);
    let p = CsvProcessor::new(Broker::Robinhood);
    let rows = vec![row(&[
        "6/20/2025",
        "",
        "",
        "",
        "pre: XYZ-AAPL 6/20/2025 Call $12.5x",
        "STO",
        "1",
        "$100.00",
        "",
    ])];
    let trades = p.process_rows(&rows, today);
    assert_eq!(trades.len(), 1);
    assert_eq!(trades[0].symbol, "AAPL");
    assert_eq!(trades[0].strike, 125_000);
}

#[test]
fn robinhood_skips_non_option_descriptions() {
    let today = d(2025, 7, 7);
    let p = CsvProcessor::new(Broker::Robinhood);
    let rows = vec![
        row(&[
            "6/20/2025",
            "",
            "",
            "AAPL",
            "Dividend payment",
            "DIV",
            "1",
            "$5.00",
            "",
        ]),
        row(&["6/20/2025", "", "", "AAPL", "AAPL 6/20/2025 Call $200", "STO"]),
    ];
    assert!(p.process_rows(&rows, today).is_empty());
}

#[test]
fn csv_text_is_split_with_header_and_quoting() {
    let today = d(2025, 7, 7);
    let p = CsvProcessor::new(Broker::ETrade);
    let text = "TransactionDate,TransactionType,SecurityType,Symbol,Description,Quantity,Price,Amount\n\
07/03/25 10:00:00 AM,Sold,OPTN,NVTS,\"15 Put NVTS 07/03/25 6.500 @ $0.18\",15,0.18,\"$1,270.00\"\n\
07/03/25 11:00:00 AM,Bought,EQ,TSLA,TSLA 100 shares,100,250.00,\"$25,000.00\"\n";
    let trades = p.process_text(text, today);
    // The header row is consumed; the quoted amount keeps its comma as
    // one field; the stock row is skipped.
    assert_eq!(trades.len(), 1);
    assert_eq!(trades[0].symbol, "NVTS");
    // $1,270.00 over 1500 shares, truncated: 12_700_000 / 1500.
    assert_eq!(trades[0].credit, 8_466);
}

#[test]
fn test_process_etrade_csv() {
    let today = d(2025, 7, 7);
    let processor = CsvProcessor::new(Broker::ETrade);
    let text = "TransactionDate,TransactionType,SecurityType,Symbol,Description,Quantity,Price,Amount\n\
07/03/25 10:00:00 AM,Sold,OPTN,NVTS,\"15 Put NVTS 07/03/25 6.500 @ $0.18\",15,0.18,$270.00\n\
07/02/25 10:00:00 AM,Sold,OPTN,RKLB,\"2 Call RKLB 07/18/25 40.000 @ $1.25\",2,1.25,$250.00\n\
07/01/25 10:00:00 AM,Bought,OPTN,HOOD,\"1 Put HOOD 07/18/25 90.000 @ $2.00\",1,2.00,($200.00)\n\
07/01/25 12:00:00 AM,Bought,EQ,TSLA,TSLA 100 shares market order,100,250.00,$25000.00\n";
    let trades = processor.process_text(text, today);
    assert!(!trades.is_empty(), "No trades were parsed from the CSV");

    let put_trades: Vec<_> = trades
        .iter()
        .filter(|t| t.symbol == "NVTS" && t.action == Action::SellPut)
        .collect();
    assert!(!put_trades.is_empty(), "No NVTS Put trades found");

    let nvts_trade = put_trades
        .iter()
        .find(|t| t.strike == 65_000 && t.number_of_shares == 1500)
        .expect("Expected NVTS Put trade with strike 6.5 and 1500 shares");
    assert_eq!(nvts_trade.symbol, "NVTS");
    assert_eq!(nvts_trade.action, Action::SellPut);
    assert_eq!(nvts_trade.strike, 65_000);
    assert_eq!(nvts_trade.number_of_shares, 1500);
    assert_eq!(nvts_trade.expiration_date, d(2025, 7, 3));

    let rklb_trades: Vec<_> = trades.iter().filter(|t| t.symbol == "RKLB").collect();
    assert!(!rklb_trades.is_empty(), "No RKLB trades found");

    let hood_trades: Vec<_> = trades.iter().filter(|t| t.symbol == "HOOD").collect();
    assert!(!hood_trades.is_empty(), "No HOOD trades found");

    let non_option_trades: Vec<_> = trades.iter().filter(|t| t.symbol == "TSLA").collect();
    assert!(
        non_option_trades.is_empty(),
        "Stock trades should be filtered out"
    );
}

#[test]
fn campaign_and_symbol_override_on_import() {
    let today = d(2025, 7, 7);
    let p = CsvProcessor::new(Broker::ETrade);
    let rows = vec![row(&[
        "07/03/25 10:00:00 AM",
        "Sold",
        "",
        "",
        "15 Put NVTS 07/03/25 6.500 @ $0.18",
        "",
        "",
        "$270.00",
    ])];
    let trades = assign_campaign(p.process_rows(&rows, today), "wheel-july", "NVTS");
    assert_eq!(trades.len(), 1);
    assert_eq!(trades[0].campaign, "wheel-july");
    assert_eq!(trades[0].symbol, "NVTS");
    assert_eq!(trades[0].credit, 1_800);
}

#[test]
fn credit_division_truncates_toward_zero() {
    let today = d(2025, 7, 7);
    let p = CsvProcessor::new(Broker::ETrade);
    let rows = vec![row(&[
        "07/03/25 10:00:00 AM",
        "Sold",
        "",
        "",
        "3 Put XYZ 07/18/25 10.000 @ $0.33",
        "",
        "",
        "$100.00",
    ])];
    let trades = p.process_rows(&rows, today);
    // 1_000_000 / 300 truncates to 3_333.
    assert_eq!(trades[0].credit, 3_333);
}
