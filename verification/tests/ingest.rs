use risk_optima_core::decimal::parse_decimal;
use risk_optima_core::fixed::Fixed;
use risk_optima_core::ingest::contains_bytes;
use risk_optima_core::ingest::parse_amount;
use risk_optima_core::ingest::parse_direction;
use risk_optima_core::ingest::parse_mt5_csv;
use risk_optima_core::ingest::trade_from_record;
use risk_optima_core::ingest::trades_from_records;
use risk_optima_core::model::Direction;

fn raw(text: &str) -> Option<i64> {
    parse_decimal(text).map(|v| v.raw)
}

fn record(fields: &[&str]) -> Vec<String> {
    fields.iter().map(|f| f.to_string()).collect()
}

#[test]
fn decimals_are_read_to_nine_digits() {
    assert_eq!(raw("1.5"), Some(1_500_000_000));
    assert_eq!(raw("0"), Some(0));
    assert_eq!(raw("007"), Some(7_000_000_000));
    assert_eq!(raw("-0.25"), Some(-250_000_000));
    assert_eq!(raw("+3"), Some(3_000_000_000));
    assert_eq!(raw(".5"), Some(500_000_000));
    assert_eq!(raw("-.5"), Some(-500_000_000));
    assert_eq!(raw("5."), Some(5_000_000_000));
    assert_eq!(raw("1.08345"), Some(1_083_450_000));
    assert_eq!(raw("0.123456789"), Some(123_456_789));
    assert_eq!(raw("-0"), Some(0));
}

#[test]
fn digits_after_the_ninth_are_dropped() {
    assert_eq!(raw("0.1234567899"), Some(123_456_789));
    assert_eq!(raw("-0.1234567899"), Some(-123_456_789));
    assert_eq!(raw("0.0000000019"), Some(1));
    assert_eq!(raw("0.00000000099999"), Some(0));
    assert_eq!(raw("2.000000000000000000000000000001"), Some(2_000_000_000));
}

#[test]
fn texts_that_are_no_decimals_are_refused() {
    for text in ["", ".", "+", "-", "+.", "abc", "1e3", "1.2.3", "--1", "+-1", " 1", "1 ", "1,5", "0x10", "inf", "NaN", "1.5x", "1x.5", "٣"] {
        assert_eq!(raw(text), None, "{:?}", text);
    }
}

#[test]
fn decimals_out_of_range_saturate() {
    assert_eq!(raw("9223372036.854775807"), Some(i64::MAX));
    assert_eq!(raw("9223372036.854775806"), Some(i64::MAX - 1));
    assert_eq!(raw("9223372036.854775808"), Some(i64::MAX));
    assert_eq!(raw("-9223372036.854775808"), Some(i64::MIN));
    assert_eq!(raw("-9223372036.854775809"), Some(i64::MIN));
    assert_eq!(raw("-9223372036.854775807"), Some(i64::MIN + 1));
    assert_eq!(raw("9223372037"), Some(i64::MAX));
    assert_eq!(raw("-9223372037"), Some(i64::MIN));
    assert_eq!(raw("99999999999999999999999999999999999999999999999999"), Some(i64::MAX));
    assert_eq!(raw("-99999999999999999999999999999999999999999999999999.5"), Some(i64::MIN));
    assert_eq!(raw("00000000000000000000000000000000000000000000000001"), Some(1_000_000_000));
}

#[test]
fn amounts_default_to_zero() {
    assert_eq!(parse_amount("12.5").raw, 12_500_000_000);
    assert_eq!(parse_amount("n/a").raw, 0);
    assert_eq!(parse_amount("").raw, 0);
}

#[test]
fn the_side_is_sell_only_for_the_word_sell() {
    assert_eq!(parse_direction("Sell"), Direction::Sell);
    assert_eq!(parse_direction("sell"), Direction::Sell);
    assert_eq!(parse_direction("SELL"), Direction::Sell);
    assert_eq!(parse_direction("Buy"), Direction::Buy);
    assert_eq!(parse_direction("buy"), Direction::Buy);
    assert_eq!(parse_direction(""), Direction::Buy);
    assert_eq!(parse_direction("sells"), Direction::Buy);
    assert_eq!(parse_direction(" sell"), Direction::Buy);
    assert_eq!(parse_direction("balance"), Direction::Buy);
}

#[test]
fn a_run_of_bytes_is_found_wherever_it_stands() {
    assert!(contains_bytes(b"Positions", b"Positions"));
    assert!(contains_bytes(b"Open Positions:", b"Positions"));
    assert!(contains_bytes(b"PosPositions", b"Positions"));
    assert!(!contains_bytes(b"Position", b"Positions"));
    assert!(!contains_bytes(b"positions", b"Positions"));
    assert!(!contains_bytes(b"", b"Positions"));
    assert!(contains_bytes(b"", b""));
    assert!(contains_bytes(b"abc", b""));
    assert!(contains_bytes(b"aab", b"ab"));
}

#[test]
fn a_record_is_a_trade_with_eight_fields_and_no_section_title() {
    let full = record(&["EURUSD", "buy", "0.10", "1.08345", "1.08500", "15.50", "-0.70", "-0.12", "x"]);
    let trade = trade_from_record(&full).unwrap();
    assert_eq!(trade.symbol, "EURUSD");
    assert_eq!(trade.direction, Direction::Buy);
    assert_eq!(trade.volume, Fixed::from_raw(100_000_000));
    assert_eq!(trade.open_price, Fixed::from_raw(1_083_450_000));
    assert_eq!(trade.close_price, Fixed::from_raw(1_085_000_000));
    assert_eq!(trade.profit, Fixed::from_raw(15_500_000_000));
    assert_eq!(trade.commission, Some(Fixed::from_raw(-700_000_000)));
    assert_eq!(trade.swap, Some(Fixed::from_raw(-120_000_000)));

    assert!(trade_from_record(&record(&["EURUSD", "buy", "0.10", "1", "1", "1", "0"])).is_none());
    assert!(trade_from_record(&record(&[])).is_none());
    assert!(trade_from_record(&record(&["Positions", "", "", "", "", "", "", ""])).is_none());
    assert!(trade_from_record(&record(&["Closed Positions:", "", "", "", "", "", "", ""])).is_none());
}

#[test]
fn unreadable_fields_become_zero_or_absent() {
    let trade =
        trade_from_record(&record(&["XAUUSD", "Sell", "", "open", "1e3", "-", "", "free"])).unwrap();
    assert_eq!(trade.direction, Direction::Sell);
    assert_eq!(trade.volume.raw, 0);
    assert_eq!(trade.open_price.raw, 0);
    assert_eq!(trade.close_price.raw, 0);
    assert_eq!(trade.profit.raw, 0);
    assert_eq!(trade.commission, None);
    assert_eq!(trade.swap, None);
}

#[test]
fn trades_keep_the_order_of_their_records() {
    let records = vec![
        record(&["Positions", "", "", "", "", "", "", ""]),
        record(&["EURUSD", "buy", "1", "1", "1", "10", "", ""]),
        record(&["short", "row"]),
        record(&["GBPUSD", "sell", "1", "1", "1", "-20", "", ""]),
        record(&["USDJPY", "buy", "1", "1", "1", "30", "", ""]),
    ];
    let trades = trades_from_records(&records);
    let symbols: Vec<&str> = trades.iter().map(|t| t.symbol.as_str()).collect();
    assert_eq!(symbols, vec!["EURUSD", "GBPUSD", "USDJPY"]);
    let profits: Vec<i64> = trades.iter().map(|t| t.profit.raw).collect();
    assert_eq!(profits, vec![10_000_000_000, -20_000_000_000, 30_000_000_000]);
    assert!(trades_from_records(&Vec::new()).is_empty());
}

#[test]
fn an_export_is_read_without_its_header() {
    let content = "\
Symbol,Type,Volume,Open,Close,Profit,Commission,Swap
EURUSD,buy,0.10,1.08345,1.08500,15.50,-0.70,-0.12
Closed Positions,,,,,,,
\"XAU,USD\",sell,1.00,2400.5,2390.25,1025.00,,0
";
    let trades = parse_mt5_csv(content).unwrap();
    assert_eq!(trades.len(), 2);
    assert_eq!(trades[0].symbol, "EURUSD");
    assert_eq!(trades[0].profit.raw, 15_500_000_000);
    assert_eq!(trades[0].commission, Some(Fixed::from_raw(-700_000_000)));
    assert_eq!(trades[1].symbol, "XAU,USD");
    assert_eq!(trades[1].direction, Direction::Sell);
    assert_eq!(trades[1].open_price.raw, 2_400_500_000_000);
    assert_eq!(trades[1].commission, None);
    assert_eq!(trades[1].swap, Some(Fixed::zero()));
}

#[test]
fn an_export_of_short_records_has_no_trade() {
    let content = "Symbol,Type,Profit\nEURUSD,buy,15.50\nGBPUSD,sell,-3\n";
    assert!(parse_mt5_csv(content).unwrap().is_empty());
    assert!(parse_mt5_csv("").unwrap().is_empty());
    assert!(parse_mt5_csv("a,b,c,d,e,f,g,h\n").unwrap().is_empty());
}

#[test]
fn an_export_with_records_of_unequal_length_is_refused() {
    let content = "a,b,c,d,e,f,g,h\nEURUSD,buy,1,1,1,10,0,0\nEURUSD,buy,1\n";
    let error = parse_mt5_csv(content).unwrap_err();
    assert!(!error.message.is_empty());
}
