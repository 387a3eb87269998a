use hft_bot::backtest::market::Market;
use hft_bot::backtest::real_data::{
    has_complete_rows, load_market, market_title, parse_price, try_load_market, LoadError,
};
use hft_bot::decimal::Decimal;
use hft_bot::domain::types::Side;
use hft_bot::text::chars_of;

const HEADER: &str =
    "elapsed_secs,pm_price,ptb,up_bid,up_ask,down_bid,down_ask,up_bid_size,down_bid_size\n";

fn load(rows: &str) -> Result<Market, LoadError> {
    let content = format!("{}{}", HEADER, rows);
    assert!(has_complete_rows(&content));
    load_market(&content, "2026-05-22", "07_30_508877", "logs/2026-05-22/07_30_508877.csv")
}

fn complaint(result: Result<Market, LoadError>) -> String {
    match result {
        Err(LoadError::Malformed(text)) => text,
        _ => panic!(),
    }
}

#[test]
fn parses_snapshots_and_up_wins_when_price_above_ptb() {
    let market = load(
        "6,100.5,100.0,0.55,0.56,0.44,0.45,1000,800\n7,101.0,100.0,0.60,0.61,0.39,0.40,1200,600\n",
    )
    .unwrap();
    assert_eq!(market.snapshots.len(), 2);
    assert_eq!(market.winner, Side::Up);
    assert_eq!(market.snapshots[0].up.best_bid, Some(Decimal::new(55, 2)));
    assert_eq!(market.snapshots[1].down.best_ask, Some(Decimal::new(40, 2)));
    assert_eq!(market.snapshots[1].down.last_trade, None);
}

#[test]
fn down_wins_when_price_below_ptb() {
    let market = load("6,99.0,100.0,0.40,0.41,0.59,0.60,500,1000\n").unwrap();
    assert_eq!(market.winner, Side::Down);
}

#[test]
fn empty_book_fields_map_to_none() {
    let market = load("6,100.5,100.0,,0.56,,0.45,0,0\n").unwrap();
    let snap = &market.snapshots[0];
    assert!(snap.up.best_bid.is_none());
    assert!(snap.down.best_bid.is_none());
    assert!(snap.up.best_ask.is_some());
}

#[test]
fn missing_ptb_is_malformed() {
    let result = load("6,100.5,,0.55,0.56,0.44,0.45,1000,800\n");
    assert!(matches!(result, Err(LoadError::Malformed(_))));
}

#[test]
fn every_complaint_has_its_text() {
    assert_eq!(complaint(load_market("", "", "", "")), "空文件");
    assert_eq!(complaint(load_market("pm_price,ptb\n", "", "", "")), "缺少列 up_bid");
    assert_eq!(complaint(load("")), "无数据行");
    assert_eq!(complaint(load("too,short\n")), "无数据行");
    assert_eq!(complaint(load("6,1,,0.5,0.6,0.4,0.5,1,1\n")), "缺结算基准价 ptb");
}

#[test]
fn the_last_prices_decide_and_a_draw_goes_to_down() {
    let market = load("1,101,100,.5,.6,.4,.5,1,1\n2,,,.5,.6,.4,.5,1,1\n").unwrap();
    assert_eq!(market.winner, Side::Up);
    let market = load("1,100,100,.5,.6,.4,.5,1,1\n").unwrap();
    assert_eq!(market.winner, Side::Down);
    let market = load("1,,100,.5,.6,.4,.5,1,1\n").unwrap();
    assert_eq!(market.winner, Side::Down);
}

#[test]
fn line_endings_and_spaces_are_forgiven() {
    let content = "pm_price , ptb,up_bid,up_ask,down_bid,down_ask\r\n 1 ,2, 0.5 ,0.6,0.4,0.5\r\n";
    assert!(has_complete_rows(content));
    let market = load_market(content, "d", "x", "p").unwrap();
    assert_eq!(market.snapshots.len(), 1);
    assert_eq!(market.snapshots[0].up.best_bid, Some(Decimal::new(5, 1)));
}

#[test]
fn rows_that_end_too_early_are_noticed() {
    assert!(!has_complete_rows("down_ask,pm_price,ptb,up_bid,up_ask,down_bid\n1,2\n"));
    assert!(has_complete_rows("down_ask,pm_price,ptb,up_bid,up_ask,down_bid\n"));
    let short = "down_ask,pm_price,ptb,up_bid,up_ask,down_bid\n1,2\n";
    assert!(try_load_market(short, "d", "s", "p").is_none());
    let whole = "down_ask,pm_price,ptb,up_bid,up_ask,down_bid\n1,2,1,.1,.2,.3\n";
    let market = try_load_market(whole, "d", "s", "p").unwrap().unwrap();
    assert_eq!(market.winner, Side::Up);
    assert!(matches!(try_load_market("", "", "", ""), Some(Err(LoadError::Malformed(_)))));
}

#[test]
fn titles_come_from_directory_and_file_name() {
    assert_eq!(market_title("2026-05-22", "07_30_508877"), "BTC 15m - 2026-05-22 07:30");
    assert_eq!(market_title("2026-05-22", "match"), "BTC 15m - 2026-05-22 match");
    let market = load("6,99.0,100.0,0.40,0.41,0.59,0.60,500,1000\n").unwrap();
    assert_eq!(market.title, "BTC 15m - 2026-05-22 07:30");
    assert_eq!(market.source_file, "logs/2026-05-22/07_30_508877.csv");
}

#[test]
fn cells_that_spell_no_number_are_empty() {
    assert_eq!(parse_price(&chars_of("  ")), None);
    assert_eq!(parse_price(&chars_of("abc")), None);
    assert_eq!(parse_price(&chars_of(" 0.45 ")), Some(Decimal::new(45, 2)));
    assert_eq!(parse_price(&chars_of("\u{a0}1\t")), Some(Decimal::new(1, 0)));
}
