use orderbook_merger::book::{ExchangeId, OrderBookSnapshot, PriceLevel};
use orderbook_merger::change::ChangeClass;
use orderbook_merger::decimal::Decimal;
use orderbook_merger::pairs::TradingPair;
use orderbook_merger::render::{
    class_paint, color_changes, format_order_entries, frame_report, level_entry, paint,
    render_level, render_report, Paint,
};
use orderbook_merger::session::PairSession;

fn lv(price: &str, amount: &str, source: ExchangeId) -> PriceLevel {
    PriceLevel::new(Decimal::parse(price).unwrap(), Decimal::parse(amount).unwrap(), source)
}

#[test]
fn paint_wraps_text_in_its_sequences() {
    colored::control::set_override(true);
    assert_eq!(paint("1.5", Paint::Plain), "1.5");
    assert_eq!(paint("1.5", Paint::Magenta), "\x1b[35m1.5\x1b[0m");
    assert_eq!(paint("1.5", Paint::Blue), "\x1b[34m1.5\x1b[0m");
    assert_eq!(paint("1.5", Paint::BlueBold), "\x1b[1;34m1.5\x1b[0m");
    assert_eq!(paint("1.5", Paint::GreenBold), "\x1b[1;32m1.5\x1b[0m");
    assert_eq!(paint("1.5", Paint::RedBold), "\x1b[1;31m1.5\x1b[0m");
    assert_eq!(paint("", Paint::RedBold), "\x1b[1;31m\x1b[0m");
}

#[test]
fn text_with_an_escape_is_painted_too() {
    colored::control::set_override(true);
    assert_eq!(paint("\x1b", Paint::Plain), "\x1b");
    assert_eq!(paint("a\x1b[0mb", Paint::Plain), "a\x1b[0mb");
    assert_eq!(paint("\x1b", Paint::RedBold), "\x1b[1;31m\x1b\x1b[0m");
    assert_eq!(paint("a\x1b[31mb", Paint::Blue), "\x1b[34ma\x1b[31mb\x1b[0m");
    assert_eq!(
        paint("a\x1b[0mb", Paint::GreenBold),
        "\x1b[1;32ma\x1b[0m\x1b[1;32mb\x1b[0m"
    );
}

#[test]
fn class_decides_the_paint() {
    assert_eq!(class_paint(ChangeClass::New), Paint::BlueBold);
    assert_eq!(class_paint(ChangeClass::Increased), Paint::GreenBold);
    assert_eq!(class_paint(ChangeClass::Decreased), Paint::RedBold);
    assert_eq!(class_paint(ChangeClass::Unchanged), Paint::Plain);
}

#[test]
fn entry_frames_exchange_price_and_amount() {
    assert_eq!(
        level_entry("binance", "100.5", "2"),
        "{ \"exchange\": \"binance\", \"price\": 100.5, \"amount\": 2 }"
    );
}

#[test]
fn level_is_rendered_with_its_painted_price() {
    colored::control::set_override(true);
    let level = lv("100.3", "1", ExchangeId::Binance);
    assert_eq!(
        render_level(&level, ChangeClass::New),
        "{ \"exchange\": \"binance\", \"price\": \x1b[1;34m100.30000000\x1b[0m, \"amount\": 1.00000000 }"
    );
    assert_eq!(
        render_level(&level, ChangeClass::Unchanged),
        "{ \"exchange\": \"binance\", \"price\": 100.30000000, \"amount\": 1.00000000 }"
    );
    assert_eq!(
        render_level(&level, ChangeClass::Increased),
        "{ \"exchange\": \"binance\", \"price\": \x1b[1;32m100.30000000\x1b[0m, \"amount\": 1.00000000 }"
    );
    assert_eq!(
        render_level(&lv("7", "0.5", ExchangeId::Bitstamp), ChangeClass::Decreased),
        "{ \"exchange\": \"bitstamp\", \"price\": \x1b[1;31m7.00000000\x1b[0m, \"amount\": 0.50000000 }"
    );
}

#[test]
fn entries_are_joined_with_comma_and_line_break() {
    assert_eq!(format_order_entries(&vec![]), "");
    assert_eq!(format_order_entries(&vec!["a".to_string()]), "a");
    assert_eq!(
        format_order_entries(&vec!["a".to_string(), "b".to_string(), "c".to_string()]),
        "a,\n        b,\n        c"
    );
}

#[test]
fn ladder_entries_follow_the_classes() {
    colored::control::set_override(true);
    let ladder = vec![lv("1", "1", ExchangeId::Binance), lv("2", "1", ExchangeId::Bitstamp)];
    let entries = color_changes(&ladder, &vec![ChangeClass::Unchanged, ChangeClass::New]);
    assert_eq!(
        entries,
        vec![
            "{ \"exchange\": \"binance\", \"price\": 1.00000000, \"amount\": 1.00000000 }",
            "{ \"exchange\": \"bitstamp\", \"price\": \x1b[1;34m2.00000000\x1b[0m, \"amount\": 1.00000000 }",
        ]
    );
}

#[test]
fn report_frame_holds_all_parts() {
    assert_eq!(
        frame_report("p", "l", "s", "n", "a", "b"),
        "{\n    \"pair\": \"p\",\n    \"spread\": lsn,\n\"asks\": [a],\n\"bids\": [b]\n}"
    );
}

#[test]
fn report_is_rendered_whole() {
    colored::control::set_override(true);
    let mut session = PairSession::new(TradingPair::new("ethbtc"), 10);
    let report = session
        .deliver(
            ExchangeId::Binance,
            OrderBookSnapshot::new(
                vec![lv("100", "1", ExchangeId::Binance)],
                vec![lv("101", "2", ExchangeId::Binance)],
            ),
        )
        .unwrap();
    assert_eq!(
        render_report(&report),
        "{\n    \"pair\": \"\x1b[35methbtc\x1b[0m\",\n    \"spread\": \x1b[34mSpread: \x1b[0m\x1b[1;32m1.00000000\x1b[0m\x1b[34m (Best Ask - Best Bid)\x1b[0m,\n\"asks\": [{ \"exchange\": \"binance\", \"price\": \x1b[1;34m101.00000000\x1b[0m, \"amount\": 2.00000000 }],\n\"bids\": [{ \"exchange\": \"binance\", \"price\": \x1b[1;34m100.00000000\x1b[0m, \"amount\": 1.00000000 }]\n}"
    );
}
