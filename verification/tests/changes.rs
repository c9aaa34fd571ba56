use orderbook_merger::book::{ExchangeId, PriceLevel};
use orderbook_merger::change::{
    classify_level, detect_changes, holds_price, side_trend, ChangeClass, Trend,
};
use orderbook_merger::decimal::Decimal;

fn at(price: u64, source: ExchangeId) -> PriceLevel {
    PriceLevel::new(Decimal::from_units(price), Decimal::from_units(1), source)
}

#[test]
fn level_is_new_without_a_ladder_before() {
    assert_eq!(classify_level(&at(5, ExchangeId::Binance), None), ChangeClass::New);
}

#[test]
fn level_is_new_iff_its_price_was_absent() {
    let before = vec![at(5, ExchangeId::Binance), at(7, ExchangeId::Bitstamp)];
    assert_eq!(classify_level(&at(5, ExchangeId::Binance), Some(&before)), ChangeClass::Unchanged);
    assert_eq!(classify_level(&at(7, ExchangeId::Binance), Some(&before)), ChangeClass::Unchanged);
    assert_eq!(classify_level(&at(6, ExchangeId::Binance), Some(&before)), ChangeClass::New);
    assert_eq!(classify_level(&at(5, ExchangeId::Binance), Some(&vec![])), ChangeClass::New);
}

#[test]
fn price_match_ignores_exchange_and_amount() {
    let before = vec![PriceLevel::new(
        Decimal::from_units(5),
        Decimal::from_units(99),
        ExchangeId::Bitstamp,
    )];
    assert!(holds_price(&before, Decimal::from_units(5)));
    assert!(!holds_price(&before, Decimal::from_units(99)));
    assert_eq!(classify_level(&at(5, ExchangeId::Binance), Some(&before)), ChangeClass::Unchanged);
}

#[test]
fn trend_follows_the_best_price() {
    let before = vec![at(5, ExchangeId::Binance), at(9, ExchangeId::Binance)];
    assert_eq!(side_trend(&vec![at(6, ExchangeId::Binance)], Some(&before)), Some(Trend::Up));
    assert_eq!(side_trend(&vec![at(4, ExchangeId::Binance)], Some(&before)), Some(Trend::Down));
    assert_eq!(
        side_trend(&vec![at(5, ExchangeId::Bitstamp), at(1, ExchangeId::Binance)], Some(&before)),
        Some(Trend::Flat)
    );
}

#[test]
fn no_trend_without_two_best_prices() {
    let ladder = vec![at(5, ExchangeId::Binance)];
    assert_eq!(side_trend(&ladder, None), None);
    assert_eq!(side_trend(&ladder, Some(&vec![])), None);
    assert_eq!(side_trend(&vec![], Some(&ladder)), None);
}

#[test]
fn changes_hold_one_class_for_each_level() {
    let before = vec![at(5, ExchangeId::Binance), at(7, ExchangeId::Bitstamp)];
    let ladder = vec![at(4, ExchangeId::Binance), at(5, ExchangeId::Bitstamp), at(8, ExchangeId::Binance)];
    let changes = detect_changes(&ladder, Some(&before));
    assert_eq!(
        changes.classes,
        vec![ChangeClass::New, ChangeClass::Unchanged, ChangeClass::New]
    );
    assert_eq!(changes.trend, Some(Trend::Down));
    let first = detect_changes(&ladder, None);
    assert_eq!(first.classes, vec![ChangeClass::New, ChangeClass::New, ChangeClass::New]);
    assert_eq!(first.trend, None);
    let empty = detect_changes(&vec![], Some(&before));
    assert!(empty.classes.is_empty());
    assert_eq!(empty.trend, None);
}
