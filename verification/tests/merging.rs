use orderbook_merger::book::{ExchangeId, OrderBookSnapshot, PriceLevel, Side};
use orderbook_merger::decimal::Decimal;
use orderbook_merger::ladder::{insert_level, prices_in_order};
use orderbook_merger::merge::merge_side;
use orderbook_merger::pairs::TradingPair;
use orderbook_merger::select::{spread, top_levels};
use orderbook_merger::store::SnapshotStore;
use orderbook_merger::view::{compute_view, copy_levels};

fn lv(price: u64, amount: u64, source: ExchangeId) -> PriceLevel {
    PriceLevel::new(Decimal::from_units(price), Decimal::from_units(amount), source)
}

fn prices(levels: &[PriceLevel]) -> Vec<u64> {
    levels.iter().map(|l| l.price.units).collect()
}

#[test]
fn store_starts_empty_and_clean() {
    let store = SnapshotStore::new();
    assert!(store.get(ExchangeId::Binance).is_none());
    assert!(store.get(ExchangeId::Bitstamp).is_none());
    assert_eq!(store.count(), 0);
    assert!(!store.is_dirty());
}

#[test]
fn update_replaces_the_snapshot_and_marks_dirty() {
    let mut store = SnapshotStore::new();
    store.update(
        ExchangeId::Binance,
        OrderBookSnapshot::new(vec![lv(1, 1, ExchangeId::Binance)], vec![]),
    );
    assert!(store.is_dirty());
    assert_eq!(store.count(), 1);
    assert_eq!(store.get(ExchangeId::Binance).unwrap().bids, vec![lv(1, 1, ExchangeId::Binance)]);
    assert!(store.get(ExchangeId::Bitstamp).is_none());
    store.mark_clean();
    assert!(!store.is_dirty());
    store.update(
        ExchangeId::Binance,
        OrderBookSnapshot::new(vec![], vec![lv(2, 2, ExchangeId::Binance)]),
    );
    let held = store.get(ExchangeId::Binance).unwrap();
    assert!(held.bids.is_empty());
    assert_eq!(held.asks, vec![lv(2, 2, ExchangeId::Binance)]);
    assert_eq!(held.side(Side::Ask), &vec![lv(2, 2, ExchangeId::Binance)]);
    assert!(held.side(Side::Bid).is_empty());
    assert_eq!(store.count(), 1);
    store.update(ExchangeId::Bitstamp, OrderBookSnapshot::new(vec![], vec![]));
    assert_eq!(store.count(), 2);
}

#[test]
fn asks_rise_and_bids_fall() {
    let mut store = SnapshotStore::new();
    store.update(
        ExchangeId::Binance,
        OrderBookSnapshot::new(
            vec![lv(3, 1, ExchangeId::Binance), lv(9, 1, ExchangeId::Binance), lv(5, 1, ExchangeId::Binance)],
            vec![lv(30, 1, ExchangeId::Binance), lv(10, 1, ExchangeId::Binance)],
        ),
    );
    store.update(
        ExchangeId::Bitstamp,
        OrderBookSnapshot::new(
            vec![lv(7, 1, ExchangeId::Bitstamp), lv(1, 1, ExchangeId::Bitstamp)],
            vec![lv(20, 1, ExchangeId::Bitstamp), lv(40, 1, ExchangeId::Bitstamp), lv(5, 1, ExchangeId::Bitstamp)],
        ),
    );
    assert_eq!(prices(&merge_side(&store, Side::Ask)), vec![5, 10, 20, 30, 40]);
    assert_eq!(prices(&merge_side(&store, Side::Bid)), vec![9, 7, 5, 3, 1]);
}

#[test]
fn ties_keep_exchange_order_and_snapshot_order() {
    let mut store = SnapshotStore::new();
    store.update(
        ExchangeId::Bitstamp,
        OrderBookSnapshot::new(
            vec![lv(5, 30, ExchangeId::Bitstamp), lv(5, 40, ExchangeId::Bitstamp)],
            vec![lv(5, 30, ExchangeId::Bitstamp), lv(5, 40, ExchangeId::Bitstamp)],
        ),
    );
    store.update(
        ExchangeId::Binance,
        OrderBookSnapshot::new(
            vec![lv(5, 10, ExchangeId::Binance), lv(6, 1, ExchangeId::Binance), lv(5, 20, ExchangeId::Binance)],
            vec![lv(5, 10, ExchangeId::Binance), lv(4, 1, ExchangeId::Binance), lv(5, 20, ExchangeId::Binance)],
        ),
    );
    let expected_tail = vec![
        lv(5, 10, ExchangeId::Binance),
        lv(5, 20, ExchangeId::Binance),
        lv(5, 30, ExchangeId::Bitstamp),
        lv(5, 40, ExchangeId::Bitstamp),
    ];
    let asks = merge_side(&store, Side::Ask);
    assert_eq!(asks[0], lv(4, 1, ExchangeId::Binance));
    assert_eq!(asks[1..].to_vec(), expected_tail);
    let bids = merge_side(&store, Side::Bid);
    assert_eq!(bids[0], lv(6, 1, ExchangeId::Binance));
    assert_eq!(bids[1..].to_vec(), expected_tail);
}

#[test]
fn merge_of_an_empty_store_is_empty() {
    let store = SnapshotStore::new();
    assert!(merge_side(&store, Side::Ask).is_empty());
    assert!(merge_side(&store, Side::Bid).is_empty());
    assert!(compute_view(&TradingPair::new("x"), &store, 10).is_none());
}

#[test]
fn insert_level_goes_behind_its_equals() {
    let mut asks = vec![lv(1, 1, ExchangeId::Binance), lv(3, 1, ExchangeId::Binance)];
    insert_level(Side::Ask, &mut asks, lv(3, 2, ExchangeId::Bitstamp));
    insert_level(Side::Ask, &mut asks, lv(2, 2, ExchangeId::Bitstamp));
    insert_level(Side::Ask, &mut asks, lv(0, 2, ExchangeId::Bitstamp));
    assert_eq!(
        asks,
        vec![
            lv(0, 2, ExchangeId::Bitstamp),
            lv(1, 1, ExchangeId::Binance),
            lv(2, 2, ExchangeId::Bitstamp),
            lv(3, 1, ExchangeId::Binance),
            lv(3, 2, ExchangeId::Bitstamp)
        ]
    );
    let mut bids: Vec<PriceLevel> = vec![];
    insert_level(Side::Bid, &mut bids, lv(3, 1, ExchangeId::Binance));
    insert_level(Side::Bid, &mut bids, lv(3, 2, ExchangeId::Binance));
    insert_level(Side::Bid, &mut bids, lv(4, 1, ExchangeId::Binance));
    assert_eq!(
        bids,
        vec![lv(4, 1, ExchangeId::Binance), lv(3, 1, ExchangeId::Binance), lv(3, 2, ExchangeId::Binance)]
    );
}

#[test]
fn order_of_prices_depends_on_the_side() {
    let low = Decimal::from_units(1);
    let high = Decimal::from_units(2);
    assert!(prices_in_order(Side::Ask, low, high));
    assert!(!prices_in_order(Side::Ask, high, low));
    assert!(prices_in_order(Side::Bid, high, low));
    assert!(!prices_in_order(Side::Bid, low, high));
    assert!(prices_in_order(Side::Ask, low, low));
    assert!(prices_in_order(Side::Bid, low, low));
}

#[test]
fn top_levels_takes_the_first_or_all() {
    let ladder = vec![lv(1, 1, ExchangeId::Binance), lv(2, 1, ExchangeId::Binance), lv(3, 1, ExchangeId::Binance)];
    assert_eq!(prices(&top_levels(copy_levels(&ladder), 2)), vec![1, 2]);
    assert_eq!(prices(&top_levels(copy_levels(&ladder), 3)), vec![1, 2, 3]);
    assert_eq!(prices(&top_levels(copy_levels(&ladder), 10)), vec![1, 2, 3]);
    assert!(top_levels(copy_levels(&ladder), 0).is_empty());
    assert!(top_levels(vec![], 5).is_empty());
}

#[test]
fn spread_needs_both_ladders() {
    let asks = vec![lv(10, 1, ExchangeId::Binance), lv(12, 1, ExchangeId::Binance)];
    let bids = vec![lv(7, 1, ExchangeId::Binance), lv(6, 1, ExchangeId::Binance)];
    assert_eq!(spread(&asks, &bids).unwrap().units, 3);
    assert_eq!(spread(&bids, &asks).unwrap().units, -3);
    assert!(spread(&asks, &vec![]).is_none());
    assert!(spread(&vec![], &bids).is_none());
    assert!(spread(&vec![], &vec![]).is_none());
}

#[test]
fn exchange_names_are_lower_case() {
    assert_eq!(ExchangeId::Binance.name(), "binance");
    assert_eq!(ExchangeId::Bitstamp.name(), "bitstamp");
    assert_eq!(lv(1, 2, ExchangeId::Binance).on(ExchangeId::Bitstamp), lv(1, 2, ExchangeId::Bitstamp));
}

#[test]
fn view_copy_is_equal() {
    let mut store = SnapshotStore::new();
    store.update(
        ExchangeId::Binance,
        OrderBookSnapshot::new(vec![lv(1, 1, ExchangeId::Binance)], vec![lv(2, 1, ExchangeId::Binance)]),
    );
    let view = compute_view(&TradingPair::new("ethbtc"), &store, 10).unwrap();
    let copy = view.clone();
    assert_eq!(copy.top_asks(), view.top_asks());
    assert_eq!(copy.top_bids(), view.top_bids());
    assert_eq!(copy.spread(), view.spread());
    assert_eq!(copy.pair().symbol(), "ethbtc");
    assert_eq!(view.spread().units, 1);
}
