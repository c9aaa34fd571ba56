use orderbook_merger::book::{ExchangeId, PriceLevel, Side};
use orderbook_merger::decimal::Decimal;
use orderbook_merger::decode::{decode_levels, decode_snapshot, MalformedSnapshot};

fn rows(pairs: &[(&str, &str)]) -> Vec<[String; 2]> {
    pairs.iter().map(|(p, a)| [p.to_string(), a.to_string()]).collect()
}

#[test]
fn rows_become_levels_of_the_source() {
    let levels = decode_levels(&rows(&[("100.5", "1"), ("99", "0.25")]), ExchangeId::Bitstamp);
    assert_eq!(
        levels,
        Ok(vec![
            PriceLevel::new(
                Decimal::from_units(10_050_000_000),
                Decimal::from_units(100_000_000),
                ExchangeId::Bitstamp
            ),
            PriceLevel::new(
                Decimal::from_units(9_900_000_000),
                Decimal::from_units(25_000_000),
                ExchangeId::Bitstamp
            ),
        ])
    );
    assert_eq!(decode_levels(&rows(&[]), ExchangeId::Binance), Ok(vec![]));
}

#[test]
fn first_faulty_row_is_reported() {
    assert_eq!(
        decode_levels(&rows(&[("1", "1"), ("x", "1"), ("y", "1")]), ExchangeId::Binance),
        Err(1)
    );
    assert_eq!(decode_levels(&rows(&[("1", "")]), ExchangeId::Binance), Err(0));
    assert_eq!(decode_levels(&rows(&[("1", "1"), ("2", "-1")]), ExchangeId::Binance), Err(1));
}

#[test]
fn snapshot_is_decoded_side_by_side() {
    let snapshot =
        decode_snapshot(ExchangeId::Binance, &rows(&[("100", "1")]), &rows(&[("101", "2")]))
            .unwrap();
    assert_eq!(snapshot.bids.len(), 1);
    assert_eq!(snapshot.asks.len(), 1);
    assert_eq!(snapshot.bids[0].price, Decimal::from_units(10_000_000_000));
    assert_eq!(snapshot.asks[0].amount, Decimal::from_units(200_000_000));
    assert_eq!(snapshot.asks[0].source, ExchangeId::Binance);
}

#[test]
fn malformed_snapshot_names_side_and_row() {
    let fault = decode_snapshot(
        ExchangeId::Binance,
        &rows(&[("100", "1"), ("1e3", "1")]),
        &rows(&[("bad", "2")]),
    )
    .unwrap_err();
    assert_eq!(fault, MalformedSnapshot { side: Side::Bid, row: 1 });
    let fault = decode_snapshot(
        ExchangeId::Binance,
        &rows(&[("100", "1")]),
        &rows(&[("101", "2"), ("102", "2"), ("103", "1e0")]),
    )
    .unwrap_err();
    assert_eq!(fault, MalformedSnapshot { side: Side::Ask, row: 2 });
}
