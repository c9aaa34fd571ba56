//! The decoding boundary: from the rows of text that an exchange sends to
//! a snapshot of decimals. What is malformed is refused here and never
//! reaches a session.

use vstd::prelude::*;
use crate::book::{ExchangeId, OrderBookSnapshot, PriceLevel, Side, SnapshotView};
use crate::decimal::{units_of, Decimal};

verus! {

/// The first row of a message that is no price level: its price or its
/// amount is no decimal text.
#[derive(Clone, Copy, Debug, PartialEq, Eq, Structural, Hash)]
pub struct MalformedSnapshot {
    pub side: Side,
    pub row: usize,
}

/// Whether a row's price and amount are both decimal texts.
pub open spec fn is_level_row(row: [String; 2]) -> bool {
    units_of(row@[0]@) is Some && units_of(row@[1]@) is Some
}

/// The level that a row stands for, on `source`.
pub open spec fn level_of(row: [String; 2], source: ExchangeId) -> PriceLevel {
    PriceLevel {
        price: Decimal { units: units_of(row@[0]@).unwrap() as u64 },
        amount: Decimal { units: units_of(row@[1]@).unwrap() as u64 },
        source,
    }
}

/// How many rows stand before the first one that is no level; all of them
/// where each is one.
pub open spec fn rows_before_fault(rows: Seq<[String; 2]>) -> int
    decreases rows.len(),
{
    if rows.len() == 0 || !is_level_row(rows[0]) {
        0
    } else {
        1 + rows_before_fault(rows.drop_first())
    }
}

/// The levels that `rows` stand for, row by row, or the place of the
/// first row that is no level.
pub open spec fn levels_in(rows: Seq<[String; 2]>, source: ExchangeId) -> Result<
    Seq<PriceLevel>,
    int,
> {
    if rows_before_fault(rows) < rows.len() {
        Err(rows_before_fault(rows))
    } else {
        Ok(Seq::new(rows.len(), |i: int| level_of(rows[i], source)))
    }
}

/// The snapshot that a message's rows stand for. The bids are read before
/// the asks, so a fault among the bids is the one reported.
pub open spec fn snapshot_in(
    source: ExchangeId,
    bids: Seq<[String; 2]>,
    asks: Seq<[String; 2]>,
) -> Result<SnapshotView, (Side, int)> {
    match levels_in(bids, source) {
        Err(row) => Err((Side::Bid, row)),
        Ok(bid_levels) => match levels_in(asks, source) {
            Err(row) => Err((Side::Ask, row)),
            Ok(ask_levels) => Ok(SnapshotView { bids: bid_levels, asks: ask_levels }),
        },
    }
}

/// The first faulty row, or the end, is found where it stands.
pub proof fn lemma_rows_before_fault(rows: Seq<[String; 2]>, i: int)
    requires
        0 <= i <= rows.len(),
        forall|k: int| 0 <= k < i ==> is_level_row(#[trigger] rows[k]),
        i < rows.len() ==> !is_level_row(rows[i]),
    ensures
        rows_before_fault(rows) == i,
    decreases i,
{
    if i > 0 {
        let rest = rows.drop_first();
        assert forall|k: int| 0 <= k < i - 1 implies is_level_row(#[trigger] rest[k]) by {
            assert(rest[k] == rows[k + 1]);
        }
        lemma_rows_before_fault(rest, i - 1);
    }
}

/// Reads the rows of one side. Each row is a price and an amount as
/// decimal text.
pub fn decode_levels(rows: &Vec<[String; 2]>, source: ExchangeId) -> (levels: Result<
    Vec<PriceLevel>,
    usize,
>)
    ensures
        levels matches Ok(l) ==> levels_in(rows@, source) == Ok::<Seq<PriceLevel>, int>(l@),
        levels matches Err(row) ==> levels_in(rows@, source) == Err::<Seq<PriceLevel>, int>(
            row as int,
        ),
{
    let mut levels: Vec<PriceLevel> = Vec::new();
    let mut i: usize = 0;
    while i < rows.len()
        invariant
            i <= rows.len(),
            levels@.len() == i,
            forall|k: int| 0 <= k < i ==> is_level_row(#[trigger] rows@[k]),
            forall|k: int| 0 <= k < i ==> #[trigger] levels@[k] == level_of(rows@[k], source),
        decreases rows.len() - i,
    {
        let row = &rows[i];
        let price = Decimal::parse(row[0].as_str());
        let amount = Decimal::parse(row[1].as_str());
        match (price, amount) {
            (Some(price), Some(amount)) => {
                levels.push(PriceLevel::new(price, amount, source));
            },
            _ => {
                proof {
                    lemma_rows_before_fault(rows@, i as int);
                }
                return Err(i);
            },
        }
        i = i + 1;
    }
    proof {
        lemma_rows_before_fault(rows@, i as int);
        assert(levels@ =~= Seq::new(rows@.len(), |k: int| level_of(rows@[k], source)));
    }
    Ok(levels)
}

/// Reads a message's rows into a snapshot of `source`, or reports the
/// first row that is no price level.
pub fn decode_snapshot(source: ExchangeId, bids: &Vec<[String; 2]>, asks: &Vec<[String; 2]>) -> (snapshot:
    Result<OrderBookSnapshot, MalformedSnapshot>)
    ensures
        snapshot matches Ok(s) ==> snapshot_in(source, bids@, asks@) == Ok::<
            SnapshotView,
            (Side, int),
        >(s@),
        snapshot matches Err(fault) ==> snapshot_in(source, bids@, asks@) == Err::<
            SnapshotView,
            (Side, int),
        >((fault.side, fault.row as int)),
{
    match decode_levels(bids, source) {
        Err(row) => Err(MalformedSnapshot { side: Side::Bid, row }),
        Ok(bid_levels) => match decode_levels(asks, source) {
            Err(row) => Err(MalformedSnapshot { side: Side::Ask, row }),
            Ok(ask_levels) => Ok(OrderBookSnapshot::new(bid_levels, ask_levels)),
        },
    }
}

} // verus!
