//! The data that exchanges deliver: price levels and order-book snapshots.

use vstd::prelude::*;
use crate::decimal::Decimal;

verus! {

/// The venues whose books are merged, in the order in which their levels
/// are put together: levels of `Binance` come before those of `Bitstamp`.
#[derive(Clone, Copy, Debug, PartialEq, Eq, Structural, Hash)]
pub enum ExchangeId {
    Binance,
    Bitstamp,
}

/// The two sides of a book.
#[derive(Clone, Copy, Debug, PartialEq, Eq, Structural, Hash)]
pub enum Side {
    Ask,
    Bid,
}

/// One price level: an amount offered at a price on one exchange.
#[derive(Clone, Copy, Debug, PartialEq, Eq, Structural, Hash)]
pub struct PriceLevel {
    pub price: Decimal,
    pub amount: Decimal,
    pub source: ExchangeId,
}

/// A full order book of one exchange for one pair. A new snapshot replaces
/// the one before; levels are never merged within one exchange's book.
#[derive(Debug)]
pub struct OrderBookSnapshot {
    pub bids: Vec<PriceLevel>,
    pub asks: Vec<PriceLevel>,
}

/// What a snapshot holds.
pub struct SnapshotView {
    pub bids: Seq<PriceLevel>,
    pub asks: Seq<PriceLevel>,
}

impl View for OrderBookSnapshot {
    type V = SnapshotView;

    open spec fn view(&self) -> SnapshotView {
        SnapshotView { bids: self.bids@, asks: self.asks@ }
    }
}

impl SnapshotView {
    /// The levels of one side.
    pub open spec fn side(self, side: Side) -> Seq<PriceLevel> {
        match side {
            Side::Ask => self.asks,
            Side::Bid => self.bids,
        }
    }
}

impl ExchangeId {
    /// The exchange's name in lower case.
    pub fn name(self) -> (s: &'static str)
        ensures
            s@ == self.spec_name(),
    {
        match self {
            ExchangeId::Binance => "binance",
            ExchangeId::Bitstamp => "bitstamp",
        }
    }

    /// The exchange's name in lower case.
    pub open spec fn spec_name(self) -> Seq<char> {
        match self {
            ExchangeId::Binance => "binance"@,
            ExchangeId::Bitstamp => "bitstamp"@,
        }
    }
}

impl PriceLevel {
    /// A level of `amount` at `price` on `source`.
    pub fn new(price: Decimal, amount: Decimal, source: ExchangeId) -> (level: PriceLevel)
        ensures
            level == (PriceLevel { price, amount, source }),
    {
        PriceLevel { price, amount, source }
    }

    /// The same price and amount, on `source`.
    pub open spec fn spec_on(self, source: ExchangeId) -> PriceLevel {
        PriceLevel { price: self.price, amount: self.amount, source }
    }

    /// The same price and amount, on `source`.
    #[verifier::when_used_as_spec(spec_on)]
    pub fn on(self, source: ExchangeId) -> (level: PriceLevel)
        ensures
            level == self.spec_on(source),
    {
        PriceLevel { price: self.price, amount: self.amount, source }
    }
}

impl OrderBookSnapshot {
    /// A snapshot of the given bids and asks.
    pub fn new(bids: Vec<PriceLevel>, asks: Vec<PriceLevel>) -> (snapshot: OrderBookSnapshot)
        ensures
            snapshot@ == (SnapshotView { bids: bids@, asks: asks@ }),
    {
        OrderBookSnapshot { bids, asks }
    }

    /// The levels of one side, as delivered.
    pub fn side(&self, side: Side) -> (levels: &Vec<PriceLevel>)
        ensures
            levels@ == self@.side(side),
    {
        match side {
            Side::Ask => &self.asks,
            Side::Bid => &self.bids,
        }
    }
}

} // verus!
