//! The snapshot store of one pair: the latest snapshot of each exchange.

use vstd::prelude::*;
use crate::book::{ExchangeId, OrderBookSnapshot, SnapshotView};

verus! {

/// The latest snapshot of each exchange for one pair. An exchange has no
/// snapshot until its first one arrives; that is a state, not a failure.
#[derive(Debug)]
pub struct SnapshotStore {
    binance: Option<OrderBookSnapshot>,
    bitstamp: Option<OrderBookSnapshot>,
    dirty: bool,
}

impl View for SnapshotStore {
    type V = Map<ExchangeId, SnapshotView>;

    /// The snapshots held, by exchange.
    closed spec fn view(&self) -> Map<ExchangeId, SnapshotView> {
        let none = Map::<ExchangeId, SnapshotView>::empty();
        let first = match self.binance {
            Some(s) => none.insert(ExchangeId::Binance, s@),
            None => none,
        };
        match self.bitstamp {
            Some(s) => first.insert(ExchangeId::Bitstamp, s@),
            None => first,
        }
    }
}

/// How many exchanges have a snapshot in `books`.
pub open spec fn present(books: Map<ExchangeId, SnapshotView>) -> nat {
    let first: nat = if books.contains_key(ExchangeId::Binance) { 1 } else { 0 };
    let second: nat = if books.contains_key(ExchangeId::Bitstamp) { 1 } else { 0 };
    first + second
}

impl SnapshotStore {
    /// Whether a snapshot has arrived since the store was last marked clean.
    pub closed spec fn dirty(&self) -> bool {
        self.dirty
    }

    /// A store without snapshots.
    pub fn new() -> (store: SnapshotStore)
        ensures
            store@ == Map::<ExchangeId, SnapshotView>::empty(),
            !store.dirty(),
    {
        SnapshotStore { binance: None, bitstamp: None, dirty: false }
    }

    /// Replaces the snapshot of `exchange` and marks the store dirty. The
    /// snapshots of other exchanges stay.
    pub fn update(&mut self, exchange: ExchangeId, snapshot: OrderBookSnapshot)
        ensures
            final(self)@ == old(self)@.insert(exchange, snapshot@),
            final(self).dirty(),
    {
        match exchange {
            ExchangeId::Binance => {
                self.binance = Some(snapshot);
            },
            ExchangeId::Bitstamp => {
                self.bitstamp = Some(snapshot);
            },
        }
        self.dirty = true;
        assert(self@ =~= old(self)@.insert(exchange, snapshot@));
    }

    /// The snapshot of `exchange`, if one has arrived.
    pub fn get(&self, exchange: ExchangeId) -> (snapshot: Option<&OrderBookSnapshot>)
        ensures
            snapshot is Some <==> self@.contains_key(exchange),
            snapshot matches Some(s) ==> s@ == self@[exchange],
    {
        match exchange {
            ExchangeId::Binance => self.binance.as_ref(),
            ExchangeId::Bitstamp => self.bitstamp.as_ref(),
        }
    }

    /// How many exchanges have a snapshot.
    pub fn count(&self) -> (n: usize)
        ensures
            n == present(self@),
    {
        let first: usize = if self.binance.is_some() { 1 } else { 0 };
        let second: usize = if self.bitstamp.is_some() { 1 } else { 0 };
        first + second
    }

    /// Whether a snapshot has arrived since the store was last marked clean.
    pub fn is_dirty(&self) -> (dirty: bool)
        ensures
            dirty == self.dirty(),
    {
        self.dirty
    }

    /// Marks the store clean; the snapshots stay.
    pub fn mark_clean(&mut self)
        ensures
            final(self)@ == old(self)@,
            !final(self).dirty(),
    {
        self.dirty = false;
    }
}

} // verus!
