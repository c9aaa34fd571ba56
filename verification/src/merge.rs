//! The merge engine: all exchanges' levels of one side as one ladder.

use vstd::prelude::*;
use crate::book::{ExchangeId, PriceLevel, Side, SnapshotView};
use crate::ladder::{insert_level, lemma_ranked_push, ranked};
use crate::store::SnapshotStore;

verus! {

/// `levels`, each marked as coming from `source`.
pub open spec fn tagged(levels: Seq<PriceLevel>, source: ExchangeId) -> Seq<PriceLevel> {
    Seq::new(levels.len(), |i: int| levels[i].spec_on(source))
}

/// What `exchange` adds to `side`: its snapshot's levels, marked as its
/// own, or nothing while it has no snapshot.
pub open spec fn contribution(
    books: Map<ExchangeId, SnapshotView>,
    exchange: ExchangeId,
    side: Side,
) -> Seq<PriceLevel> {
    if books.contains_key(exchange) {
        tagged(books[exchange].side(side), exchange)
    } else {
        Seq::empty()
    }
}

/// All levels of `side`, exchange after exchange in the order of
/// `ExchangeId`, each exchange's levels as it delivered them.
pub open spec fn offered(books: Map<ExchangeId, SnapshotView>, side: Side) -> Seq<PriceLevel> {
    contribution(books, ExchangeId::Binance, side) + contribution(
        books,
        ExchangeId::Bitstamp,
        side,
    )
}

/// The full merged ladder of `side`: every offered level, ordered by price,
/// levels of one price in the order in which they are offered.
pub open spec fn merged(books: Map<ExchangeId, SnapshotView>, side: Side) -> Seq<PriceLevel> {
    ranked(side, offered(books, side))
}

/// Enters the levels of one exchange into a ladder that ranks `seen`.
fn absorb(
    side: Side,
    ladder: &mut Vec<PriceLevel>,
    levels: &Vec<PriceLevel>,
    source: ExchangeId,
    Ghost(seen): Ghost<Seq<PriceLevel>>,
)
    requires
        old(ladder)@ == ranked(side, seen),
    ensures
        final(ladder)@ == ranked(side, seen + tagged(levels@, source)),
{
    let ghost all = tagged(levels@, source);
    let mut i: usize = 0;
    assert(seen + all.take(0) =~= seen);
    while i < levels.len()
        invariant
            i <= levels.len(),
            all == tagged(levels@, source),
            ladder@ == ranked(side, seen + all.take(i as int)),
        decreases levels.len() - i,
    {
        let level = levels[i].on(source);
        proof {
            lemma_ranked_push(side, seen + all.take(i as int), level);
            assert((seen + all.take(i as int)).push(level) =~= seen + all.take(i + 1));
        }
        insert_level(side, ladder, level);
        i = i + 1;
    }
    assert(all.take(levels.len() as int) =~= all);
}

/// Merges the snapshots held in `store` into the full ladder of `side`.
/// Exchanges without a snapshot add nothing.
pub fn merge_side(store: &SnapshotStore, side: Side) -> (ladder: Vec<PriceLevel>)
    ensures
        ladder@ == merged(store@, side),
{
    let mut ladder: Vec<PriceLevel> = Vec::new();
    let ghost first = contribution(store@, ExchangeId::Binance, side);
    match store.get(ExchangeId::Binance) {
        Some(snapshot) => {
            absorb(side, &mut ladder, snapshot.side(side), ExchangeId::Binance, Ghost(Seq::empty()));
            assert(Seq::<PriceLevel>::empty() + first =~= first);
        },
        None => {},
    }
    match store.get(ExchangeId::Bitstamp) {
        Some(snapshot) => {
            absorb(side, &mut ladder, snapshot.side(side), ExchangeId::Bitstamp, Ghost(first));
        },
        None => {
            assert(first + Seq::<PriceLevel>::empty() =~= first);
        },
    }
    ladder
}

} // verus!
