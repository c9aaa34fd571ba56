//! The best levels of a ladder, and the spread between two ladders.

use vstd::prelude::*;
use crate::book::PriceLevel;
use crate::decimal::SignedDecimal;

verus! {

/// The depth kept of each ladder unless another is asked for.
pub const DEFAULT_DEPTH: usize = 10;

/// The first `depth` levels of `ladder`, or all of them where it has fewer.
pub open spec fn top(ladder: Seq<PriceLevel>, depth: nat) -> Seq<PriceLevel> {
    if depth < ladder.len() {
        ladder.take(depth as int)
    } else {
        ladder
    }
}

/// Best ask minus best bid, where both ladders have a level.
pub open spec fn spread_of(asks: Seq<PriceLevel>, bids: Seq<PriceLevel>) -> Option<int> {
    if asks.len() > 0 && bids.len() > 0 {
        Some(asks[0].price@ - bids[0].price@)
    } else {
        None
    }
}

/// Keeps the first `depth` levels of `ladder`. A shorter ladder is returned
/// whole: nothing is padded.
pub fn top_levels(ladder: Vec<PriceLevel>, depth: usize) -> (best: Vec<PriceLevel>)
    ensures
        best@ == top(ladder@, depth as nat),
        best@.len() == if depth <= ladder@.len() { depth as nat } else { ladder@.len() },
{
    let mut best = ladder;
    best.truncate(depth);
    assert(depth == ladder@.len() ==> ladder@.subrange(0, depth as int) =~= ladder@);
    best
}

/// The spread between the best ask and the best bid: the first level of
/// each ladder. There is none while either ladder is empty.
pub fn spread(asks: &Vec<PriceLevel>, bids: &Vec<PriceLevel>) -> (s: Option<SignedDecimal>)
    ensures
        s is Some <==> asks@.len() > 0 && bids@.len() > 0,
        s matches Some(d) ==> Some(d@) == spread_of(asks@, bids@),
{
    if asks.len() == 0 || bids.len() == 0 {
        None
    } else {
        Some(asks[0].price.minus(bids[0].price))
    }
}

} // verus!
