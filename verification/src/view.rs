//! The merged view of one pair: the best asks, the best bids and the
//! spread between them.

use vstd::prelude::*;
use crate::book::{ExchangeId, PriceLevel, Side, SnapshotView};
use crate::decimal::SignedDecimal;
use crate::ladder::{in_order, is_ladder, lemma_ranked_is_ladder};
use crate::merge::{merge_side, merged, offered};
use crate::pairs::TradingPair;
use crate::select::{spread, spread_of, top, top_levels};
use crate::store::SnapshotStore;

verus! {

/// The latest computed view of one pair. Its asks rise and its bids fall
/// by price, both ladders have a level, and the spread is the best ask
/// minus the best bid.
#[derive(Debug)]
pub struct MergedView {
    pair: TradingPair,
    top_asks: Vec<PriceLevel>,
    top_bids: Vec<PriceLevel>,
    spread: SignedDecimal,
}

/// What a merged view holds.
pub struct ViewModel {
    pub pair: Seq<char>,
    pub top_asks: Seq<PriceLevel>,
    pub top_bids: Seq<PriceLevel>,
    pub spread: int,
}

impl ViewModel {
    /// Asks rise, bids fall, neither ladder is empty, and the spread is the
    /// best ask minus the best bid.
    pub open spec fn well_formed(self) -> bool {
        &&& is_ladder(Side::Ask, self.top_asks)
        &&& is_ladder(Side::Bid, self.top_bids)
        &&& spread_of(self.top_asks, self.top_bids) == Some(self.spread)
    }
}

impl View for MergedView {
    type V = ViewModel;

    closed spec fn view(&self) -> ViewModel {
        ViewModel {
            pair: self.pair@,
            top_asks: self.top_asks@,
            top_bids: self.top_bids@,
            spread: self.spread@,
        }
    }
}

/// What an optional view holds.
pub open spec fn shown(view: Option<MergedView>) -> Option<ViewModel> {
    match view {
        Some(v) => Some(v@),
        None => None,
    }
}

/// The view of `pair` that the snapshots in `books` give at `depth`: the
/// first `depth` levels of each merged ladder and their spread. There is
/// none while either ladder is empty.
pub open spec fn view_of(
    pair: Seq<char>,
    books: Map<ExchangeId, SnapshotView>,
    depth: nat,
) -> Option<ViewModel> {
    let top_asks = top(merged(books, Side::Ask), depth);
    let top_bids = top(merged(books, Side::Bid), depth);
    match spread_of(top_asks, top_bids) {
        Some(spread) => Some(ViewModel { pair, top_asks, top_bids, spread }),
        None => None,
    }
}

/// The first levels of a ladder are a ladder.
pub proof fn lemma_top_is_ladder(side: Side, ladder: Seq<PriceLevel>, depth: nat)
    requires
        is_ladder(side, ladder),
    ensures
        is_ladder(side, top(ladder, depth)),
{
    let best = top(ladder, depth);
    assert forall|i: int, j: int| 0 <= i <= j < best.len() implies in_order(
        side,
        #[trigger] best[i].price@,
        #[trigger] best[j].price@,
    ) by {
        assert(best[i] == ladder[i] && best[j] == ladder[j]);
    }
}

/// Every view is well formed, is of the pair it was computed for, and
/// holds of each side as many levels as `depth` allows and the exchanges
/// offer.
pub proof fn lemma_view_of(pair: Seq<char>, books: Map<ExchangeId, SnapshotView>, depth: nat)
    ensures
        view_of(pair, books, depth) matches Some(v) ==> {
            &&& v.well_formed()
            &&& v.pair == pair
            &&& v.top_asks.len() == vstd::math::min(
                depth as int,
                offered(books, Side::Ask).len() as int,
            )
            &&& v.top_bids.len() == vstd::math::min(
                depth as int,
                offered(books, Side::Bid).len() as int,
            )
        },
{
    lemma_ranked_is_ladder(Side::Ask, offered(books, Side::Ask));
    lemma_ranked_is_ladder(Side::Bid, offered(books, Side::Bid));
    lemma_top_is_ladder(Side::Ask, merged(books, Side::Ask), depth);
    lemma_top_is_ladder(Side::Bid, merged(books, Side::Bid), depth);
}

/// A copy of `levels`.
pub fn copy_levels(levels: &Vec<PriceLevel>) -> (copy: Vec<PriceLevel>)
    ensures
        copy@ == levels@,
{
    let mut copy: Vec<PriceLevel> = Vec::new();
    let mut i: usize = 0;
    while i < levels.len()
        invariant
            i <= levels.len(),
            copy@ == levels@.take(i as int),
        decreases levels.len() - i,
    {
        copy.push(levels[i]);
        i = i + 1;
        assert(copy@ =~= levels@.take(i as int));
    }
    assert(levels@.take(levels.len() as int) =~= levels@);
    copy
}

impl MergedView {
    #[verifier::type_invariant]
    spec fn valid(self) -> bool {
        self@.well_formed()
    }

    /// The pair that the view is of.
    pub fn pair(&self) -> (pair: &TradingPair)
        ensures
            pair@ == self@.pair,
    {
        &self.pair
    }

    /// The best asks, the lowest price first.
    pub fn top_asks(&self) -> (asks: &Vec<PriceLevel>)
        ensures
            asks@ == self@.top_asks,
            self@.well_formed(),
    {
        proof {
            use_type_invariant(self);
        }
        &self.top_asks
    }

    /// The best bids, the highest price first.
    pub fn top_bids(&self) -> (bids: &Vec<PriceLevel>)
        ensures
            bids@ == self@.top_bids,
            self@.well_formed(),
    {
        proof {
            use_type_invariant(self);
        }
        &self.top_bids
    }

    /// The level with the lowest asking price.
    pub fn best_ask(&self) -> (level: PriceLevel)
        ensures
            self@.top_asks.len() > 0,
            level == self@.top_asks[0],
    {
        proof {
            use_type_invariant(self);
        }
        self.top_asks[0]
    }

    /// The level with the highest bidding price.
    pub fn best_bid(&self) -> (level: PriceLevel)
        ensures
            self@.top_bids.len() > 0,
            level == self@.top_bids[0],
    {
        proof {
            use_type_invariant(self);
        }
        self.top_bids[0]
    }

    /// Best ask minus best bid; below zero where the books cross.
    pub fn spread(&self) -> (spread: SignedDecimal)
        ensures
            spread@ == self@.spread,
            spread_of(self@.top_asks, self@.top_bids) == Some(spread@),
    {
        proof {
            use_type_invariant(self);
        }
        self.spread
    }
}

impl Clone for MergedView {
    fn clone(&self) -> (view: MergedView)
        ensures
            view@ == self@,
    {
        proof {
            use_type_invariant(self);
        }
        MergedView {
            pair: self.pair.clone(),
            top_asks: copy_levels(&self.top_asks),
            top_bids: copy_levels(&self.top_bids),
            spread: self.spread,
        }
    }
}

/// Computes the view of `pair` from the snapshots in `store`: merges each
/// side, keeps the first `depth` levels and takes the spread. Returns
/// nothing while either side has no level, which is no failure.
pub fn compute_view(pair: &TradingPair, store: &SnapshotStore, depth: usize) -> (view: Option<
    MergedView,
>)
    ensures
        shown(view) == view_of(pair@, store@, depth as nat),
        view matches Some(v) ==> v@.well_formed() && v@.top_asks.len() <= depth
            && v@.top_bids.len() <= depth,
{
    let top_asks = top_levels(merge_side(store, Side::Ask), depth);
    let top_bids = top_levels(merge_side(store, Side::Bid), depth);
    proof {
        lemma_view_of(pair@, store@, depth as nat);
    }
    match spread(&top_asks, &top_bids) {
        Some(spread) => Some(MergedView { pair: pair.clone(), top_asks, top_bids, spread }),
        None => None,
    }
}

} // verus!
