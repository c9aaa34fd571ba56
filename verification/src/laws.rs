//! What holds of every ladder, view and session.

use vstd::prelude::*;
use crate::book::{ExchangeId, PriceLevel, Side, SnapshotView};
use crate::change::{class_of, has_price, ChangeClass, Trend};
use crate::ladder::{
    at_price, is_ladder, lemma_ladder_is_unique, lemma_ranked_at_price, lemma_ranked_is_ladder,
    lemma_ranked_levels, priced,
};
use crate::merge::{contribution, merged, offered};
use crate::select::top;
use crate::session::{phase_of, Phase, SessionModel};
use crate::store::present;
use crate::view::{lemma_top_is_ladder, lemma_view_of, view_of};

verus! {

/// The best asks never fall and the best bids never rise by price,
/// whatever snapshots the exchanges delivered and whatever the depth.
pub proof fn law_ladders_are_ordered(books: Map<ExchangeId, SnapshotView>, depth: nat)
    ensures
        is_ladder(Side::Ask, top(merged(books, Side::Ask), depth)),
        is_ladder(Side::Bid, top(merged(books, Side::Bid), depth)),
        forall|i: int, j: int|
            #![trigger top(merged(books, Side::Ask), depth)[i], top(merged(books, Side::Ask), depth)[j]]
            0 <= i <= j < top(merged(books, Side::Ask), depth).len() ==> top(
                merged(books, Side::Ask),
                depth,
            )[i].price@ <= top(merged(books, Side::Ask), depth)[j].price@,
        forall|i: int, j: int|
            #![trigger top(merged(books, Side::Bid), depth)[i], top(merged(books, Side::Bid), depth)[j]]
            0 <= i <= j < top(merged(books, Side::Bid), depth).len() ==> top(
                merged(books, Side::Bid),
                depth,
            )[i].price@ >= top(merged(books, Side::Bid), depth)[j].price@,
{
    lemma_ranked_is_ladder(Side::Ask, offered(books, Side::Ask));
    lemma_ranked_is_ladder(Side::Bid, offered(books, Side::Bid));
    lemma_top_is_ladder(Side::Ask, merged(books, Side::Ask), depth);
    lemma_top_is_ladder(Side::Bid, merged(books, Side::Bid), depth);
}

/// How many levels an exchange offers on `side`: those of its snapshot, or
/// none while it has no snapshot.
pub open spec fn available(
    books: Map<ExchangeId, SnapshotView>,
    exchange: ExchangeId,
    side: Side,
) -> nat {
    if books.contains_key(exchange) {
        books[exchange].side(side).len()
    } else {
        0
    }
}

/// A side of a view holds `depth` levels, or all that the exchanges offer
/// where they offer fewer.
pub proof fn law_depth(books: Map<ExchangeId, SnapshotView>, side: Side, depth: nat)
    ensures
        top(merged(books, side), depth).len() == vstd::math::min(
            depth as int,
            (available(books, ExchangeId::Binance, side) + available(
                books,
                ExchangeId::Bitstamp,
                side,
            )) as int,
        ),
{
    lemma_ranked_is_ladder(side, offered(books, side));
}

/// The merged ladder holds, at every price, the levels that the first
/// exchange offers at that price and then those that the second offers,
/// each in the order of its snapshot: nothing is lost or added, and a tie
/// between exchanges always falls the same way.
pub proof fn law_ties_fall_in_exchange_order(
    books: Map<ExchangeId, SnapshotView>,
    side: Side,
    price: int,
)
    ensures
        at_price(merged(books, side), price) == at_price(
            contribution(books, ExchangeId::Binance, side),
            price,
        ) + at_price(contribution(books, ExchangeId::Bitstamp, side), price),
{
    lemma_ranked_at_price(side, offered(books, side), price);
    Seq::filter_distributes_over_add(
        contribution(books, ExchangeId::Binance, side),
        contribution(books, ExchangeId::Bitstamp, side),
        priced(price),
    );
}

/// The merged ladder is the only ladder of its side that holds, at every
/// price, the offered levels of that price in the order in which they are
/// offered: the order by price and the order among ties leave nothing open.
pub proof fn law_merged_is_the_stable_order(
    books: Map<ExchangeId, SnapshotView>,
    side: Side,
    ladder: Seq<PriceLevel>,
)
    requires
        is_ladder(side, ladder),
        forall|price: int|
            #[trigger] at_price(ladder, price) == at_price(offered(books, side), price),
    ensures
        ladder == merged(books, side),
{
    lemma_ranked_is_ladder(side, offered(books, side));
    assert forall|price: int| #[trigger]
        at_price(ladder, price) == at_price(merged(books, side), price) by {
        lemma_ranked_at_price(side, offered(books, side), price);
    }
    lemma_ladder_is_unique(side, ladder, merged(books, side));
}

/// The merged ladder holds the offered levels, each as often as it is
/// offered, and no other.
pub proof fn law_nothing_lost_or_added(books: Map<ExchangeId, SnapshotView>, side: Side)
    ensures
        merged(books, side).to_multiset() == offered(books, side).to_multiset(),
        merged(books, side).len() == offered(books, side).len(),
{
    lemma_ranked_levels(side, offered(books, side));
    lemma_ranked_is_ladder(side, offered(books, side));
}

/// The view does not depend on which exchange delivered last: two
/// exchanges' snapshots give the same store, the same ladders and the same
/// view in either order of arrival.
pub proof fn law_arrival_order_is_immaterial(
    s: SessionModel,
    first: ExchangeId,
    a: SnapshotView,
    second: ExchangeId,
    b: SnapshotView,
)
    requires
        first != second,
    ensures
        s.deliver(first, a).deliver(second, b).books == s.deliver(second, b).deliver(
            first,
            a,
        ).books,
        s.deliver(first, a).recomputed(second, b) == s.deliver(second, b).recomputed(first, a),
        forall|side: Side|
            merged(#[trigger] s.deliver(first, a).deliver(second, b).books, side) == merged(
                s.deliver(second, b).deliver(first, a).books,
                side,
            ),
{
    assert(s.books.insert(first, a).insert(second, b) =~= s.books.insert(second, b).insert(
        first,
        a,
    ));
}

/// A level is `New` exactly when the ladder before does not hold its
/// price, or there is no ladder before, and `Unchanged` otherwise; the
/// exchange of a level plays no part.
pub proof fn law_new_or_unchanged(price: int, previous: Option<Seq<PriceLevel>>)
    ensures
        class_of(price, previous) == ChangeClass::New <==> (previous matches Some(before)
            ==> !has_price(before, price)),
        class_of(price, previous) == ChangeClass::Unchanged <==> (previous matches Some(before)
            && has_price(before, price)),
        class_of(price, previous) == ChangeClass::New || class_of(price, previous)
            == ChangeClass::Unchanged,
{
}

/// Each level of a reported view is classed against the same side of the
/// session's last view.
pub proof fn law_report_classes(s: SessionModel, exchange: ExchangeId, snapshot: SnapshotView)
    ensures
        s.emits(exchange, snapshot) matches Some(r) ==> {
            &&& r.asks.classes.len() == r.view.top_asks.len()
            &&& r.bids.classes.len() == r.view.top_bids.len()
            &&& forall|i: int|
                0 <= i < r.view.top_asks.len() ==> (#[trigger] r.asks.classes[i]
                    == ChangeClass::New <==> (s.last matches Some(before) ==> !has_price(
                    before.top_asks,
                    r.view.top_asks[i].price@,
                )))
            &&& forall|i: int|
                0 <= i < r.view.top_asks.len() ==> (#[trigger] r.asks.classes[i]
                    == ChangeClass::Unchanged <==> (s.last matches Some(before) && has_price(
                    before.top_asks,
                    r.view.top_asks[i].price@,
                )))
            &&& forall|i: int|
                0 <= i < r.view.top_bids.len() ==> (#[trigger] r.bids.classes[i]
                    == ChangeClass::New <==> (s.last matches Some(before) ==> !has_price(
                    before.top_bids,
                    r.view.top_bids[i].price@,
                )))
            &&& forall|i: int|
                0 <= i < r.view.top_bids.len() ==> (#[trigger] r.bids.classes[i]
                    == ChangeClass::Unchanged <==> (s.last matches Some(before) && has_price(
                    before.top_bids,
                    r.view.top_bids[i].price@,
                )))
        },
{
}

/// The trend of a side is `Up` exactly when its best price is higher than
/// in the last view, `Down` when it is lower and `Flat` when it is the
/// same; the first view of a pair has no trend.
pub proof fn law_trend(s: SessionModel, exchange: ExchangeId, snapshot: SnapshotView)
    requires
        s.consistent(),
    ensures
        s.emits(exchange, snapshot) matches Some(r) ==> match s.last {
            None => r.asks.trend is None && r.bids.trend is None,
            Some(before) => {
                &&& r.asks.trend == Some(Trend::Up) <==> r.view.top_asks[0].price@
                    > before.top_asks[0].price@
                &&& r.asks.trend == Some(Trend::Down) <==> r.view.top_asks[0].price@
                    < before.top_asks[0].price@
                &&& r.asks.trend == Some(Trend::Flat) <==> r.view.top_asks[0].price@
                    == before.top_asks[0].price@
                &&& r.bids.trend == Some(Trend::Up) <==> r.view.top_bids[0].price@
                    > before.top_bids[0].price@
                &&& r.bids.trend == Some(Trend::Down) <==> r.view.top_bids[0].price@
                    < before.top_bids[0].price@
                &&& r.bids.trend == Some(Trend::Flat) <==> r.view.top_bids[0].price@
                    == before.top_bids[0].price@
            },
        },
{
    lemma_view_of(s.pair, s.books.insert(exchange, snapshot), s.depth);
}

/// A view is handed on exactly when both ladders have a level, and its
/// spread is then the best ask minus the best bid.
pub proof fn law_spread(s: SessionModel, exchange: ExchangeId, snapshot: SnapshotView)
    ensures
        s.emits(exchange, snapshot) is Some <==> merged(
            s.deliver(exchange, snapshot).books,
            Side::Ask,
        ).len() > 0 && merged(s.deliver(exchange, snapshot).books, Side::Bid).len() > 0
            && s.depth > 0,
        s.emits(exchange, snapshot) matches Some(r) ==> r.view.top_asks.len() > 0
            && r.view.top_bids.len() > 0 && r.view.spread == r.view.top_asks[0].price@
            - r.view.top_bids[0].price@,
{
}

/// Delivering again what an exchange delivered last changes nothing: the
/// session stays as it is, and where a view is handed on it is the last
/// view, every level `Unchanged` and both trends `Flat`.
pub proof fn law_redelivery(s: SessionModel, exchange: ExchangeId, snapshot: SnapshotView)
    ensures
        ({
            let once = s.deliver(exchange, snapshot);
            &&& once.deliver(exchange, snapshot) == once
            &&& once.emits(exchange, snapshot) is Some <==> s.emits(exchange, snapshot) is Some
            &&& once.emits(exchange, snapshot) matches Some(r) ==> {
                &&& Some(r.view) == once.last
                &&& r.view == s.emits(exchange, snapshot).unwrap().view
                &&& forall|i: int|
                    0 <= i < r.asks.classes.len() ==> #[trigger] r.asks.classes[i]
                        == ChangeClass::Unchanged
                &&& forall|i: int|
                    0 <= i < r.bids.classes.len() ==> #[trigger] r.bids.classes[i]
                        == ChangeClass::Unchanged
                &&& r.asks.trend == Some(Trend::Flat)
                &&& r.bids.trend == Some(Trend::Flat)
            }
        }),
{
    let once = s.deliver(exchange, snapshot);
    assert(once.books.insert(exchange, snapshot) =~= once.books);
    match once.emits(exchange, snapshot) {
        Some(r) => {
            assert forall|i: int| 0 <= i < r.asks.classes.len() implies #[trigger] r.asks.classes[i]
                == ChangeClass::Unchanged by {
                assert(r.view.top_asks[i].price@ == r.view.top_asks[i].price@);
            }
            assert forall|i: int| 0 <= i < r.bids.classes.len() implies #[trigger] r.bids.classes[i]
                == ChangeClass::Unchanged by {
                assert(r.view.top_bids[i].price@ == r.view.top_bids[i].price@);
            }
        },
        None => {},
    }
}

/// A store without snapshots gives no view, and a session to which
/// nothing was delivered is consistent.
pub proof fn law_no_view_from_nothing(
    pair: Seq<char>,
    books: Map<ExchangeId, SnapshotView>,
    depth: nat,
)
    requires
        present(books) == 0,
    ensures
        view_of(pair, books, depth) is None,
        SessionModel::fresh(pair, depth).consistent(),
{
    assert(offered(books, Side::Ask) =~= Seq::<PriceLevel>::empty());
}

/// A session starts `Empty`. The first snapshot makes it `Partial`; it
/// becomes `Ready` when the other exchange delivers, stays `Partial` while
/// the same one does, and once `Ready` stays so.
pub proof fn law_phases(s: SessionModel, exchange: ExchangeId, snapshot: SnapshotView)
    ensures
        SessionModel::fresh(s.pair, s.depth).phase() == Phase::Empty,
        s.phase() == Phase::Empty ==> s.deliver(exchange, snapshot).phase() == Phase::Partial,
        s.phase() == Phase::Partial ==> s.deliver(exchange, snapshot).phase() == if s.books.contains_key(
            exchange,
        ) {
            Phase::Partial
        } else {
            Phase::Ready
        },
        s.phase() == Phase::Ready ==> s.deliver(exchange, snapshot).phase() == Phase::Ready,
{
    let other = match exchange {
        ExchangeId::Binance => ExchangeId::Bitstamp,
        ExchangeId::Bitstamp => ExchangeId::Binance,
    };
    assert(s.books.insert(exchange, snapshot).contains_key(exchange));
    assert(s.books.insert(exchange, snapshot).contains_key(other) == s.books.contains_key(other));
}

} // verus!
