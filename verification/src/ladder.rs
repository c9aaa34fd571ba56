//! Ladders: price levels in the order of their side, ties in arrival order.

use vstd::prelude::*;
use vstd::seq_lib::{to_multiset_build, to_multiset_insert};
use crate::book::{PriceLevel, Side};
use crate::decimal::Decimal;

verus! {

/// Whether a level priced `a` may stand before one priced `b` on `side`:
/// asks rise, bids fall.
pub open spec fn in_order(side: Side, a: int, b: int) -> bool {
    match side {
        Side::Ask => a <= b,
        Side::Bid => a >= b,
    }
}

/// Whether `s` is in the order of `side` by price: asks never fall, bids
/// never rise.
pub open spec fn is_ladder(side: Side, s: Seq<PriceLevel>) -> bool {
    forall|i: int, j: int|
        #![trigger s[i], s[j]]
        0 <= i <= j < s.len() ==> in_order(side, s[i].price@, s[j].price@)
}

/// The levels of `s` whose price is `price`, in the order in which `s`
/// holds them.
pub open spec fn at_price(s: Seq<PriceLevel>, price: int) -> Seq<PriceLevel> {
    s.filter(priced(price))
}

/// The test for a level's price being `price`.
pub open spec fn priced(price: int) -> spec_fn(PriceLevel) -> bool {
    |l: PriceLevel| l.price@ == price
}

/// Where a level priced `price` enters the ladder `s`: behind every level
/// that may stand before it, so behind the levels of its own price.
pub open spec fn slot(side: Side, s: Seq<PriceLevel>, price: int) -> int
    decreases s.len(),
{
    if s.len() == 0 {
        0
    } else if in_order(side, s.last().price@, price) {
        s.len() as int
    } else {
        slot(side, s.drop_last(), price)
    }
}

/// The ladder `s` with `level` entered at its slot.
pub open spec fn place(side: Side, s: Seq<PriceLevel>, level: PriceLevel) -> Seq<PriceLevel> {
    s.insert(slot(side, s, level.price@), level)
}

/// The levels of `s` as a ladder of `side`: ordered by price, levels of one
/// price in the order in which `s` holds them.
pub open spec fn ranked(side: Side, s: Seq<PriceLevel>) -> Seq<PriceLevel>
    decreases s.len(),
{
    if s.len() == 0 {
        Seq::empty()
    } else {
        place(side, ranked(side, s.drop_last()), s.last())
    }
}

/// Whether `a` may stand before `b` on `side`.
pub fn prices_in_order(side: Side, a: Decimal, b: Decimal) -> (r: bool)
    ensures
        r == in_order(side, a@, b@),
{
    match side {
        Side::Ask => a.units <= b.units,
        Side::Bid => a.units >= b.units,
    }
}

/// The slot lies within the ladder; the level before it may stand before
/// `price`, and no level from it on may.
pub proof fn lemma_slot(side: Side, s: Seq<PriceLevel>, price: int)
    ensures
        0 <= slot(side, s, price) <= s.len(),
        slot(side, s, price) > 0 ==> in_order(side, s[slot(side, s, price) - 1].price@, price),
        forall|k: int|
            slot(side, s, price) <= k < s.len() ==> !in_order(side, (#[trigger] s[k]).price@, price),
    decreases s.len(),
{
    if s.len() > 0 && !in_order(side, s.last().price@, price) {
        lemma_slot(side, s.drop_last(), price);
        let t = s.drop_last();
        assert forall|k: int| slot(side, s, price) <= k < s.len() implies !in_order(
            side,
            (#[trigger] s[k]).price@,
            price,
        ) by {
            if k < t.len() {
                assert(t[k] == s[k]);
            }
        }
    }
}

/// Entering a level at its slot keeps a ladder a ladder.
pub proof fn lemma_place_keeps_ladder(side: Side, s: Seq<PriceLevel>, level: PriceLevel)
    requires
        is_ladder(side, s),
    ensures
        is_ladder(side, place(side, s, level)),
        place(side, s, level).len() == s.len() + 1,
{
    let p = level.price@;
    let k = slot(side, s, p);
    lemma_slot(side, s, p);
    let r = place(side, s, level);
    assert forall|i: int, j: int| 0 <= i <= j < r.len() implies in_order(
        side,
        #[trigger] r[i].price@,
        #[trigger] r[j].price@,
    ) by {
        if j < k {
            assert(r[i] == s[i] && r[j] == s[j]);
        } else if j == k {
            if i < k {
                assert(r[i] == s[i]);
                assert(in_order(side, s[i].price@, s[k - 1].price@));
            }
        } else {
            assert(r[j] == s[j - 1]);
            assert(!in_order(side, s[j - 1].price@, p));
            if i < k {
                assert(r[i] == s[i]);
            } else if i > k {
                assert(r[i] == s[i - 1]);
            }
        }
    }
}

/// Entering a level at its slot puts it behind the levels of its price and
/// leaves every other price as it was.
pub proof fn lemma_place_at_price(side: Side, s: Seq<PriceLevel>, level: PriceLevel, price: int)
    ensures
        at_price(place(side, s, level), price) == if level.price@ == price {
            at_price(s, price).push(level)
        } else {
            at_price(s, price)
        },
{
    let p = level.price@;
    let k = slot(side, s, p);
    lemma_slot(side, s, p);
    let pred = priced(price);
    let head = s.subrange(0, k);
    let tail = s.subrange(k, s.len() as int);
    assert(s =~= head + tail);
    assert(place(side, s, level) =~= head.push(level) + tail);
    Seq::filter_distributes_over_add(head, tail, pred);
    Seq::filter_distributes_over_add(head.push(level), tail, pred);
    Seq::lemma_filter_push(head, level, pred);
    if p == price {
        assert forall|i: int| 0 <= i < tail.len() implies !pred(#[trigger] tail[i]) by {
            assert(tail[i] == s[k + i]);
        }
        tail.lemma_all_neg_filter_empty(pred);
        assert(tail.filter(pred) =~= Seq::empty());
        assert(at_price(s, price) =~= head.filter(pred));
        assert(at_price(place(side, s, level), price) =~= head.filter(pred).push(level));
    } else {
        assert(head.push(level).filter(pred) == head.filter(pred));
    }
}

/// A ranked sequence is a ladder of its side and has the length of what
/// was ranked.
pub proof fn lemma_ranked_is_ladder(side: Side, s: Seq<PriceLevel>)
    ensures
        is_ladder(side, ranked(side, s)),
        ranked(side, s).len() == s.len(),
    decreases s.len(),
{
    if s.len() > 0 {
        lemma_ranked_is_ladder(side, s.drop_last());
        lemma_place_keeps_ladder(side, ranked(side, s.drop_last()), s.last());
    }
}

/// Ranking keeps, for every price, the levels of that price and their
/// order: nothing is lost or invented, and ties stay in arrival order.
pub proof fn lemma_ranked_at_price(side: Side, s: Seq<PriceLevel>, price: int)
    ensures
        at_price(ranked(side, s), price) == at_price(s, price),
    decreases s.len(),
{
    let pred = priced(price);
    if s.len() == 0 {
        assert(ranked(side, s) =~= s);
    } else {
        let t = s.drop_last();
        lemma_ranked_at_price(side, t, price);
        lemma_place_at_price(side, ranked(side, t), s.last(), price);
        Seq::lemma_filter_push(t, s.last(), pred);
        assert(s =~= t.push(s.last()));
    }
}

/// Ranking keeps the levels: each as often as it was offered.
pub proof fn lemma_ranked_levels(side: Side, s: Seq<PriceLevel>)
    ensures
        ranked(side, s).to_multiset() == s.to_multiset(),
    decreases s.len(),
{
    if s.len() == 0 {
        assert(ranked(side, s) =~= s);
    } else {
        let t = s.drop_last();
        lemma_ranked_levels(side, t);
        lemma_slot(side, ranked(side, t), s.last().price@);
        to_multiset_insert(ranked(side, t), slot(side, ranked(side, t), s.last().price@), s.last());
        to_multiset_build(t, s.last());
        assert(s =~= t.push(s.last()));
    }
}

/// The first level of a sequence is the first of the levels of its price.
pub proof fn lemma_first_at_price(s: Seq<PriceLevel>)
    requires
        s.len() > 0,
    ensures
        at_price(s, s[0].price@).len() > 0,
        at_price(s, s[0].price@)[0] == s[0],
        forall|price: int|
            #[trigger] at_price(s.drop_first(), price) == if s[0].price@ == price {
                at_price(s, price).drop_first()
            } else {
                at_price(s, price)
            },
{
    let rest = s.drop_first();
    assert(seq![s[0]] + rest =~= s);
    rest.lemma_filter_prepend(s[0], priced(s[0].price@));
    assert forall|price: int|
        #[trigger] at_price(rest, price) == if s[0].price@ == price {
            at_price(s, price).drop_first()
        } else {
            at_price(s, price)
        } by {
        rest.lemma_filter_prepend(s[0], priced(price));
        if s[0].price@ == price {
            assert((seq![s[0]] + at_price(rest, price)).drop_first() =~= at_price(rest, price));
        } else {
            assert(Seq::<PriceLevel>::empty() + at_price(rest, price) =~= at_price(rest, price));
        }
    }
}

/// There is one ladder only that holds, at every price, given levels in a
/// given order: order by price and arrival order among ties leave nothing
/// open.
pub proof fn lemma_ladder_is_unique(side: Side, a: Seq<PriceLevel>, b: Seq<PriceLevel>)
    requires
        is_ladder(side, a),
        is_ladder(side, b),
        forall|price: int| #[trigger] at_price(a, price) == at_price(b, price),
    ensures
        a == b,
    decreases a.len(),
{
    if a.len() == 0 || b.len() == 0 {
        if a.len() > 0 {
            lemma_first_at_price(a);
            b.lemma_filter_len(priced(a[0].price@));
            assert(at_price(a, a[0].price@) == at_price(b, a[0].price@));
            assert(at_price(b, a[0].price@).len() <= b.len());
        }
        if b.len() > 0 {
            lemma_first_at_price(b);
            a.lemma_filter_len(priced(b[0].price@));
            assert(at_price(a, b[0].price@) == at_price(b, b[0].price@));
            assert(at_price(a, b[0].price@).len() <= a.len());
        }
        assert(a =~= b);
    } else {
        lemma_first_at_price(a);
        lemma_first_at_price(b);
        let pa = a[0].price@;
        let pb = b[0].price@;
        assert(in_order(side, pb, pa)) by {
            assert(at_price(b, pa).contains(at_price(b, pa)[0]));
            b.lemma_filter_contains_rev(priced(pa), a[0]);
            let j = choose|j: int| 0 <= j < b.len() && b[j] == a[0];
            assert(in_order(side, b[0].price@, b[j].price@));
        }
        assert(in_order(side, pa, pb)) by {
            assert(at_price(a, pb).contains(at_price(a, pb)[0]));
            a.lemma_filter_contains_rev(priced(pb), b[0]);
            let j = choose|j: int| 0 <= j < a.len() && a[j] == b[0];
            assert(in_order(side, a[0].price@, a[j].price@));
        }
        assert(pa == pb);
        let a1 = a.drop_first();
        let b1 = b.drop_first();
        assert forall|i: int, j: int| 0 <= i <= j < a1.len() implies in_order(
            side,
            #[trigger] a1[i].price@,
            #[trigger] a1[j].price@,
        ) by {
            assert(a1[i] == a[i + 1] && a1[j] == a[j + 1]);
        }
        assert forall|i: int, j: int| 0 <= i <= j < b1.len() implies in_order(
            side,
            #[trigger] b1[i].price@,
            #[trigger] b1[j].price@,
        ) by {
            assert(b1[i] == b[i + 1] && b1[j] == b[j + 1]);
        }
        assert forall|price: int| #[trigger] at_price(a1, price) == at_price(b1, price) by {
            assert(at_price(a, price) == at_price(b, price));
        }
        lemma_ladder_is_unique(side, a1, b1);
        assert(a =~= seq![a[0]] + a1);
        assert(b =~= seq![b[0]] + b1);
    }
}

/// Ranking one more level enters it into the ranking of the others.
pub proof fn lemma_ranked_push(side: Side, s: Seq<PriceLevel>, level: PriceLevel)
    ensures
        ranked(side, s.push(level)) == place(side, ranked(side, s), level),
{
    assert(s.push(level).drop_last() =~= s);
}

/// Enters `level` into `ladder` at its slot.
pub fn insert_level(side: Side, ladder: &mut Vec<PriceLevel>, level: PriceLevel)
    ensures
        final(ladder)@ == place(side, old(ladder)@, level),
{
    let mut k: usize = ladder.len();
    assert(ladder@.take(k as int) =~= ladder@);
    while k > 0 && !prices_in_order(side, ladder[k - 1].price, level.price)
        invariant
            k <= ladder.len(),
            ladder@ == old(ladder)@,
            slot(side, ladder@, level.price@) == slot(side, ladder@.take(k as int), level.price@),
        decreases k,
    {
        proof {
            let t = ladder@.take(k as int);
            assert(t.last() == ladder@[k - 1]);
            assert(t.drop_last() =~= ladder@.take(k - 1));
        }
        k = k - 1;
    }
    proof {
        let t = ladder@.take(k as int);
        if k > 0 {
            assert(t.last() == ladder@[k - 1]);
        }
        assert(slot(side, t, level.price@) == k);
    }
    ladder.insert(k, level);
}

} // verus!
