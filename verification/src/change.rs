//! The change detector: what is new in a ladder, and which way its best
//! price moved, against the ladder of the view before.

use vstd::prelude::*;
use crate::book::PriceLevel;
use crate::decimal::Decimal;

verus! {

/// How a level stands to the ladder before. The detector gives `New` or
/// `Unchanged` for a level; the direction of prices is told once for a
/// side, as its `Trend`.
#[derive(Clone, Copy, Debug, PartialEq, Eq, Structural, Hash)]
pub enum ChangeClass {
    New,
    Increased,
    Decreased,
    Unchanged,
}

/// Which way the best price of a side moved.
#[derive(Clone, Copy, Debug, PartialEq, Eq, Structural, Hash)]
pub enum Trend {
    Up,
    Down,
    Flat,
}

/// A ladder's changes: one class for each level, in the ladder's order,
/// and the trend of the side.
#[derive(Debug)]
pub struct SideChanges {
    pub classes: Vec<ChangeClass>,
    pub trend: Option<Trend>,
}

/// What a ladder's changes hold.
pub struct ChangesModel {
    pub classes: Seq<ChangeClass>,
    pub trend: Option<Trend>,
}

impl View for SideChanges {
    type V = ChangesModel;

    open spec fn view(&self) -> ChangesModel {
        ChangesModel { classes: self.classes@, trend: self.trend }
    }
}

/// The levels of an optional ladder.
pub open spec fn levels_of(ladder: Option<&Vec<PriceLevel>>) -> Option<Seq<PriceLevel>> {
    match ladder {
        Some(l) => Some(l@),
        None => None,
    }
}

/// Whether some level of `ladder` has exactly the price `price`, on
/// whichever exchange.
pub open spec fn has_price(ladder: Seq<PriceLevel>, price: int) -> bool {
    exists|i: int| 0 <= i < ladder.len() && (#[trigger] ladder[i]).price@ == price
}

/// The class of a level priced `price`: `Unchanged` where the ladder
/// before has that price, `New` where it has not or where there is no
/// ladder before.
pub open spec fn class_of(price: int, previous: Option<Seq<PriceLevel>>) -> ChangeClass {
    match previous {
        Some(before) => if has_price(before, price) {
            ChangeClass::Unchanged
        } else {
            ChangeClass::New
        },
        None => ChangeClass::New,
    }
}

/// The class of each level of `ladder`.
pub open spec fn classes_of(ladder: Seq<PriceLevel>, previous: Option<Seq<PriceLevel>>) -> Seq<
    ChangeClass,
> {
    Seq::new(ladder.len(), |i: int| class_of(ladder[i].price@, previous))
}

/// The trend of a side: its best price now against its best price before.
/// There is none without a ladder before, or while either ladder is empty.
pub open spec fn trend_of(ladder: Seq<PriceLevel>, previous: Option<Seq<PriceLevel>>) -> Option<
    Trend,
> {
    match previous {
        Some(before) => if ladder.len() == 0 || before.len() == 0 {
            None
        } else if ladder[0].price@ > before[0].price@ {
            Some(Trend::Up)
        } else if ladder[0].price@ < before[0].price@ {
            Some(Trend::Down)
        } else {
            Some(Trend::Flat)
        },
        None => None,
    }
}

/// The changes of `ladder` against the ladder before.
pub open spec fn changes_of(
    ladder: Seq<PriceLevel>,
    previous: Option<Seq<PriceLevel>>,
) -> ChangesModel {
    ChangesModel { classes: classes_of(ladder, previous), trend: trend_of(ladder, previous) }
}

/// Whether some level of `ladder` has exactly the price `price`.
pub fn holds_price(ladder: &Vec<PriceLevel>, price: Decimal) -> (found: bool)
    ensures
        found == has_price(ladder@, price@),
{
    let mut i: usize = 0;
    while i < ladder.len()
        invariant
            i <= ladder.len(),
            forall|k: int| 0 <= k < i ==> (#[trigger] ladder@[k]).price@ != price@,
        decreases ladder.len() - i,
    {
        if ladder[i].price.units == price.units {
            return true;
        }
        i = i + 1;
    }
    false
}

/// Classifies one level against the ladder before: `New` where its exact
/// price is not in it, or where there is none; `Unchanged` otherwise.
pub fn classify_level(level: &PriceLevel, previous: Option<&Vec<PriceLevel>>) -> (class:
    ChangeClass)
    ensures
        class == class_of(level.price@, levels_of(previous)),
{
    match previous {
        Some(before) => {
            if holds_price(before, level.price) {
                ChangeClass::Unchanged
            } else {
                ChangeClass::New
            }
        },
        None => ChangeClass::New,
    }
}

/// The trend of a side: `Up` where its best price is now higher than
/// before, `Down` where it is lower, `Flat` where it is the same.
pub fn side_trend(ladder: &Vec<PriceLevel>, previous: Option<&Vec<PriceLevel>>) -> (trend: Option<
    Trend,
>)
    ensures
        trend == trend_of(ladder@, levels_of(previous)),
{
    match previous {
        Some(before) => {
            if ladder.len() == 0 || before.len() == 0 {
                None
            } else if ladder[0].price.is_above(before[0].price) {
                Some(Trend::Up)
            } else if ladder[0].price.is_below(before[0].price) {
                Some(Trend::Down)
            } else {
                Some(Trend::Flat)
            }
        },
        None => None,
    }
}

/// Compares `ladder` with the ladder of the same side in the view before.
pub fn detect_changes(ladder: &Vec<PriceLevel>, previous: Option<&Vec<PriceLevel>>) -> (changes:
    SideChanges)
    ensures
        changes@ == changes_of(ladder@, levels_of(previous)),
{
    let mut classes: Vec<ChangeClass> = Vec::new();
    let mut i: usize = 0;
    while i < ladder.len()
        invariant
            i <= ladder.len(),
            classes@ == classes_of(ladder@, levels_of(previous)).take(i as int),
        decreases ladder.len() - i,
    {
        let class = classify_level(&ladder[i], previous);
        classes.push(class);
        i = i + 1;
        assert(classes@ =~= classes_of(ladder@, levels_of(previous)).take(i as int));
    }
    assert(classes@ =~= classes_of(ladder@, levels_of(previous)));
    SideChanges { classes, trend: side_trend(ladder, previous) }
}

} // verus!
