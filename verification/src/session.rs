//! The session of one pair: it owns the pair's snapshot store and its last
//! view, and recomputes the view whenever an exchange delivers a snapshot.

use vstd::prelude::*;
use crate::book::{ExchangeId, OrderBookSnapshot, PriceLevel, SnapshotView};
use crate::change::{changes_of, detect_changes, ChangesModel, SideChanges};
use crate::pairs::TradingPair;
use crate::store::{present, SnapshotStore};
use crate::view::{compute_view, lemma_view_of, shown, view_of, MergedView, ViewModel};

verus! {

/// How much of a pair's data has arrived.
#[derive(Clone, Copy, Debug, PartialEq, Eq, Structural, Hash)]
pub enum Phase {
    /// No exchange has delivered a snapshot.
    Empty,
    /// One exchange has.
    Partial,
    /// Both have. A session never leaves this phase: an exchange that goes
    /// silent keeps its last snapshot.
    Ready,
}

/// A computed view with what changed since the view before: one class
/// for each level of each ladder.
#[derive(Debug)]
pub struct ViewReport {
    view: MergedView,
    asks: SideChanges,
    bids: SideChanges,
}

/// What a report holds.
pub struct ReportModel {
    pub view: ViewModel,
    pub asks: ChangesModel,
    pub bids: ChangesModel,
}

impl View for ViewReport {
    type V = ReportModel;

    closed spec fn view(&self) -> ReportModel {
        ReportModel { view: self.view@, asks: self.asks@, bids: self.bids@ }
    }
}

impl ReportModel {
    /// Each ladder has one class for each of its levels.
    pub open spec fn well_formed(self) -> bool {
        &&& self.view.well_formed()
        &&& self.asks.classes.len() == self.view.top_asks.len()
        &&& self.bids.classes.len() == self.view.top_bids.len()
    }
}

impl ViewReport {
    #[verifier::type_invariant]
    spec fn valid(self) -> bool {
        self@.well_formed()
    }

    /// The view.
    pub fn merged_view(&self) -> (view: &MergedView)
        ensures
            view@ == self@.view,
            self@.well_formed(),
    {
        proof {
            use_type_invariant(self);
        }
        &self.view
    }

    /// The changes of the asks.
    pub fn asks(&self) -> (asks: &SideChanges)
        ensures
            asks@ == self@.asks,
            self@.well_formed(),
    {
        proof {
            use_type_invariant(self);
        }
        &self.asks
    }

    /// The changes of the bids.
    pub fn bids(&self) -> (bids: &SideChanges)
        ensures
            bids@ == self@.bids,
            self@.well_formed(),
    {
        proof {
            use_type_invariant(self);
        }
        &self.bids
    }
}

/// What an optional report holds.
pub open spec fn reported(report: Option<ViewReport>) -> Option<ReportModel> {
    match report {
        Some(r) => Some(r@),
        None => None,
    }
}

/// The asks of an optional view.
pub open spec fn asks_of(view: Option<ViewModel>) -> Option<Seq<PriceLevel>> {
    match view {
        Some(v) => Some(v.top_asks),
        None => None,
    }
}

/// The bids of an optional view.
pub open spec fn bids_of(view: Option<ViewModel>) -> Option<Seq<PriceLevel>> {
    match view {
        Some(v) => Some(v.top_bids),
        None => None,
    }
}

/// The report on `view`, each side compared with the same side of the view
/// before.
pub open spec fn report_of(view: ViewModel, previous: Option<ViewModel>) -> ReportModel {
    ReportModel {
        view,
        asks: changes_of(view.top_asks, asks_of(previous)),
        bids: changes_of(view.top_bids, bids_of(previous)),
    }
}

/// The phase of a session that holds `books`.
pub open spec fn phase_of(books: Map<ExchangeId, SnapshotView>) -> Phase {
    if present(books) == 0 {
        Phase::Empty
    } else if present(books) == 1 {
        Phase::Partial
    } else {
        Phase::Ready
    }
}

/// The state of a session.
pub struct SessionModel {
    pub pair: Seq<char>,
    pub depth: nat,
    pub books: Map<ExchangeId, SnapshotView>,
    pub last: Option<ViewModel>,
}

impl SessionModel {
    /// A session of `pair` to which nothing was delivered.
    pub open spec fn fresh(pair: Seq<char>, depth: nat) -> SessionModel {
        SessionModel { pair, depth, books: Map::empty(), last: None }
    }

    /// The view that a delivery computes, if it gives one.
    pub open spec fn recomputed(self, exchange: ExchangeId, snapshot: SnapshotView) -> Option<
        ViewModel,
    > {
        view_of(self.pair, self.books.insert(exchange, snapshot), self.depth)
    }

    /// The state after `exchange` delivers `snapshot`: the snapshot replaces
    /// the one that the exchange had, and the view that this gives, if it
    /// gives one, replaces the last view.
    pub open spec fn deliver(self, exchange: ExchangeId, snapshot: SnapshotView) -> SessionModel {
        SessionModel {
            pair: self.pair,
            depth: self.depth,
            books: self.books.insert(exchange, snapshot),
            last: match self.recomputed(exchange, snapshot) {
                Some(v) => Some(v),
                None => self.last,
            },
        }
    }

    /// What a delivery hands on: the new view with its changes against the
    /// last view, or nothing while a side has no level.
    pub open spec fn emits(self, exchange: ExchangeId, snapshot: SnapshotView) -> Option<
        ReportModel,
    > {
        match self.recomputed(exchange, snapshot) {
            Some(v) => Some(report_of(v, self.last)),
            None => None,
        }
    }

    /// The phase of the session.
    pub open spec fn phase(self) -> Phase {
        phase_of(self.books)
    }

    /// The last view, if there is one, is well formed, of this pair and
    /// within the depth.
    pub open spec fn consistent(self) -> bool {
        self.last matches Some(v) ==> {
            &&& v.well_formed()
            &&& v.pair == self.pair
            &&& v.top_asks.len() <= self.depth
            &&& v.top_bids.len() <= self.depth
        }
    }
}

/// A delivery keeps a session consistent.
pub proof fn lemma_deliver_consistent(s: SessionModel, exchange: ExchangeId, snapshot: SnapshotView)
    requires
        s.consistent(),
    ensures
        s.deliver(exchange, snapshot).consistent(),
{
    lemma_view_of(s.pair, s.books.insert(exchange, snapshot), s.depth);
}

/// The coordinator of one pair. It alone changes the pair's store and last
/// view.
#[derive(Debug)]
pub struct PairSession {
    pair: TradingPair,
    depth: usize,
    store: SnapshotStore,
    last: Option<MergedView>,
}

impl View for PairSession {
    type V = SessionModel;

    closed spec fn view(&self) -> SessionModel {
        SessionModel {
            pair: self.pair@,
            depth: self.depth as nat,
            books: self.store@,
            last: shown(self.last),
        }
    }
}

impl PairSession {
    /// Whether the store holds a snapshot that no view was computed from.
    pub closed spec fn pending(&self) -> bool {
        self.store.dirty()
    }

    /// A session of `pair` that keeps `depth` levels of each side.
    pub fn new(pair: TradingPair, depth: usize) -> (session: PairSession)
        ensures
            session@ == SessionModel::fresh(pair@, depth as nat),
            session@.consistent(),
            !session.pending(),
    {
        PairSession { pair, depth, store: SnapshotStore::new(), last: None }
    }

    /// The pair of this session.
    pub fn pair(&self) -> (pair: &TradingPair)
        ensures
            pair@ == self@.pair,
    {
        &self.pair
    }

    /// How many levels of each side a view keeps.
    pub fn depth(&self) -> (depth: usize)
        ensures
            depth == self@.depth,
    {
        self.depth
    }

    /// The snapshots held.
    pub fn store(&self) -> (store: &SnapshotStore)
        ensures
            store@ == self@.books,
            store.dirty() == self.pending(),
    {
        &self.store
    }

    /// The last view that a delivery gave, if any did.
    pub fn last_view(&self) -> (view: Option<&MergedView>)
        ensures
            view is Some <==> self@.last is Some,
            view matches Some(v) ==> self@.last == Some(v@),
    {
        self.last.as_ref()
    }

    /// How much of the pair's data has arrived.
    pub fn phase(&self) -> (phase: Phase)
        ensures
            phase == self@.phase(),
    {
        let n: usize = self.store.count();
        if n == 0 {
            Phase::Empty
        } else if n == 1 {
            Phase::Partial
        } else {
            Phase::Ready
        }
    }

    /// Takes a snapshot from `exchange`: stores it in place of the one the
    /// exchange had, recomputes the view from all snapshots held, compares
    /// it with the last view, keeps it as the last view and returns it with
    /// its changes. While a side has no level nothing is returned and the
    /// last view stays.
    pub fn deliver(&mut self, exchange: ExchangeId, snapshot: OrderBookSnapshot) -> (report:
        Option<ViewReport>)
        ensures
            final(self)@ == old(self)@.deliver(exchange, snapshot@),
            reported(report) == old(self)@.emits(exchange, snapshot@),
            old(self)@.consistent() ==> final(self)@.consistent(),
            !final(self).pending(),
    {
        proof {
            lemma_view_of(self@.pair, self@.books.insert(exchange, snapshot@), self@.depth);
        }
        self.store.update(exchange, snapshot);
        let computed = compute_view(&self.pair, &self.store, self.depth);
        self.store.mark_clean();
        match computed {
            Some(view) => {
                let asks = detect_changes(
                    view.top_asks(),
                    match &self.last {
                        Some(before) => Some(before.top_asks()),
                        None => None,
                    },
                );
                let bids = detect_changes(
                    view.top_bids(),
                    match &self.last {
                        Some(before) => Some(before.top_bids()),
                        None => None,
                    },
                );
                let report = ViewReport { view: view.clone(), asks, bids };
                self.last = Some(view);
                Some(report)
            },
            None => None,
        }
    }
}

} // verus!
