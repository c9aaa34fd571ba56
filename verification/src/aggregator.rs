//! The sessions of all tracked pairs. Pairs share no state: a delivery
//! for one pair leaves every other pair's session as it was.

use vstd::prelude::*;
use crate::book::{ExchangeId, OrderBookSnapshot};
use crate::pairs::TradingPair;
use crate::session::{reported, PairSession, SessionModel, ViewReport};

verus! {

/// One session for each tracked pair, in the order in which the pairs were
/// configured. The list is fixed when the aggregator is made.
#[derive(Debug)]
pub struct Aggregator {
    sessions: Vec<PairSession>,
}

impl View for Aggregator {
    type V = Seq<SessionModel>;

    /// The state of each session.
    closed spec fn view(&self) -> Seq<SessionModel> {
        Seq::new(self.sessions@.len(), |i: int| self.sessions@[i]@)
    }
}

/// How many sessions stand before the first one of `pair`; all of them
/// where none is of `pair`.
pub open spec fn sessions_before(sessions: Seq<SessionModel>, pair: Seq<char>) -> int
    decreases sessions.len(),
{
    if sessions.len() == 0 || sessions[0].pair == pair {
        0
    } else {
        1 + sessions_before(sessions.drop_first(), pair)
    }
}

/// The place of the first session of `pair`, if there is one.
pub open spec fn place_of(sessions: Seq<SessionModel>, pair: Seq<char>) -> Option<int> {
    if sessions_before(sessions, pair) < sessions.len() {
        Some(sessions_before(sessions, pair))
    } else {
        None
    }
}

/// The first session of `pair`, or the end, is found where it stands.
pub proof fn lemma_sessions_before(sessions: Seq<SessionModel>, pair: Seq<char>, i: int)
    requires
        0 <= i <= sessions.len(),
        forall|k: int| 0 <= k < i ==> (#[trigger] sessions[k]).pair != pair,
        i < sessions.len() ==> sessions[i].pair == pair,
    ensures
        sessions_before(sessions, pair) == i,
    decreases i,
{
    if i > 0 {
        let rest = sessions.drop_first();
        assert forall|k: int| 0 <= k < i - 1 implies (#[trigger] rest[k]).pair != pair by {
            assert(rest[k] == sessions[k + 1]);
        }
        lemma_sessions_before(rest, pair, i - 1);
    }
}

impl Aggregator {
    /// An aggregator that tracks `pairs`, each at `depth`, with nothing
    /// delivered yet.
    pub fn new(pairs: &Vec<TradingPair>, depth: usize) -> (aggregator: Aggregator)
        ensures
            aggregator@.len() == pairs@.len(),
            forall|i: int|
                0 <= i < pairs@.len() ==> #[trigger] aggregator@[i] == SessionModel::fresh(
                    pairs@[i]@,
                    depth as nat,
                ),
    {
        let mut sessions: Vec<PairSession> = Vec::new();
        let mut i: usize = 0;
        while i < pairs.len()
            invariant
                i <= pairs.len(),
                sessions@.len() == i,
                forall|k: int|
                    0 <= k < i ==> (#[trigger] sessions@[k])@ == SessionModel::fresh(
                        pairs@[k]@,
                        depth as nat,
                    ),
            decreases pairs.len() - i,
        {
            sessions.push(PairSession::new(pairs[i].clone(), depth));
            i = i + 1;
        }
        Aggregator { sessions }
    }

    /// How many pairs are tracked.
    pub fn len(&self) -> (n: usize)
        ensures
            n == self@.len(),
    {
        self.sessions.len()
    }

    /// The place of the session of `pair`: the first one, where a pair was
    /// configured twice.
    pub fn position(&self, pair: &TradingPair) -> (place: Option<usize>)
        ensures
            place is Some <==> place_of(self@, pair@) is Some,
            place matches Some(k) ==> place_of(self@, pair@) == Some(k as int),
    {
        let mut i: usize = 0;
        while i < self.sessions.len()
            invariant
                i <= self.sessions.len(),
                forall|k: int| 0 <= k < i ==> (#[trigger] self@[k]).pair != pair@,
            decreases self.sessions.len() - i,
        {
            if self.sessions[i].pair().same_as(pair) {
                proof {
                    lemma_sessions_before(self@, pair@, i as int);
                }
                return Some(i);
            }
            i = i + 1;
        }
        proof {
            lemma_sessions_before(self@, pair@, i as int);
        }
        None
    }

    /// The session at `place`, if there is one.
    pub fn session(&self, place: usize) -> (session: Option<&PairSession>)
        ensures
            session is Some <==> place < self@.len(),
            session matches Some(s) ==> s@ == self@[place as int],
    {
        if place < self.sessions.len() {
            Some(&self.sessions[place])
        } else {
            None
        }
    }

    /// Hands a snapshot to the session of `pair` and returns what that
    /// session reports. Every other session stays as it is. Nothing
    /// happens for a pair that is not tracked.
    pub fn deliver(
        &mut self,
        pair: &TradingPair,
        exchange: ExchangeId,
        snapshot: OrderBookSnapshot,
    ) -> (report: Option<ViewReport>)
        ensures
            match place_of(old(self)@, pair@) {
                Some(k) => final(self)@ == old(self)@.update(
                    k,
                    old(self)@[k].deliver(exchange, snapshot@),
                ) && reported(report) == old(self)@[k].emits(exchange, snapshot@),
                None => final(self)@ == old(self)@ && report is None,
            },
    {
        match self.position(pair) {
            Some(k) => {
                let report = self.sessions[k].deliver(exchange, snapshot);
                assert(self@ =~= old(self)@.update(
                    k as int,
                    old(self)@[k as int].deliver(exchange, snapshot@),
                ));
                report
            },
            None => None,
        }
    }
}

} // verus!
