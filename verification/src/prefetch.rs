//! The fetch phase of a pass: every key of a domain is fetched once, with no
//! more fetches in flight than a limit allows. The caller does the fetching;
//! what to fetch next, and when to wait, is decided here.

use vstd::prelude::*;
use vstd::string::*;
use crate::limiter::{in_flight_keys, lemma_idle_is_settled, Admission, Throttle};
use crate::resource::{complete_state, valid_id, Answer, Entry, Lookup, ResourceCell};
use crate::text::texts;

verus! {

/// What the caller is to do next.
#[derive(Debug, PartialEq, Eq)]
pub enum Advance {
    /// Start the fetch of this key, and report its answer when it comes.
    Fetch(String),
    /// Nothing can be started: report the answer of a fetch in flight first.
    Await,
    /// Every key is settled.
    Finished,
}

/// What the caller is to do next, as text.
pub enum Move {
    Fetch(Seq<char>),
    Await,
    Finished,
}

impl View for Advance {
    type V = Move;

    open spec fn view(&self) -> Move {
        match self {
            Advance::Fetch(k) => Move::Fetch(k@),
            Advance::Await => Move::Await,
            Advance::Finished => Move::Finished,
        }
    }
}

/// The fetch phase of a pass over a sequence of keys.
pub struct Prefetch {
    keys: Vec<String>,
    next: usize,
    throttle: Throttle,
}

impl Prefetch {
    /// The keys of the pass, in order.
    pub closed spec fn keys_of(&self) -> Seq<Seq<char>> {
        texts(self.keys@)
    }

    /// How many of the keys have been asked for.
    pub closed spec fn asked(&self) -> nat {
        self.next as nat
    }

    /// What the cell holds.
    pub closed spec fn cell_of(&self) -> Map<Seq<char>, Entry> {
        self.throttle.cell_of()
    }

    /// The most fetches that may be in flight.
    pub closed spec fn limit_of(&self) -> nat {
        self.throttle.limit_of()
    }

    /// The number of fetches in flight.
    pub open spec fn in_flight_of(&self) -> nat {
        in_flight_keys(self.cell_of()).len()
    }

    /// The phase's invariant: no more fetches in flight than the limit, and
    /// every well-formed key that was asked for is held by the cell.
    pub closed spec fn wf(&self) -> bool {
        &&& self.throttle.wf()
        &&& self.next <= self.keys@.len()
        &&& forall|i: int|
            0 <= i < self.next && valid_id(#[trigger] texts(self.keys@)[i])
                ==> self.throttle.cell_of().contains_key(texts(self.keys@)[i])
    }

    /// Every well-formed key among `keys` is settled in `cell`.
    pub open spec fn all_settled(keys: Seq<Seq<char>>, cell: Map<Seq<char>, Entry>) -> bool {
        forall|i: int|
            0 <= i < keys.len() && valid_id(#[trigger] keys[i]) ==> cell.contains_key(keys[i])
                && cell[keys[i]] is Ready
    }

    /// The fetch phase of a pass over `keys`, with an empty cell and nothing
    /// asked for. A limit of zero is refused.
    pub fn new(keys: Vec<String>, limit: usize) -> (r: Option<Prefetch>)
        ensures
            r is Some <==> limit >= 1,
            r matches Some(p) ==> p.wf() && p.keys_of() == texts(keys@) && p.asked() == 0
                && p.limit_of() == limit && p.in_flight_of() == 0 && p.cell_of() == Map::<
                Seq<char>,
                Entry,
            >::empty(),
    {
        match Throttle::new(limit) {
            None => None,
            Some(throttle) => Some(Prefetch { keys, next: 0, throttle }),
        }
    }

    /// The number of fetches in flight, which is never more than the limit.
    pub fn in_flight(&self) -> (n: usize)
        requires
            self.wf(),
        ensures
            n == self.in_flight_of(),
            n <= self.limit_of(),
    {
        self.throttle.in_flight()
    }

    /// Decides what the caller is to do next. Keys are asked for in order.
    /// A key that the cell does not hold is handed out to be fetched, once,
    /// while fewer fetches than the limit are in flight. With the limit
    /// reached, or with every key asked for and some fetch unanswered, the
    /// caller is told to await an answer, and there is one to await. With
    /// every key asked for and nothing in flight the phase is finished, and
    /// every well-formed key is settled.
    pub fn advance(&mut self) -> (a: Advance)
        requires
            old(self).wf(),
        ensures
            final(self).wf(),
            final(self).keys_of() == old(self).keys_of(),
            final(self).limit_of() == old(self).limit_of(),
            old(self).asked() <= final(self).asked() <= final(self).keys_of().len(),
            final(self).in_flight_of() <= final(self).limit_of(),
            match a@ {
                Move::Fetch(k) => {
                    &&& final(self).asked() > old(self).asked()
                    &&& k == final(self).keys_of()[final(self).asked() - 1]
                    &&& valid_id(k)
                    &&& !old(self).cell_of().contains_key(k)
                    &&& final(self).cell_of() == old(self).cell_of().insert(k, Entry::InFlight)
                    &&& final(self).in_flight_of() == old(self).in_flight_of() + 1
                },
                Move::Await => {
                    &&& final(self).cell_of() == old(self).cell_of()
                    &&& final(self).in_flight_of() > 0
                    &&& final(self).asked() < final(self).keys_of().len() ==> {
                        let k = final(self).keys_of()[final(self).asked() as int];
                        &&& final(self).in_flight_of() == final(self).limit_of()
                        &&& valid_id(k)
                        &&& !final(self).cell_of().contains_key(k)
                    }
                },
                Move::Finished => {
                    &&& final(self).cell_of() == old(self).cell_of()
                    &&& final(self).asked() == final(self).keys_of().len()
                    &&& final(self).in_flight_of() == 0
                    &&& Self::all_settled(final(self).keys_of(), final(self).cell_of())
                },
            },
    {
        while self.next < self.keys.len()
            invariant
                self.wf(),
                self.keys == old(self).keys,
                self.throttle.limit_of() == old(self).throttle.limit_of(),
                old(self).next <= self.next <= self.keys@.len(),
                self.throttle.cell_of() == old(self).throttle.cell_of(),
            decreases self.keys@.len() - self.next,
        {
            let ghost before = self.throttle.cell_of();
            assert(texts(self.keys@)[self.next as int] == self.keys@[self.next as int]@);
            match self.throttle.ask(self.keys[self.next].as_str()) {
                Admission::Fetch => {
                    let key = self.keys[self.next].clone();
                    self.next = self.next + 1;
                    return Advance::Fetch(key);
                },
                Admission::Busy => {
                    return Advance::Await;
                },
                _ => {
                    self.next = self.next + 1;
                },
            }
        }
        if self.throttle.in_flight() > 0 {
            Advance::Await
        } else {
            proof {
                lemma_idle_is_settled(&self.throttle);
            }
            Advance::Finished
        }
    }

    /// The keys passed over are keys that need no fetch: every well-formed
    /// key that was asked for is held by the cell.
    pub proof fn lemma_asked_are_held(&self)
        requires
            self.wf(),
        ensures
            self.asked() <= self.keys_of().len(),
            forall|i: int|
                0 <= i < self.asked() && valid_id(#[trigger] self.keys_of()[i])
                    ==> self.cell_of().contains_key(self.keys_of()[i]),
    {
    }

    /// Reports the record source's answer for `key`. A key in flight becomes
    /// settled and leaves the count of fetches in flight; any other report is
    /// dropped.
    pub fn answered(&mut self, key: &str, answer: Lookup)
        requires
            old(self).wf(),
        ensures
            final(self).wf(),
            final(self).keys_of() == old(self).keys_of(),
            final(self).asked() == old(self).asked(),
            final(self).limit_of() == old(self).limit_of(),
            final(self).cell_of() == complete_state(old(self).cell_of(), key@, answer@),
            final(self).in_flight_of() == old(self).in_flight_of() - (if in_flight_keys(
                old(self).cell_of(),
            ).contains(key@) {
                1nat
            } else {
                0nat
            }),
    {
        self.throttle.settle(key, answer);
    }

    /// Ends the phase and gives up its cell, to render from what was fetched.
    pub fn into_cell(self) -> (c: ResourceCell)
        requires
            self.wf(),
        ensures
            c.wf(),
            c@ == self.cell_of(),
    {
        self.throttle.into_cell()
    }
}

} // verus!
