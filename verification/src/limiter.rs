//! Admission control: no more fetches in flight than a limit allows.

use vstd::prelude::*;
use vstd::string::*;
use crate::error::BookPageError;
use crate::resource::{
    cancel_state, complete_state, outcome_text, request_state, request_turn, Answer, Demand, Entry,
    Lookup, Outcome, ResourceCell, Turn,
};

verus! {

/// A count of fetches in flight, held at or under a limit.
#[derive(Debug)]
pub struct Limiter {
    limit: usize,
    in_flight: usize,
}

impl Limiter {
    /// The most fetches that may be in flight.
    pub closed spec fn limit_of(&self) -> nat {
        self.limit as nat
    }

    /// The fetches in flight.
    pub closed spec fn in_flight_of(&self) -> nat {
        self.in_flight as nat
    }

    /// The limiter's invariant: a limit of at least one, and no more in flight.
    pub open spec fn wf(&self) -> bool {
        1 <= self.limit_of() && self.in_flight_of() <= self.limit_of()
    }

    /// A limiter with nothing in flight. A limit of zero would admit nothing,
    /// and is refused.
    pub fn new(limit: usize) -> (r: Option<Limiter>)
        ensures
            r is Some <==> limit >= 1,
            r matches Some(l) ==> l.wf() && l.limit_of() == limit && l.in_flight_of() == 0,
    {
        if limit == 0 {
            None
        } else {
            Some(Limiter { limit, in_flight: 0 })
        }
    }

    /// The most fetches that may be in flight.
    pub fn limit(&self) -> (n: usize)
        ensures
            n == self.limit_of(),
    {
        self.limit
    }

    /// The fetches in flight.
    pub fn in_flight(&self) -> (n: usize)
        ensures
            n == self.in_flight_of(),
    {
        self.in_flight
    }

    /// Admits one more fetch where the limit allows it, and says whether it did.
    pub fn try_acquire(&mut self) -> (admitted: bool)
        requires
            old(self).wf(),
        ensures
            final(self).wf(),
            final(self).limit_of() == old(self).limit_of(),
            admitted == (old(self).in_flight_of() < old(self).limit_of()),
            final(self).in_flight_of() == old(self).in_flight_of() + (if admitted {
                1nat
            } else {
                0nat
            }),
    {
        if self.in_flight < self.limit {
            self.in_flight = self.in_flight + 1;
            true
        } else {
            false
        }
    }

    /// Takes one fetch out of flight. With nothing in flight nothing changes.
    pub fn release(&mut self)
        requires
            old(self).wf(),
        ensures
            final(self).wf(),
            final(self).limit_of() == old(self).limit_of(),
            final(self).in_flight_of() == (if old(self).in_flight_of() > 0 {
                (old(self).in_flight_of() - 1) as nat
            } else {
                0nat
            }),
    {
        if self.in_flight > 0 {
            self.in_flight = self.in_flight - 1;
        }
    }
}

/// The keys whose fetch is in flight.
pub open spec fn in_flight_keys(cell: Map<Seq<char>, Entry>) -> Set<Seq<char>> {
    Set::new(|k: Seq<char>| cell.contains_key(k) && cell[k] is InFlight)
}

/// What a request at the throttle is told.
#[derive(Debug, PartialEq, Eq)]
pub enum Admission {
    /// Fetch the key from the record source, then report the answer.
    Fetch,
    /// Another request's fetch of the key is under way; its answer will serve.
    Wait,
    /// The key is settled.
    Ready(Result<String, BookPageError>),
    /// The key needs a fetch and the limit is reached: ask again later.
    Busy,
}

/// What a request at the throttle is told, as text.
pub enum Verdict {
    Fetch,
    Wait,
    Ready(Outcome),
    Busy,
}

impl View for Admission {
    type V = Verdict;

    open spec fn view(&self) -> Verdict {
        match self {
            Admission::Fetch => Verdict::Fetch,
            Admission::Wait => Verdict::Wait,
            Admission::Ready(r) => Verdict::Ready(outcome_text(*r)),
            Admission::Busy => Verdict::Busy,
        }
    }
}

/// What a request for `key` is told at a throttle with `in_flight` of `limit`
/// fetches in flight.
pub open spec fn throttle_verdict(cell: Map<Seq<char>, Entry>, in_flight: nat, limit: nat, key: Seq<char>) -> Verdict {
    match request_turn(cell, key) {
        Turn::Fetch => if in_flight < limit {
            Verdict::Fetch
        } else {
            Verdict::Busy
        },
        Turn::Wait => Verdict::Wait,
        Turn::Ready(o) => Verdict::Ready(o),
    }
}

/// A resource cell behind a limiter: a fetch is asked for only while fewer
/// than the limit are in flight.
pub struct Throttle {
    cell: ResourceCell,
    limiter: Limiter,
}

impl Throttle {
    /// What the cell holds.
    pub closed spec fn cell_of(&self) -> Map<Seq<char>, Entry> {
        self.cell@
    }

    /// The most fetches that may be in flight.
    pub closed spec fn limit_of(&self) -> nat {
        self.limiter.limit_of()
    }

    /// The throttle's invariant: the fetches in flight are counted, and are no
    /// more than the limit.
    pub closed spec fn wf(&self) -> bool {
        &&& self.cell.wf()
        &&& self.limiter.wf()
        &&& in_flight_keys(self.cell@).finite()
        &&& in_flight_keys(self.cell@).len() == self.limiter.in_flight_of()
    }

    /// The number of fetches in flight.
    pub open spec fn in_flight_of(&self) -> nat {
        in_flight_keys(self.cell_of()).len()
    }

    /// A throttle over an empty cell. A limit of zero is refused.
    pub fn new(limit: usize) -> (r: Option<Throttle>)
        ensures
            r is Some <==> limit >= 1,
            r matches Some(g) ==> g.wf() && g.limit_of() == limit && g.in_flight_of() == 0
                && g.cell_of() == Map::<Seq<char>, Entry>::empty(),
    {
        match Limiter::new(limit) {
            None => None,
            Some(limiter) => {
                let cell = ResourceCell::new();
                assert(in_flight_keys(cell@) =~= Set::<Seq<char>>::empty());
                Some(Throttle { cell, limiter })
            },
        }
    }

    /// The most fetches that may be in flight.
    pub fn limit(&self) -> (n: usize)
        ensures
            n == self.limit_of(),
    {
        self.limiter.limit()
    }

    /// The number of fetches in flight, which is never more than the limit.
    pub fn in_flight(&self) -> (n: usize)
        requires
            self.wf(),
        ensures
            n == self.in_flight_of(),
            n <= self.limit_of(),
    {
        self.limiter.in_flight()
    }

    /// Gives up the throttle for its cell, to render from what was fetched.
    pub fn into_cell(self) -> (c: ResourceCell)
        requires
            self.wf(),
        ensures
            c.wf(),
            c@ == self.cell_of(),
    {
        self.cell
    }

    /// The cell behind the throttle.
    pub fn cell(&self) -> (c: &ResourceCell)
        ensures
            c@ == self.cell_of(),
    {
        &self.cell
    }

    /// Asks for `key`. What the cell would answer is answered, but for a
    /// fetch at the limit: the caller is then told that the throttle is busy, and
    /// nothing changes.
    pub fn ask(&mut self, key: &str) -> (a: Admission)
        requires
            old(self).wf(),
        ensures
            final(self).wf(),
            final(self).limit_of() == old(self).limit_of(),
            final(self).limit_of() >= 1,
            final(self).in_flight_of() <= final(self).limit_of(),
            a@ == throttle_verdict(
                old(self).cell_of(),
                old(self).in_flight_of(),
                old(self).limit_of(),
                key@,
            ),
            final(self).cell_of() == (if a@ is Busy {
                old(self).cell_of()
            } else {
                request_state(old(self).cell_of(), key@)
            }),
            final(self).in_flight_of() == old(self).in_flight_of() + (if a@ is Fetch {
                1nat
            } else {
                0nat
            }),
    {
        let needs_fetch = !key.is_empty() && !self.cell.holds(key);
        if needs_fetch {
            if !self.limiter.try_acquire() {
                return Admission::Busy;
            }
            proof {
                let before = old(self).cell@;
                assert(in_flight_keys(before.insert(key@, Entry::InFlight)) =~= in_flight_keys(
                    before,
                ).insert(key@));
            }
        }
        match self.cell.request(key) {
            Demand::Fetch => Admission::Fetch,
            Demand::Wait => Admission::Wait,
            Demand::Ready(r) => Admission::Ready(r),
        }
    }

    /// Reports the record source's answer for `key`. A key in flight becomes
    /// settled and leaves the count of fetches in flight.
    pub fn settle(&mut self, key: &str, answer: Lookup)
        requires
            old(self).wf(),
        ensures
            final(self).wf(),
            final(self).limit_of() == old(self).limit_of(),
            final(self).cell_of() == complete_state(old(self).cell_of(), key@, answer@),
            final(self).in_flight_of() == old(self).in_flight_of() - (if in_flight_keys(
                old(self).cell_of(),
            ).contains(key@) {
                1nat
            } else {
                0nat
            }),
    {
        if self.cell.is_in_flight(key) {
            proof {
                let before = old(self).cell@;
                let after = complete_state(before, key@, answer@);
                assert(in_flight_keys(after) =~= in_flight_keys(before).remove(key@));
                assert(in_flight_keys(before).contains(key@));
            }
            self.limiter.release();
        }
        self.cell.complete(key, answer);
    }

    /// Gives up the fetch of `key`. A key in flight is forgotten and leaves
    /// the count of fetches in flight.
    pub fn abandon(&mut self, key: &str)
        requires
            old(self).wf(),
        ensures
            final(self).wf(),
            final(self).limit_of() == old(self).limit_of(),
            final(self).cell_of() == cancel_state(old(self).cell_of(), key@),
            final(self).in_flight_of() == old(self).in_flight_of() - (if in_flight_keys(
                old(self).cell_of(),
            ).contains(key@) {
                1nat
            } else {
                0nat
            }),
    {
        if self.cell.is_in_flight(key) {
            proof {
                let before = old(self).cell@;
                assert(in_flight_keys(before.remove(key@)) =~= in_flight_keys(before).remove(key@));
                assert(in_flight_keys(before).contains(key@));
            }
            self.limiter.release();
        }
        self.cell.cancel(key);
    }
}

/// With nothing in flight, every key that the cell holds is settled.
pub proof fn lemma_idle_is_settled(t: &Throttle)
    requires
        t.wf(),
        t.in_flight_of() == 0,
    ensures
        forall|k: Seq<char>| #[trigger]
            t.cell_of().contains_key(k) ==> t.cell_of()[k] is Ready,
{
    let s = in_flight_keys(t.cell_of());
    assert(s.finite());
    assert(s.len() == 0);
    assert forall|k: Seq<char>| #[trigger] t.cell_of().contains_key(k) implies t.cell_of()[k]
        is Ready by {
        if t.cell_of()[k] is InFlight {
            assert(s.contains(k));
        }
    }
}

} // verus!
