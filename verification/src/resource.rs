//! The resource cell: what the record source answered, kept by key for the
//! length of one pass, so that no key is fetched twice.

use vstd::prelude::*;
use vstd::string::*;
use vstd::hash_map::*;
use crate::error::{lemma_detail_never_empty, normalized_detail, BookPageError, Failure};

verus! {

/// What the record source answered for an identifier.
#[derive(Clone, Debug, PartialEq, Eq)]
pub enum Lookup {
    /// A record exists.
    Found,
    /// No record exists.
    Missing,
    /// The record source failed, and described the failure so.
    Failed(String),
}

/// An answer of the record source, as text.
pub enum Answer {
    Found,
    Missing,
    Failed(Seq<char>),
}

impl View for Lookup {
    type V = Answer;

    open spec fn view(&self) -> Answer {
        match self {
            Lookup::Found => Answer::Found,
            Lookup::Missing => Answer::Missing,
            Lookup::Failed(d) => Answer::Failed(d@),
        }
    }
}

/// What a fetch comes to: the validated identifier, or a failure.
pub type Outcome = Result<Seq<char>, Failure>;

/// The text of what a fetch came to.
pub open spec fn outcome_text(r: Result<String, BookPageError>) -> Outcome {
    match r {
        Ok(id) => Ok(id@),
        Err(e) => Err(e@),
    }
}

/// An identifier is well formed when it is not empty.
pub open spec fn valid_id(key: Seq<char>) -> bool {
    key.len() > 0
}

/// What the fetch of `key` comes to once the record source has answered.
pub open spec fn resolve(key: Seq<char>, answer: Answer) -> Outcome {
    match answer {
        Answer::Found => Ok(key),
        Answer::Missing => Err(Failure::BookNotFound),
        Answer::Failed(d) => Err(Failure::ServerError(normalized_detail(d))),
    }
}

/// What the fetch of `key` comes to once the record source has answered.
pub fn resolve_lookup(key: &str, answer: Lookup) -> (r: Result<String, BookPageError>)
    ensures
        outcome_text(r) == resolve(key@, answer@),
        r matches Err(e) ==> e@.wf() && !(e@ is InvalidId),
{
    match answer {
        Lookup::Found => Ok(String::from_str(key)),
        Lookup::Missing => Err(BookPageError::BookNotFound),
        Lookup::Failed(d) => Err(BookPageError::server_error(d)),
    }
}

/// A copy of what a fetch came to.
pub fn copy_outcome(r: &Result<String, BookPageError>) -> (c: Result<String, BookPageError>)
    ensures
        outcome_text(c) == outcome_text(*r),
{
    match r {
        Ok(id) => Ok(id.clone()),
        Err(e) => Err(e.duplicate()),
    }
}

/// What the cell holds for a key.
#[derive(Debug, PartialEq, Eq)]
pub enum Slot {
    /// A fetch was asked for and has not been answered.
    InFlight,
    /// The fetch was answered.
    Ready(Result<String, BookPageError>),
}

/// What the cell holds for a key, as text.
pub enum Entry {
    InFlight,
    Ready(Outcome),
}

impl View for Slot {
    type V = Entry;

    open spec fn view(&self) -> Entry {
        match self {
            Slot::InFlight => Entry::InFlight,
            Slot::Ready(r) => Entry::Ready(outcome_text(*r)),
        }
    }
}

/// What a request is told.
#[derive(Debug, PartialEq, Eq)]
pub enum Demand {
    /// Fetch the key from the record source, then report the answer.
    Fetch,
    /// Another request's fetch of the key is under way; its answer will serve.
    Wait,
    /// The key is settled.
    Ready(Result<String, BookPageError>),
}

/// What a request is told, as text.
pub enum Turn {
    Fetch,
    Wait,
    Ready(Outcome),
}

impl View for Demand {
    type V = Turn;

    open spec fn view(&self) -> Turn {
        match self {
            Demand::Fetch => Turn::Fetch,
            Demand::Wait => Turn::Wait,
            Demand::Ready(r) => Turn::Ready(outcome_text(*r)),
        }
    }
}

/// What a request for `key` is told in `state`.
pub open spec fn request_turn(state: Map<Seq<char>, Entry>, key: Seq<char>) -> Turn {
    if !valid_id(key) {
        Turn::Ready(Err(Failure::InvalidId))
    } else if !state.contains_key(key) {
        Turn::Fetch
    } else {
        match state[key] {
            Entry::InFlight => Turn::Wait,
            Entry::Ready(o) => Turn::Ready(o),
        }
    }
}

/// The cell after a request for `key` in `state`.
pub open spec fn request_state(state: Map<Seq<char>, Entry>, key: Seq<char>) -> Map<
    Seq<char>,
    Entry,
> {
    if valid_id(key) && !state.contains_key(key) {
        state.insert(key, Entry::InFlight)
    } else {
        state
    }
}

/// The cell after the record source answered the fetch of `key`.
pub open spec fn complete_state(
    state: Map<Seq<char>, Entry>,
    key: Seq<char>,
    answer: Answer,
) -> Map<Seq<char>, Entry> {
    if state.contains_key(key) && state[key] is InFlight {
        state.insert(key, Entry::Ready(resolve(key, answer)))
    } else {
        state
    }
}

/// The cell after the fetch of `key` was given up.
pub open spec fn cancel_state(state: Map<Seq<char>, Entry>, key: Seq<char>) -> Map<
    Seq<char>,
    Entry,
> {
    if state.contains_key(key) && state[key] is InFlight {
        state.remove(key)
    } else {
        state
    }
}

/// Every settled failure is one that a fetch can come to: never a malformed
/// identifier, and never a failed record source without a detail.
pub open spec fn settled_well(state: Map<Seq<char>, Entry>) -> bool {
    forall|k: Seq<char>| #[trigger]
        state.contains_key(k) ==> valid_id(k) && (state[k] matches Entry::Ready(Err(e)) ==> e.wf()
            && !(e is InvalidId))
}

/// What can happen to a cell.
pub enum CellEvent {
    /// A render asks for a key.
    Request(Seq<char>),
    /// The record source answers the fetch of a key.
    Complete(Seq<char>, Answer),
    /// The fetch of a key is given up.
    Cancel(Seq<char>),
}

/// The cell after `event` in `state`.
pub open spec fn after_event(state: Map<Seq<char>, Entry>, event: CellEvent) -> Map<
    Seq<char>,
    Entry,
> {
    match event {
        CellEvent::Request(k) => request_state(state, k),
        CellEvent::Complete(k, a) => complete_state(state, k, a),
        CellEvent::Cancel(k) => cancel_state(state, k),
    }
}

/// The cell after `events`, in order, from `state`.
pub open spec fn after_events(state: Map<Seq<char>, Entry>, events: Seq<CellEvent>) -> Map<
    Seq<char>,
    Entry,
>
    decreases events.len(),
{
    if events.len() == 0 {
        state
    } else {
        after_event(after_events(state, events.drop_last()), events.last())
    }
}

/// How many fetches of `key` the requests among `events` are told to make,
/// from `state`.
pub open spec fn fetches_of(state: Map<Seq<char>, Entry>, events: Seq<CellEvent>, key: Seq<char>) -> nat
    decreases events.len(),
{
    if events.len() == 0 {
        0
    } else {
        let before = after_events(state, events.drop_last());
        let now: nat = if events.last() == CellEvent::Request(key) && request_turn(before, key)
            is Fetch {
            1
        } else {
            0
        };
        fetches_of(state, events.drop_last(), key) + now
    }
}

/// No fetch of `key` is given up among `events`.
pub open spec fn never_cancelled(events: Seq<CellEvent>, key: Seq<char>) -> bool {
    forall|i: int| 0 <= i < events.len() ==> #[trigger] events[i] != CellEvent::Cancel(key)
}

/// `key` is asked for among `events`.
pub open spec fn asked_for(events: Seq<CellEvent>, key: Seq<char>) -> bool {
    exists|i: int| 0 <= i < events.len() && #[trigger] events[i] == CellEvent::Request(key)
}

/// Every event keeps the cell's invariant.
pub proof fn lemma_events_keep_settled_well(state: Map<Seq<char>, Entry>, events: Seq<CellEvent>)
    requires
        settled_well(state),
    ensures
        settled_well(after_events(state, events)),
    decreases events.len(),
{
    if events.len() > 0 {
        lemma_events_keep_settled_well(state, events.drop_last());
        lemma_detail_never_empty_of(events.last());
    }
}

/// The failure that an answer comes to has a detail where it needs one.
proof fn lemma_detail_never_empty_of(event: CellEvent)
    ensures
        event matches CellEvent::Complete(k, a) ==> (resolve(k, a) matches Err(e) ==> e.wf() && !(e
            is InvalidId)),
{
    match event {
        CellEvent::Complete(k, a) => {
            match a {
                Answer::Failed(d) => {
                    lemma_detail_never_empty(d);
                },
                _ => {},
            }
        },
        _ => {},
    }
}

/// Over one pass a key is fetched at most once: however many requests,
/// answers and cancellations of other keys come, and in whatever order, as
/// long as no fetch of `key` is given up, the requests for `key` are told to
/// fetch it once if it is well formed, was not held at the start and is asked
/// for at all, and never otherwise. The cell holds the key afterwards exactly
/// when it held it before or the fetch was made.
pub proof fn lemma_fetched_at_most_once(
    state: Map<Seq<char>, Entry>,
    events: Seq<CellEvent>,
    key: Seq<char>,
)
    requires
        never_cancelled(events, key),
    ensures
        fetches_of(state, events, key) <= 1,
        fetches_of(state, events, key) == 1 <==> (valid_id(key) && !state.contains_key(key)
            && asked_for(events, key)),
        after_events(state, events).contains_key(key) <==> (state.contains_key(key) || fetches_of(
            state,
            events,
            key,
        ) == 1),
    decreases events.len(),
{
    if events.len() > 0 {
        let front = events.drop_last();
        assert forall|i: int| 0 <= i < front.len() implies #[trigger] front[i] != CellEvent::Cancel(
            key,
        ) by {
            assert(front[i] == events[i]);
        }
        lemma_fetched_at_most_once(state, front, key);
        let before = after_events(state, front);
        if asked_for(front, key) {
            let i = choose|i: int| 0 <= i < front.len() && #[trigger] front[i] == CellEvent::Request(
                key,
            );
            assert(events[i] == CellEvent::Request(key));
        }
        if events.last() == CellEvent::Request(key) {
            assert(events[events.len() - 1] == CellEvent::Request(key));
        }
        if asked_for(events, key) {
            let i = choose|i: int| 0 <= i < events.len() && #[trigger] events[i]
                == CellEvent::Request(key);
            if i < front.len() {
                assert(front[i] == CellEvent::Request(key));
            }
        }
        assert(events.last() == events[events.len() - 1]);
    }
}

/// Requests for one key that come together are served by one fetch: of any
/// number of requests for a well-formed key that the cell does not hold, with
/// nothing between them, the first is told to fetch and no other is.
pub proof fn lemma_requests_coalesce(state: Map<Seq<char>, Entry>, key: Seq<char>, n: nat)
    requires
        valid_id(key),
        !state.contains_key(key),
        n >= 1,
    ensures
        fetches_of(state, Seq::new(n, |i: int| CellEvent::Request(key)), key) == 1,
{
    let events = Seq::new(n, |i: int| CellEvent::Request(key));
    assert(events[0] == CellEvent::Request(key));
    lemma_fetched_at_most_once(state, events, key);
}

/// A malformed key is never fetched and never held.
pub proof fn lemma_malformed_never_fetched(
    state: Map<Seq<char>, Entry>,
    events: Seq<CellEvent>,
    key: Seq<char>,
)
    requires
        !valid_id(key),
        !state.contains_key(key),
    ensures
        fetches_of(state, events, key) == 0,
        !after_events(state, events).contains_key(key),
    decreases events.len(),
{
    if events.len() > 0 {
        lemma_malformed_never_fetched(state, events.drop_last(), key);
    }
}

/// What is settled stays settled: no event changes what a fetch came to.
pub proof fn lemma_settled_stays(
    state: Map<Seq<char>, Entry>,
    events: Seq<CellEvent>,
    key: Seq<char>,
    outcome: Outcome,
)
    requires
        state.contains_key(key),
        state[key] == Entry::Ready(outcome),
    ensures
        after_events(state, events).contains_key(key),
        after_events(state, events)[key] == Entry::Ready(outcome),
    decreases events.len(),
{
    if events.len() > 0 {
        lemma_settled_stays(state, events.drop_last(), key, outcome);
    }
}

/// A memo of fetches by key.
pub struct ResourceCell {
    slots: StringHashMap<Slot>,
}

impl View for ResourceCell {
    type V = Map<Seq<char>, Entry>;

    closed spec fn view(&self) -> Map<Seq<char>, Entry> {
        self.slots@.map_values(|s: Slot| s@)
    }
}

impl ResourceCell {
    /// The cell's invariant: it holds well-formed keys only, and no failure
    /// that a fetch cannot come to.
    pub open spec fn wf(&self) -> bool {
        settled_well(self@)
    }

    /// An empty cell, as every pass starts with.
    pub fn new() -> (cell: ResourceCell)
        ensures
            cell@ == Map::<Seq<char>, Entry>::empty(),
            cell.wf(),
    {
        let cell = ResourceCell { slots: StringHashMap::new() };
        assert(cell@ =~= Map::<Seq<char>, Entry>::empty());
        cell
    }

    /// Asks for `key`. A malformed key is refused at once and leaves the cell
    /// as it was. For a key that the cell does not hold, the caller is told to
    /// fetch, and the key is held as in flight. For a key in flight the caller
    /// is told to wait, and for a settled key it is told what the fetch came to.
    pub fn request(&mut self, key: &str) -> (d: Demand)
        requires
            old(self).wf(),
        ensures
            final(self).wf(),
            final(self)@ == request_state(old(self)@, key@),
            d@ == request_turn(old(self)@, key@),
    {
        if key.is_empty() {
            return Demand::Ready(Err(BookPageError::InvalidId));
        }
        let d = match self.slots.get(key) {
            None => None,
            Some(Slot::InFlight) => Some(Demand::Wait),
            Some(Slot::Ready(r)) => Some(Demand::Ready(copy_outcome(r))),
        };
        match d {
            Some(d) => d,
            None => {
                self.slots.insert(String::from_str(key), Slot::InFlight);
                assert(self@ =~= old(self)@.insert(key@, Entry::InFlight));
                Demand::Fetch
            },
        }
    }

    /// Reports the record source's answer for `key`. A key in flight becomes
    /// settled; for any other key the report is dropped, so that what is
    /// settled stays as it is.
    pub fn complete(&mut self, key: &str, answer: Lookup)
        requires
            old(self).wf(),
        ensures
            final(self).wf(),
            final(self)@ == complete_state(old(self)@, key@, answer@),
    {
        let in_flight = match self.slots.get(key) {
            Some(Slot::InFlight) => true,
            _ => false,
        };
        if in_flight {
            let r = resolve_lookup(key, answer);
            self.slots.insert(String::from_str(key), Slot::Ready(r));
            assert(self@ =~= old(self)@.insert(key@, Entry::Ready(resolve(key@, answer@))));
        }
    }

    /// Gives up the fetch of `key`. A key in flight is forgotten, so that a
    /// later request fetches anew; what is settled stays.
    pub fn cancel(&mut self, key: &str)
        requires
            old(self).wf(),
        ensures
            final(self).wf(),
            final(self)@ == cancel_state(old(self)@, key@),
    {
        let in_flight = match self.slots.get(key) {
            Some(Slot::InFlight) => true,
            _ => false,
        };
        if in_flight {
            self.slots.remove(key);
            assert(self@ =~= old(self)@.remove(key@));
        }
    }

    /// What the cell holds for `key`: nothing, a fetch in flight, or what the
    /// fetch came to.
    pub fn peek(&self, key: &str) -> (r: Option<Slot>)
        ensures
            match r {
                Some(s) => self@.contains_key(key@) && s@ == self@[key@],
                None => !self@.contains_key(key@),
            },
    {
        match self.slots.get(key) {
            None => None,
            Some(Slot::InFlight) => Some(Slot::InFlight),
            Some(Slot::Ready(r)) => Some(Slot::Ready(copy_outcome(r))),
        }
    }

    /// Whether the cell holds `key`, in flight or settled.
    pub fn holds(&self, key: &str) -> (b: bool)
        ensures
            b == self@.contains_key(key@),
    {
        let b = self.slots.contains_key(key);
        assert(self@.dom() =~= self.slots@.dom());
        b
    }

    /// Whether a fetch of `key` is in flight.
    pub fn is_in_flight(&self, key: &str) -> (b: bool)
        ensures
            b == (self@.contains_key(key@) && self@[key@] is InFlight),
    {
        match self.slots.get(key) {
            Some(Slot::InFlight) => true,
            _ => false,
        }
    }

    /// The number of keys that the cell holds, in flight or settled.
    pub fn len(&self) -> (n: usize)
        ensures
            n == self@.len(),
    {
        let n = self.slots.len();
        assert(self@.dom() =~= self.slots@.dom());
        n
    }
}

} // verus!
