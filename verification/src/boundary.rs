//! The controller of one render: pending, then resolved or failed, and what
//! the caller sees in each state.

use vstd::prelude::*;
use vstd::string::*;
use crate::catalogue::{answer_in, Catalogue};
use crate::domain::BOOK_SLOT;
use crate::error::{
    lemma_detail_never_empty, BookPageError, Failure, ServerErrorPolicy, STATUS_OK,
};
use crate::render::{fallback_text, fallback_view, loading_text, loading_view, page_text, render};
use crate::resource::{
    complete_state, outcome_text, request_state, request_turn, resolve, valid_id, Answer, Demand,
    Entry, Outcome, ResourceCell, Turn,
};
use crate::route::ResolvedParams;

verus! {

/// The parameters of a book page as a request or a generation pass gives them.
#[derive(Clone, Debug, PartialEq, Eq)]
pub struct BookPageParams {
    book_id: Option<String>,
}

impl View for BookPageParams {
    type V = Option<Seq<char>>;

    closed spec fn view(&self) -> Option<Seq<char>> {
        match self.book_id {
            Some(id) => Some(id@),
            None => None,
        }
    }
}

/// The key that a book page is fetched by: its identifier, or the empty text
/// where it has none.
pub open spec fn key_of(book_id: Option<Seq<char>>) -> Seq<char> {
    match book_id {
        Some(id) => id,
        None => Seq::empty(),
    }
}

/// The book identifier that an assignment holds.
pub open spec fn book_param(params: Map<Seq<char>, Seq<char>>) -> Option<Seq<char>> {
    if params.contains_key(BOOK_SLOT@) {
        Some(params[BOOK_SLOT@])
    } else {
        None
    }
}

impl BookPageParams {
    /// The parameters with `book_id` as the identifier.
    pub fn new(book_id: Option<String>) -> (p: BookPageParams)
        ensures
            p@ == (match book_id {
                Some(id) => Some(id@),
                None => None,
            }),
    {
        BookPageParams { book_id }
    }

    /// The parameters that `params` holds for a book page.
    pub fn from_params(params: &ResolvedParams) -> (p: BookPageParams)
        ensures
            p@ == book_param(params@),
    {
        match params.get(BOOK_SLOT) {
            Some(id) => BookPageParams { book_id: Some(id.clone()) },
            None => BookPageParams { book_id: None },
        }
    }

    /// The identifier, where there is one.
    pub fn book_id(&self) -> (r: Option<&String>)
        ensures
            match r {
                Some(id) => self@ == Some(id@),
                None => self@ is None,
            },
    {
        match &self.book_id {
            Some(id) => Some(id),
            None => None,
        }
    }

    /// The key that the page is fetched by.
    pub fn key(&self) -> (k: String)
        ensures
            k@ == key_of(self@),
    {
        match &self.book_id {
            Some(id) => id.clone(),
            None => String::new(),
        }
    }
}

/// The state of one render.
#[derive(Clone, Debug, PartialEq, Eq)]
pub enum RenderState {
    /// The render has started and has not come to an end.
    Pending,
    /// The page was rendered; this is its document.
    Resolved(String),
    /// The render failed.
    Failed(BookPageError),
}

/// The state of one render, as text.
pub enum Stage {
    Pending,
    Resolved(Seq<char>),
    Failed(Failure),
}

impl View for RenderState {
    type V = Stage;

    open spec fn view(&self) -> Stage {
        match self {
            RenderState::Pending => Stage::Pending,
            RenderState::Resolved(doc) => Stage::Resolved(doc@),
            RenderState::Failed(e) => Stage::Failed(e@),
        }
    }
}

/// The end that a fetch's outcome brings a render to.
pub open spec fn settled(outcome: Outcome) -> Stage {
    match outcome {
        Ok(id) => Stage::Resolved(page_text(id)),
        Err(e) => Stage::Failed(e),
    }
}

/// The document and the status that a caller sees in `stage`.
pub open spec fn response_of(stage: Stage, policy: ServerErrorPolicy) -> (Seq<char>, u16) {
    match stage {
        Stage::Pending => (loading_text(), STATUS_OK),
        Stage::Resolved(doc) => (doc, STATUS_OK),
        Stage::Failed(e) => (fallback_text(e), e.status(policy)),
    }
}

/// What the fetch of `key` comes to, given what the cell holds and what the
/// record source answers: a malformed key fails before any fetch, a settled
/// key keeps what it came to, and any other key comes to what the source answers.
pub open spec fn page_outcome(
    key: Seq<char>,
    cell: Map<Seq<char>, Entry>,
    answers: Map<Seq<char>, Answer>,
) -> Outcome {
    if !valid_id(key) {
        Err(Failure::InvalidId)
    } else if cell.contains_key(key) && cell[key] is Ready {
        cell[key]->Ready_0
    } else {
        resolve(key, answer_in(answers, key))
    }
}

/// The cell after a render of `key` against `answers`.
pub open spec fn page_cell(
    key: Seq<char>,
    cell: Map<Seq<char>, Entry>,
    answers: Map<Seq<char>, Answer>,
) -> Map<Seq<char>, Entry> {
    if !valid_id(key) || (cell.contains_key(key) && cell[key] is Ready) {
        cell
    } else {
        cell.insert(key, Entry::Ready(resolve(key, answer_in(answers, key))))
    }
}

/// Brings a render to its end: a fetched identifier to its page, a failure to
/// the failed state. The renderer is not asked for a failure.
pub fn settle(outcome: Result<String, BookPageError>) -> (state: RenderState)
    ensures
        state@ == settled(outcome_text(outcome)),
        !(state@ is Pending),
{
    match outcome {
        Ok(id) => RenderState::Resolved(render(id.as_str())),
        Err(e) => RenderState::Failed(e),
    }
}

/// The document and the status that a caller sees in `state`: the loading view
/// while the render is pending, the page once it is resolved, and for a failure
/// the fallback view with the failure's status.
pub fn respond(state: &RenderState, policy: ServerErrorPolicy) -> (r: (String, u16))
    ensures
        (r.0@, r.1) == response_of(state@, policy),
{
    match state {
        RenderState::Pending => (loading_view(), STATUS_OK),
        RenderState::Resolved(doc) => (doc.clone(), STATUS_OK),
        RenderState::Failed(e) => (fallback_view(e), e.status(policy)),
    }
}

/// What a render needs next.
#[derive(Clone, Copy, Debug, PartialEq, Eq, Structural)]
pub enum Step {
    /// Fetch the render's key, report the answer to the cell, and poll again.
    Fetch,
    /// Another render fetches the key; poll again once it is answered.
    Wait,
    /// The render has come to its end.
    Done,
}

/// The stage of a render of `key` after a poll in `stage`, with the cell in `cell`.
pub open spec fn polled_stage(stage: Stage, key: Seq<char>, cell: Map<Seq<char>, Entry>) -> Stage {
    if !(stage is Pending) {
        stage
    } else {
        match request_turn(cell, key) {
            Turn::Ready(o) => settled(o),
            _ => Stage::Pending,
        }
    }
}

/// The cell after a poll of a render of `key` in `stage`.
pub open spec fn polled_cell(stage: Stage, key: Seq<char>, cell: Map<Seq<char>, Entry>) -> Map<
    Seq<char>,
    Entry,
> {
    if stage is Pending {
        request_state(cell, key)
    } else {
        cell
    }
}

/// What a poll of a render of `key` in `stage` is told.
pub open spec fn polled_step(stage: Stage, key: Seq<char>, cell: Map<Seq<char>, Entry>) -> Step {
    if !(stage is Pending) {
        Step::Done
    } else {
        match request_turn(cell, key) {
            Turn::Fetch => Step::Fetch,
            Turn::Wait => Step::Wait,
            Turn::Ready(_) => Step::Done,
        }
    }
}

/// One render of a book page.
#[derive(Debug)]
pub struct Invocation {
    key: String,
    state: RenderState,
}

impl Invocation {
    /// The key that the render fetches by.
    pub closed spec fn key_text(&self) -> Seq<char> {
        self.key@
    }

    /// The render's state.
    pub closed spec fn stage(&self) -> Stage {
        self.state@
    }

    /// Starts a render: it is pending.
    pub fn start(params: &BookPageParams) -> (inv: Invocation)
        ensures
            inv.key_text() == key_of(params@),
            inv.stage() is Pending,
    {
        Invocation { key: params.key(), state: RenderState::Pending }
    }

    /// The key that the render fetches by.
    pub fn key(&self) -> (k: &String)
        ensures
            k@ == self.key_text(),
    {
        &self.key
    }

    /// The render's state.
    pub fn state(&self) -> (s: &RenderState)
        ensures
            s@ == self.stage(),
    {
        &self.state
    }

    /// Moves the render on. A render at its end stays there and leaves the cell
    /// alone. A pending render asks the cell for its key: where the key is
    /// settled, or malformed, the render comes to its end; otherwise it stays
    /// pending, and the caller is told to fetch or to wait.
    pub fn poll(&mut self, cell: &mut ResourceCell) -> (step: Step)
        requires
            old(cell).wf(),
        ensures
            final(cell).wf(),
            final(self).key_text() == old(self).key_text(),
            final(self).stage() == polled_stage(old(self).stage(), old(self).key_text(), old(cell)@),
            final(cell)@ == polled_cell(old(self).stage(), old(self).key_text(), old(cell)@),
            step == polled_step(old(self).stage(), old(self).key_text(), old(cell)@),
            step == Step::Done <==> !(final(self).stage() is Pending),
    {
        match &self.state {
            RenderState::Pending => {},
            _ => {
                return Step::Done;
            },
        }
        match cell.request(self.key.as_str()) {
            Demand::Fetch => Step::Fetch,
            Demand::Wait => Step::Wait,
            Demand::Ready(outcome) => {
                self.state = settle(outcome);
                Step::Done
            },
        }
    }
}

/// Renders a book page against a catalogue, from start to end. The key is
/// fetched from the catalogue unless the cell holds it settled, and is settled
/// in the cell afterwards; a malformed key fails without a fetch and leaves the
/// cell as it was. The state returned is never pending.
pub fn render_page(params: &BookPageParams, cell: &mut ResourceCell, catalogue: &Catalogue) -> (state:
    RenderState)
    requires
        old(cell).wf(),
    ensures
        final(cell).wf(),
        state@ == settled(page_outcome(key_of(params@), old(cell)@, catalogue@)),
        final(cell)@ == page_cell(key_of(params@), old(cell)@, catalogue@),
        !(state@ is Pending),
{
    let mut inv = Invocation::start(params);
    let first = inv.poll(cell);
    match first {
        Step::Done => {
            assert(cell@ =~= page_cell(key_of(params@), old(cell)@, catalogue@));
        },
        _ => {
            let answer = catalogue.lookup(inv.key.as_str());
            cell.complete(inv.key.as_str(), answer);
            assert(cell@ =~= page_cell(key_of(params@), old(cell)@, catalogue@));
            let second = inv.poll(cell);
            assert(second == Step::Done);
        },
    }
    inv.state
}

/// A render comes to its end once: a poll of a render that is resolved or
/// failed changes neither the render nor the cell.
pub proof fn lemma_end_is_final(stage: Stage, key: Seq<char>, cell: Map<Seq<char>, Entry>)
    requires
        !(stage is Pending),
    ensures
        polled_stage(stage, key, cell) == stage,
        polled_cell(stage, key, cell) == cell,
        polled_step(stage, key, cell) == Step::Done,
{
}

/// A malformed key fails as an invalid identifier, with status 400, before any
/// fetch: the first poll ends the render, tells no one to fetch, and leaves the
/// cell as it was.
pub proof fn lemma_malformed_fails_unfetched(
    key: Seq<char>,
    cell: Map<Seq<char>, Entry>,
    answers: Map<Seq<char>, Answer>,
    policy: ServerErrorPolicy,
)
    requires
        !valid_id(key),
    ensures
        polled_stage(Stage::Pending, key, cell) == Stage::Failed(Failure::InvalidId),
        polled_step(Stage::Pending, key, cell) == Step::Done,
        polled_cell(Stage::Pending, key, cell) == cell,
        settled(page_outcome(key, cell, answers)) == Stage::Failed(Failure::InvalidId),
        page_cell(key, cell, answers) == cell,
        response_of(Stage::Failed(Failure::InvalidId), policy).1 == 400,
{
}

/// What `cell` holds settled for `key`, if anything, is what `answers`
/// settle it to: the cell has not kept the answer of another record source.
pub open spec fn key_agrees(
    key: Seq<char>,
    cell: Map<Seq<char>, Entry>,
    answers: Map<Seq<char>, Answer>,
) -> bool {
    cell.contains_key(key) && cell[key] is Ready ==> cell[key] == Entry::Ready(
        resolve(key, answer_in(answers, key)),
    )
}

/// A well-formed key without a record fails as not found, with status 404
/// under either policy.
pub proof fn lemma_unknown_is_not_found(
    key: Seq<char>,
    cell: Map<Seq<char>, Entry>,
    answers: Map<Seq<char>, Answer>,
    policy: ServerErrorPolicy,
)
    requires
        valid_id(key),
        answer_in(answers, key) is Missing,
        key_agrees(key, cell, answers),
    ensures
        settled(page_outcome(key, cell, answers)) == Stage::Failed(Failure::BookNotFound),
        response_of(settled(page_outcome(key, cell, answers)), policy).1 == 404,
{
}

/// A well-formed key with a record resolves to the page of that key, with
/// status 200.
pub proof fn lemma_known_is_resolved(
    key: Seq<char>,
    cell: Map<Seq<char>, Entry>,
    answers: Map<Seq<char>, Answer>,
    policy: ServerErrorPolicy,
)
    requires
        valid_id(key),
        answer_in(answers, key) is Found,
        key_agrees(key, cell, answers),
    ensures
        settled(page_outcome(key, cell, answers)) == Stage::Resolved(page_text(key)),
        response_of(settled(page_outcome(key, cell, answers)), policy) == (page_text(key), 200u16),
{
}

/// A well-formed key whose fetch fails ends as a server error with a detail
/// that is not empty, and is answered with the status that the policy names:
/// 404 where the policy answers as not found, 500 where it does not.
pub proof fn lemma_failed_fetch_is_server_error(
    key: Seq<char>,
    raw: Seq<char>,
    cell: Map<Seq<char>, Entry>,
    answers: Map<Seq<char>, Answer>,
    policy: ServerErrorPolicy,
)
    requires
        valid_id(key),
        answer_in(answers, key) == Answer::Failed(raw),
        key_agrees(key, cell, answers),
    ensures
        settled(page_outcome(key, cell, answers)) matches Stage::Failed(
            Failure::ServerError(detail),
        ) && detail.len() > 0 && (raw.len() > 0 ==> detail == raw) && response_of(
            Stage::Failed(Failure::ServerError(detail)),
            policy,
        ).1 == (if policy == ServerErrorPolicy::AsNotFound {
            404u16
        } else {
            500u16
        }),
{
    lemma_detail_never_empty(raw);
}

/// Every render ends, and ends well: whatever the key, the cell and the
/// answers, the end is resolved or failed and never pending, and a failure
/// that the render itself comes to carries a detail wherever it is a server
/// error.
pub proof fn lemma_render_always_ends(
    key: Seq<char>,
    cell: Map<Seq<char>, Entry>,
    answers: Map<Seq<char>, Answer>,
)
    requires
        key_agrees(key, cell, answers),
    ensures
        !(settled(page_outcome(key, cell, answers)) is Pending),
        settled(page_outcome(key, cell, answers)) matches Stage::Failed(e) ==> e.wf(),
{
    match answer_in(answers, key) {
        Answer::Failed(raw) => {
            lemma_detail_never_empty(raw);
        },
        _ => {},
    }
}

} // verus!
