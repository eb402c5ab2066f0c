//! The route dispatcher: a request's path is read against the templates, an
//! artifact is served where one exists, and the page is rendered on demand
//! where none does.

use vstd::prelude::*;
use vstd::string::*;
use crate::boundary::{
    book_param, key_of, page_cell, page_outcome, render_page, respond, response_of, settled,
    BookPageParams, RenderState, Stage,
};
use crate::catalogue::Catalogue;
use crate::error::{ServerErrorPolicy, STATUS_NOT_FOUND, STATUS_OK};
use crate::resource::{valid_id, Answer, Entry, ResourceCell};
use crate::generate::{candidate_result, generated, lemma_generated_holds_each, paths_tell_pages};
use crate::route::{
    bindings, lemma_fill_then_match, matches_path, path_text, slot_values_slash_free, valid_pieces,
    Piece, ResolvedParams, RouteTemplate,
};
use crate::text::segments_of;

verus! {

/// The pieces of a sequence of templates.
pub open spec fn templates_of(v: Seq<RouteTemplate>) -> Seq<Seq<Piece>> {
    Seq::new(v.len(), |i: int| v[i]@)
}

/// The first template at or behind `from` that `path` matches.
pub open spec fn first_match(routes: Seq<Seq<Piece>>, path: Seq<char>, from: int) -> Option<int>
    decreases routes.len() - from,
{
    if from < 0 || from >= routes.len() {
        None
    } else if matches_path(routes[from], path) {
        Some(from)
    } else {
        first_match(routes, path, from + 1)
    }
}

/// What is to be done for a request.
pub enum Dispatch {
    /// Serve this artifact as it is.
    Serve(String),
    /// Render the page of the template at `route`, with the parameters read
    /// from the path.
    Render { route: usize, params: ResolvedParams },
    /// The path matches no template.
    NotFound,
}

/// What is to be done for a request, as text.
pub enum Plan {
    Serve(Seq<char>),
    Render { route: int, params: Map<Seq<char>, Seq<char>> },
    NotFound,
}

impl View for Dispatch {
    type V = Plan;

    open spec fn view(&self) -> Plan {
        match self {
            Dispatch::Serve(doc) => Plan::Serve(doc@),
            Dispatch::Render { route, params } => Plan::Render {
                route: *route as int,
                params: params@,
            },
            Dispatch::NotFound => Plan::NotFound,
        }
    }
}

/// What is to be done for a request of `path`: nothing but a plain refusal
/// where no template matches; else the artifact kept for exactly this path;
/// else a render with the parameters that the first matching template reads.
pub open spec fn plan_for(
    routes: Seq<Seq<Piece>>,
    store: Map<Seq<char>, Seq<char>>,
    path: Seq<char>,
) -> Plan {
    match first_match(routes, path, 0) {
        None => Plan::NotFound,
        Some(i) => if store.contains_key(path) {
            Plan::Serve(store[path])
        } else {
            Plan::Render { route: i, params: bindings(routes[i], segments_of(path)) }
        },
    }
}

/// Decides what is to be done for a request of `path`.
pub fn dispatch(routes: &Vec<RouteTemplate>, store: &crate::store::ArtifactStore, path: &str) -> (d:
    Dispatch)
    ensures
        d@ == plan_for(templates_of(routes@), store@, path@),
{
    let ghost all = templates_of(routes@);
    let mut i: usize = 0;
    while i < routes.len()
        invariant
            i <= routes@.len(),
            all == templates_of(routes@),
            first_match(all, path@, 0) == first_match(all, path@, i as int),
        decreases routes@.len() - i,
    {
        assert(all[i as int] == routes@[i as int]@);
        match routes[i].match_path(path) {
            None => {},
            Some(params) => {
                return match store.read(path) {
                    Some(doc) => Dispatch::Serve(doc.clone()),
                    None => Dispatch::Render { route: i, params },
                };
            },
        }
        i = i + 1;
    }
    Dispatch::NotFound
}

/// Where the body of a response came from.
#[derive(Clone, Copy, Debug, PartialEq, Eq, Structural)]
pub enum Source {
    /// An artifact, served as it was kept.
    Artifact,
    /// A page rendered on demand.
    Rendered,
    /// The fallback view of a render that failed.
    Fallback,
    /// No template matched; the body is empty.
    NoRoute,
}

/// The answer to a request.
#[derive(Clone, Debug, PartialEq, Eq)]
pub struct Response {
    pub status: u16,
    pub body: String,
    pub source: Source,
}

/// The source of the body for a render that ended in `stage`.
pub open spec fn source_of(stage: Stage) -> Source {
    match stage {
        Stage::Failed(_) => Source::Fallback,
        _ => Source::Rendered,
    }
}

/// The answer to a request of `path`: status, body and the body's source.
pub open spec fn answer_for(
    routes: Seq<Seq<Piece>>,
    store: Map<Seq<char>, Seq<char>>,
    cell: Map<Seq<char>, Entry>,
    answers: Map<Seq<char>, Answer>,
    policy: ServerErrorPolicy,
    path: Seq<char>,
) -> (u16, Seq<char>, Source) {
    match plan_for(routes, store, path) {
        Plan::NotFound => (STATUS_NOT_FOUND, Seq::empty(), Source::NoRoute),
        Plan::Serve(doc) => (STATUS_OK, doc, Source::Artifact),
        Plan::Render { route, params } => {
            let stage = settled(page_outcome(key_of(book_param(params)), cell, answers));
            (response_of(stage, policy).1, response_of(stage, policy).0, source_of(stage))
        },
    }
}

/// The cell after a request of `path`: as it was, unless a page was rendered
/// on demand.
pub open spec fn cell_after(
    routes: Seq<Seq<Piece>>,
    store: Map<Seq<char>, Seq<char>>,
    cell: Map<Seq<char>, Entry>,
    answers: Map<Seq<char>, Answer>,
    path: Seq<char>,
) -> Map<Seq<char>, Entry> {
    match plan_for(routes, store, path) {
        Plan::Render { route, params } => page_cell(key_of(book_param(params)), cell, answers),
        _ => cell,
    }
}

/// Answers a request of `path`. An artifact kept for the path is served as
/// it is, with status 200, and the cell is not asked. Without an artifact the
/// page is rendered on demand, to its end, and answered with its document and
/// status 200, or with the fallback view and the failure's status. A path
/// that matches no template is answered with status 404 and an empty body.
pub fn handle(
    routes: &Vec<RouteTemplate>,
    store: &crate::store::ArtifactStore,
    cell: &mut ResourceCell,
    catalogue: &Catalogue,
    policy: ServerErrorPolicy,
    path: &str,
) -> (r: Response)
    requires
        old(cell).wf(),
    ensures
        final(cell).wf(),
        (r.status, r.body@, r.source) == answer_for(
            templates_of(routes@),
            store@,
            old(cell)@,
            catalogue@,
            policy,
            path@,
        ),
        final(cell)@ == cell_after(templates_of(routes@), store@, old(cell)@, catalogue@, path@),
{
    match dispatch(routes, store, path) {
        Dispatch::NotFound => Response {
            status: STATUS_NOT_FOUND,
            body: String::new(),
            source: Source::NoRoute,
        },
        Dispatch::Serve(body) => Response { status: STATUS_OK, body, source: Source::Artifact },
        Dispatch::Render { route, params } => {
            let page = BookPageParams::from_params(&params);
            let state = render_page(&page, cell, catalogue);
            let source = match &state {
                RenderState::Failed(_) => Source::Fallback,
                _ => Source::Rendered,
            };
            let (body, status) = respond(&state, policy);
            Response { status, body, source }
        },
    }
}

/// A request for a path with an artifact never asks the cell: the cell is
/// left as it was, and the answer is the artifact, unless no template matches.
pub proof fn lemma_artifact_spares_cell(
    routes: Seq<Seq<Piece>>,
    store: Map<Seq<char>, Seq<char>>,
    cell: Map<Seq<char>, Entry>,
    answers: Map<Seq<char>, Answer>,
    policy: ServerErrorPolicy,
    path: Seq<char>,
)
    requires
        store.contains_key(path),
    ensures
        cell_after(routes, store, cell, answers, path) == cell,
        !(plan_for(routes, store, path) is Render),
        first_match(routes, path, 0) is Some ==> answer_for(
            routes,
            store,
            cell,
            answers,
            policy,
            path,
        ) == (STATUS_OK, store[path], Source::Artifact),
{
}

/// A request for a path without an artifact is rendered on demand wherever a
/// template matches, and the render asks the cell wherever the identifier is
/// well formed: the cell then holds the identifier, settled. A malformed
/// identifier fails before the cell is asked, and a path that matches no
/// template is refused without a render.
pub proof fn lemma_miss_asks_cell(
    routes: Seq<Seq<Piece>>,
    store: Map<Seq<char>, Seq<char>>,
    cell: Map<Seq<char>, Entry>,
    answers: Map<Seq<char>, Answer>,
    path: Seq<char>,
)
    requires
        !store.contains_key(path),
    ensures
        first_match(routes, path, 0) is Some <==> plan_for(routes, store, path) is Render,
        plan_for(routes, store, path) matches Plan::Render { route, params } ==> {
            let key = key_of(book_param(params));
            let after = cell_after(routes, store, cell, answers, path);
            if valid_id(key) {
                after.contains_key(key) && after[key] is Ready
            } else {
                after == cell
            }
        },
        first_match(routes, path, 0) is None ==> cell_after(routes, store, cell, answers, path)
            == cell,
{
}

/// A template that `first_match` names is among the templates, is matched by
/// the path, and is the first that is.
pub proof fn lemma_first_match(routes: Seq<Seq<Piece>>, path: Seq<char>, from: int)
    requires
        0 <= from,
    ensures
        first_match(routes, path, from) matches Some(i) ==> from <= i < routes.len()
            && matches_path(routes[i], path) && forall|j: int|
            from <= j < i ==> !matches_path(#[trigger] routes[j], path),
        first_match(routes, path, from) is None ==> forall|j: int|
            from <= j < routes.len() ==> !matches_path(#[trigger] routes[j], path),
    decreases routes.len() - from,
{
    if from < routes.len() && !matches_path(routes[from], path) {
        lemma_first_match(routes, path, from + 1);
    }
}

/// What a pass generates is what a request is served: after a pass over the
/// one template `ps`, a request for the path of a candidate that came to a
/// page, and that gives every slot a value without a slash, is answered with
/// that page as an artifact and with status 200, and the cell is not asked.
pub proof fn lemma_generated_page_is_served(
    store: Map<Seq<char>, Seq<char>>,
    ps: Seq<Piece>,
    cands: Seq<Map<Seq<char>, Seq<char>>>,
    answers: Map<Seq<char>, Answer>,
    cell: Map<Seq<char>, Entry>,
    policy: ServerErrorPolicy,
    i: int,
)
    requires
        0 <= i < cands.len(),
        valid_pieces(ps),
        paths_tell_pages(ps, cands, answers, cands.len() as int),
        candidate_result(ps, cands[i], answers) is Ok,
        slot_values_slash_free(ps, cands[i]),
    ensures
        ({
            let page = candidate_result(ps, cands[i], answers)->Ok_0;
            let after = generated(store, ps, cands, answers, cands.len() as int);
            &&& answer_for(seq![ps], after, cell, answers, policy, page.0) == (
                STATUS_OK,
                page.1,
                Source::Artifact,
            )
            &&& cell_after(seq![ps], after, cell, answers, page.0) == cell
        }),
{
    lemma_generated_holds_each(store, ps, cands, answers, cands.len() as int);
    lemma_fill_then_match(ps, cands[i]);
    let path = candidate_result(ps, cands[i], answers)->Ok_0.0;
    assert(path == path_text(ps, cands[i]));
    assert(seq![ps][0] == ps);
    assert(first_match(seq![ps], path, 0) == Some(0int));
}

} // verus!
