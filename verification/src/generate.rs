//! The static generation driver: every candidate of a parameter domain is
//! rendered to its end, and the pages that result are kept as artifacts.

use vstd::prelude::*;
use vstd::string::*;
use vstd::pervasive::unreached;
use crate::boundary::{
    book_param, key_agrees, key_of, page_cell, page_outcome, render_page, BookPageParams,
    RenderState,
};
use crate::catalogue::{answer_in, Catalogue};
use crate::domain::BOOK_SLOT;
use crate::error::{BookPageError, Failure};
use crate::render::{lemma_page_is_no_placeholder, loading_text, page_text};
use crate::resource::{after_events, valid_id, Answer, CellEvent, Entry, ResourceCell};
use crate::route::{
    covers, is_slot, lemma_fill_then_match, params_of, path_text, segments_for,
    slot_values_slash_free, valid_pieces, Piece, ResolvedParams, RouteTemplate,
};
use crate::store::{Artifact, ArtifactStore};

verus! {

/// What the generation of one candidate comes to: a path and its document, or
/// a failure.
pub type Generated = Result<(Seq<char>, Seq<char>), Failure>;

/// The text of what the generation of one candidate came to.
pub open spec fn generated_text(r: Result<Artifact, BookPageError>) -> Generated {
    match r {
        Ok(a) => Ok((a.path@, a.document@)),
        Err(e) => Err(e@),
    }
}

/// What the generation of the candidate `params` comes to with the cell in
/// `cell`. A candidate that leaves a slot of the template without a value has
/// no path and fails as an invalid identifier; any other candidate comes to
/// what its render comes to, at the path that the template gives it.
pub open spec fn candidate_result_with(
    ps: Seq<Piece>,
    params: Map<Seq<char>, Seq<char>>,
    cell: Map<Seq<char>, Entry>,
    answers: Map<Seq<char>, Answer>,
) -> Generated {
    if !covers(ps, params) {
        Err(Failure::InvalidId)
    } else {
        match page_outcome(key_of(book_param(params)), cell, answers) {
            Ok(id) => Ok((path_text(ps, params), page_text(id))),
            Err(e) => Err(e),
        }
    }
}

/// The cell after the generation of the candidate `params`.
pub open spec fn candidate_cell(
    ps: Seq<Piece>,
    params: Map<Seq<char>, Seq<char>>,
    cell: Map<Seq<char>, Entry>,
    answers: Map<Seq<char>, Answer>,
) -> Map<Seq<char>, Entry> {
    if !covers(ps, params) {
        cell
    } else {
        page_cell(key_of(book_param(params)), cell, answers)
    }
}

/// What the generation of the candidate `params` comes to in a pass over
/// `answers`.
pub open spec fn candidate_result(
    ps: Seq<Piece>,
    params: Map<Seq<char>, Seq<char>>,
    answers: Map<Seq<char>, Answer>,
) -> Generated {
    candidate_result_with(ps, params, Map::empty(), answers)
}

/// The store after the generation of the first `k` candidates, in order: each
/// page is kept at its path, in place of what was kept there, and a failure
/// leaves the store as it was.
pub open spec fn generated(
    store: Map<Seq<char>, Seq<char>>,
    ps: Seq<Piece>,
    cands: Seq<Map<Seq<char>, Seq<char>>>,
    answers: Map<Seq<char>, Answer>,
    k: int,
) -> Map<Seq<char>, Seq<char>>
    decreases k,
{
    if k <= 0 {
        store
    } else {
        let before = generated(store, ps, cands, answers, k - 1);
        match candidate_result(ps, cands[k - 1], answers) {
            Ok((path, document)) => before.insert(path, document),
            Err(_) => before,
        }
    }
}

/// The candidates among the first `k` that failed, each with its place in the
/// domain and its failure, in order.
pub open spec fn failures_upto(
    ps: Seq<Piece>,
    cands: Seq<Map<Seq<char>, Seq<char>>>,
    answers: Map<Seq<char>, Answer>,
    k: int,
) -> Seq<(int, Failure)>
    decreases k,
{
    if k <= 0 {
        Seq::empty()
    } else {
        let before = failures_upto(ps, cands, answers, k - 1);
        match candidate_result(ps, cands[k - 1], answers) {
            Ok(_) => before,
            Err(e) => before.push((k - 1, e)),
        }
    }
}

/// The keys that the first `k` candidates are fetched by: the well-formed keys
/// of those that give every slot a value.
pub open spec fn keys_upto(ps: Seq<Piece>, cands: Seq<Map<Seq<char>, Seq<char>>>, k: int) -> Set<
    Seq<char>,
>
    decreases k,
{
    if k <= 0 {
        Set::empty()
    } else {
        let before = keys_upto(ps, cands, k - 1);
        let key = key_of(book_param(cands[k - 1]));
        if covers(ps, cands[k - 1]) && valid_id(key) {
            before.insert(key)
        } else {
            before
        }
    }
}

/// Every key that `cell` holds settled is settled as `answers` settle it.
pub open spec fn cell_agrees(cell: Map<Seq<char>, Entry>, answers: Map<Seq<char>, Answer>) -> bool {
    forall|k: Seq<char>| #[trigger] key_agrees(k, cell, answers)
}

/// Every answer reported among `events` is the answer that `answers` hold
/// for its key.
pub open spec fn answers_faithful(events: Seq<CellEvent>, answers: Map<Seq<char>, Answer>) -> bool {
    forall|i: int|
        0 <= i < events.len() ==> ((#[trigger] events[i]) matches CellEvent::Complete(k, a) ==> a
            == answer_in(answers, k))
}

/// A candidate that failed, for the log.
#[derive(Clone, Debug, PartialEq, Eq)]
pub struct GenerationFailure {
    /// The candidate's place in the domain.
    pub index: usize,
    /// Why no page was generated for it.
    pub error: BookPageError,
}

/// The failures of a pass, as text.
pub open spec fn failure_texts(v: Seq<GenerationFailure>) -> Seq<(int, Failure)> {
    Seq::new(v.len(), |i: int| (v[i].index as int, v[i].error@))
}

/// What a generation pass did.
#[derive(Clone, Debug, PartialEq, Eq)]
pub struct GenerationReport {
    /// How many candidates came to a page.
    pub written: usize,
    /// How many keys were fetched from the record source.
    pub fetched: usize,
    /// The candidates that failed, in the order of the domain.
    pub failures: Vec<GenerationFailure>,
}

/// Generates the page of one candidate. The render is driven to its end
/// before anything is returned: the result is a page with its path, or the
/// failure, and never the view of a pending render.
pub fn generate_one(
    template: &RouteTemplate,
    params: &ResolvedParams,
    cell: &mut ResourceCell,
    catalogue: &Catalogue,
) -> (r: Result<Artifact, BookPageError>)
    requires
        old(cell).wf(),
    ensures
        final(cell).wf(),
        generated_text(r) == candidate_result_with(template@, params@, old(cell)@, catalogue@),
        final(cell)@ == candidate_cell(template@, params@, old(cell)@, catalogue@),
{
    let path = match template.path_for(params) {
        None => {
            return Err(BookPageError::InvalidId);
        },
        Some(path) => path,
    };
    let page = BookPageParams::from_params(params);
    match render_page(&page, cell, catalogue) {
        RenderState::Resolved(document) => Ok(Artifact { path, document }),
        RenderState::Failed(e) => Err(e),
        RenderState::Pending => unreached(),
    }
}

/// Generates the pages of `candidates`, in order, into `store`. Every
/// candidate is rendered to its end against `catalogue`, through a cell that
/// starts empty, so that no key is fetched twice. A page is kept at its path,
/// in place of what was kept there; a failure is reported and skipped, and
/// the pass goes on.
pub fn generate(
    template: &RouteTemplate,
    candidates: &Vec<ResolvedParams>,
    catalogue: &Catalogue,
    store: &mut ArtifactStore,
) -> (report: GenerationReport)
    ensures
        final(store)@ == generated(
            old(store)@,
            template@,
            params_of(candidates@),
            catalogue@,
            candidates@.len() as int,
        ),
        failure_texts(report.failures@) == failures_upto(
            template@,
            params_of(candidates@),
            catalogue@,
            candidates@.len() as int,
        ),
        report.written + report.failures@.len() == candidates@.len(),
        report.fetched == keys_upto(template@, params_of(candidates@), candidates@.len() as int).len(),
{
    let ghost cands = params_of(candidates@);
    let ghost ps = template@;
    let ghost answers = catalogue@;
    let mut cell = ResourceCell::new();
    let mut failures: Vec<GenerationFailure> = Vec::new();
    let mut written: usize = 0;
    let mut i: usize = 0;
    assert(failure_texts(failures@) =~= failures_upto(ps, cands, answers, 0));
    assert(cell@.dom() =~= keys_upto(ps, cands, 0));
    while i < candidates.len()
        invariant
            i <= candidates@.len(),
            cands == params_of(candidates@),
            ps == template@,
            answers == catalogue@,
            cell.wf(),
            cell_agrees(cell@, answers),
            cell@.dom() == keys_upto(ps, cands, i as int),
            store@ == generated(old(store)@, ps, cands, answers, i as int),
            failure_texts(failures@) == failures_upto(ps, cands, answers, i as int),
            written + failures@.len() == i,
        decreases candidates@.len() - i,
    {
        let ghost cell_before = cell@;
        let ghost failed_before = failures@;
        assert(cands[i as int] == candidates@[i as int]@);
        proof {
            lemma_agreeing_cell_is_fresh(ps, cands[i as int], cell_before, answers);
        }
        match generate_one(template, &candidates[i], &mut cell, catalogue) {
            Ok(artifact) => {
                store.write(artifact);
                written = written + 1;
            },
            Err(error) => {
                failures.push(GenerationFailure { index: i, error });
                assert(failure_texts(failures@) =~= failure_texts(failed_before).push(
                    (i as int, error@),
                ));
            },
        }
        assert(cell@.dom() =~= keys_upto(ps, cands, i + 1));
        i = i + 1;
    }
    let fetched = cell.len();
    GenerationReport { written, fetched, failures }
}

/// A cell that agrees with the answers still agrees after any requests,
/// cancellations and faithful answers: what a fetch phase leaves behind can be
/// rendered from as if every key were fetched anew.
pub proof fn lemma_faithful_answers_keep_agreement(
    cell: Map<Seq<char>, Entry>,
    events: Seq<CellEvent>,
    answers: Map<Seq<char>, Answer>,
)
    requires
        cell_agrees(cell, answers),
        answers_faithful(events, answers),
    ensures
        cell_agrees(after_events(cell, events), answers),
    decreases events.len(),
{
    if events.len() > 0 {
        let front = events.drop_last();
        assert forall|i: int| 0 <= i < front.len() implies ((#[trigger] front[i]) matches CellEvent::Complete(
            k,
            a,
        ) ==> a == answer_in(answers, k)) by {
            assert(front[i] == events[i]);
        }
        lemma_faithful_answers_keep_agreement(cell, front, answers);
        let before = after_events(cell, front);
        let after = after_events(cell, events);
        let last = events[events.len() - 1];
        assert(events.last() == last);
        assert forall|k: Seq<char>| #[trigger] key_agrees(k, after, answers) by {
            assert(key_agrees(k, before, answers));
        }
    }
}

/// In a cell that agrees with the answers, a candidate comes to what it comes
/// to in an empty cell, and the cell still agrees afterwards.
pub proof fn lemma_agreeing_cell_is_fresh(
    ps: Seq<Piece>,
    params: Map<Seq<char>, Seq<char>>,
    cell: Map<Seq<char>, Entry>,
    answers: Map<Seq<char>, Answer>,
)
    requires
        cell_agrees(cell, answers),
    ensures
        candidate_result_with(ps, params, cell, answers) == candidate_result(ps, params, answers),
        cell_agrees(candidate_cell(ps, params, cell, answers), answers),
{
    let key = key_of(book_param(params));
    assert(key_agrees(key, cell, answers));
    let after = candidate_cell(ps, params, cell, answers);
    assert forall|k: Seq<char>| #[trigger] key_agrees(k, after, answers) by {
        assert(key_agrees(k, cell, answers));
    }
}

/// A pass writes over the store and reads nothing from it: the store after a
/// pass is the store before it, overlaid with what the pass writes into an
/// empty store.
pub proof fn lemma_generated_overlays(
    store: Map<Seq<char>, Seq<char>>,
    ps: Seq<Piece>,
    cands: Seq<Map<Seq<char>, Seq<char>>>,
    answers: Map<Seq<char>, Answer>,
    k: int,
)
    ensures
        generated(store, ps, cands, answers, k) == store.union_prefer_right(
            generated(Map::empty(), ps, cands, answers, k),
        ),
    decreases k,
{
    if k <= 0 {
        assert(store =~= store.union_prefer_right(Map::<Seq<char>, Seq<char>>::empty()));
    } else {
        lemma_generated_overlays(store, ps, cands, answers, k - 1);
        let written = generated(Map::empty(), ps, cands, answers, k - 1);
        match candidate_result(ps, cands[k - 1], answers) {
            Ok((path, document)) => {
                assert(store.union_prefer_right(written).insert(path, document)
                    =~= store.union_prefer_right(written.insert(path, document)));
            },
            Err(_) => {},
        }
    }
}

/// Generation is idempotent: a second pass over the same candidates and the
/// same answers leaves every artifact as the first pass left it, letter for
/// letter, and adds none.
pub proof fn lemma_generation_idempotent(
    store: Map<Seq<char>, Seq<char>>,
    ps: Seq<Piece>,
    cands: Seq<Map<Seq<char>, Seq<char>>>,
    answers: Map<Seq<char>, Answer>,
)
    ensures
        generated(
            generated(store, ps, cands, answers, cands.len() as int),
            ps,
            cands,
            answers,
            cands.len() as int,
        ) == generated(store, ps, cands, answers, cands.len() as int),
{
    let n = cands.len() as int;
    let once = generated(store, ps, cands, answers, n);
    let written = generated(Map::empty(), ps, cands, answers, n);
    lemma_generated_overlays(store, ps, cands, answers, n);
    lemma_generated_overlays(once, ps, cands, answers, n);
    assert(store.union_prefer_right(written).union_prefer_right(written)
        =~= store.union_prefer_right(written));
}

/// The candidate `params` comes to a page at `path`.
pub open spec fn writes_at(
    ps: Seq<Piece>,
    params: Map<Seq<char>, Seq<char>>,
    answers: Map<Seq<char>, Answer>,
    path: Seq<char>,
) -> bool {
    candidate_result(ps, params, answers) is Ok && candidate_result(ps, params, answers)->Ok_0.0
        == path
}

/// The paths of a pass: the store holds afterwards what it held before and
/// the path of every candidate that came to a page, and nothing else.
pub proof fn lemma_generated_paths(
    store: Map<Seq<char>, Seq<char>>,
    ps: Seq<Piece>,
    cands: Seq<Map<Seq<char>, Seq<char>>>,
    answers: Map<Seq<char>, Answer>,
    k: int,
)
    requires
        0 <= k <= cands.len(),
    ensures
        forall|path: Seq<char>| #[trigger]
            generated(store, ps, cands, answers, k).contains_key(path) <==> (store.contains_key(
                path,
            ) || exists|i: int| 0 <= i < k && #[trigger] writes_at(ps, cands[i], answers, path)),
    decreases k,
{
    if k > 0 {
        lemma_generated_paths(store, ps, cands, answers, k - 1);
        let before = generated(store, ps, cands, answers, k - 1);
        let after = generated(store, ps, cands, answers, k);
        assert forall|path: Seq<char>| #[trigger]
            after.contains_key(path) <==> (store.contains_key(path) || exists|i: int|
                0 <= i < k && #[trigger] writes_at(ps, cands[i], answers, path)) by {
            if after.contains_key(path) && !store.contains_key(path) {
                if before.contains_key(path) {
                    let i = choose|i: int|
                        0 <= i < k - 1 && #[trigger] writes_at(ps, cands[i], answers, path);
                    assert(0 <= i < k && writes_at(ps, cands[i], answers, path));
                } else {
                    assert(writes_at(ps, cands[k - 1], answers, path));
                }
            }
            if exists|i: int| 0 <= i < k && #[trigger] writes_at(ps, cands[i], answers, path) {
                let i = choose|i: int|
                    0 <= i < k && #[trigger] writes_at(ps, cands[i], answers, path);
                if i < k - 1 {
                    assert(before.contains_key(path));
                }
            }
        }
    }
}

/// No two of the first `k` candidates come to different pages at one path.
pub open spec fn paths_tell_pages(
    ps: Seq<Piece>,
    cands: Seq<Map<Seq<char>, Seq<char>>>,
    answers: Map<Seq<char>, Answer>,
    k: int,
) -> bool {
    forall|i: int, j: int, path: Seq<char>|
        0 <= i < k && 0 <= j < k && #[trigger] writes_at(ps, cands[i], answers, path)
            && #[trigger] writes_at(ps, cands[j], answers, path) ==> candidate_result(
            ps,
            cands[i],
            answers,
        ) == candidate_result(ps, cands[j], answers)
}

/// One artifact for every value: where no two candidates come to different
/// pages at one path, the store holds after a pass, for every candidate that
/// came to a page, that page at that candidate's path.
pub proof fn lemma_generated_holds_each(
    store: Map<Seq<char>, Seq<char>>,
    ps: Seq<Piece>,
    cands: Seq<Map<Seq<char>, Seq<char>>>,
    answers: Map<Seq<char>, Answer>,
    k: int,
)
    requires
        0 <= k <= cands.len(),
        paths_tell_pages(ps, cands, answers, k),
    ensures
        forall|i: int|
            0 <= i < k && (#[trigger] candidate_result(ps, cands[i], answers)) is Ok ==> {
                let page = candidate_result(ps, cands[i], answers)->Ok_0;
                generated(store, ps, cands, answers, k).contains_key(page.0) && generated(
                    store,
                    ps,
                    cands,
                    answers,
                    k,
                )[page.0] == page.1
            },
    decreases k,
{
    if k > 0 {
        assert(paths_tell_pages(ps, cands, answers, k - 1));
        lemma_generated_holds_each(store, ps, cands, answers, k - 1);
        let after = generated(store, ps, cands, answers, k);
        let last = candidate_result(ps, cands[k - 1], answers);
        assert forall|i: int|
            0 <= i < k && (#[trigger] candidate_result(ps, cands[i], answers)) is Ok implies {
            let page = candidate_result(ps, cands[i], answers)->Ok_0;
            after.contains_key(page.0) && after[page.0] == page.1
        } by {
            let this = candidate_result(ps, cands[i], answers);
            if last is Ok && i < k - 1 && this->Ok_0.0 == last->Ok_0.0 {
                let path = this->Ok_0.0;
                assert(writes_at(ps, cands[i], answers, path));
                assert(writes_at(ps, cands[k - 1], answers, path));
            }
        }
    }
}

/// Candidates that can be read back from their paths never come to different
/// pages at one path: this holds where the book slot is a slot of the
/// template and every candidate that gives every slot a value gives it one
/// without a slash.
pub proof fn lemma_routable_paths_tell_pages(
    ps: Seq<Piece>,
    cands: Seq<Map<Seq<char>, Seq<char>>>,
    answers: Map<Seq<char>, Answer>,
)
    requires
        valid_pieces(ps),
        is_slot(ps, BOOK_SLOT@),
        forall|i: int|
            0 <= i < cands.len() && covers(ps, #[trigger] cands[i]) ==> slot_values_slash_free(
                ps,
                cands[i],
            ),
    ensures
        paths_tell_pages(ps, cands, answers, cands.len() as int),
{
    let s = choose|s: int| 0 <= s < ps.len() && #[trigger] ps[s] == Piece::Slot(BOOK_SLOT@);
    assert forall|i: int, j: int, path: Seq<char>|
        0 <= i < cands.len() && 0 <= j < cands.len() && #[trigger] writes_at(
            ps,
            cands[i],
            answers,
            path,
        ) && #[trigger] writes_at(ps, cands[j], answers, path) implies candidate_result(
        ps,
        cands[i],
        answers,
    ) == candidate_result(ps, cands[j], answers) by {
        lemma_fill_then_match(ps, cands[i]);
        lemma_fill_then_match(ps, cands[j]);
        assert(segments_for(ps, cands[i]) == segments_for(ps, cands[j]));
        assert(ps[s] is Slot);
        assert(cands[i].contains_key(ps[s]->Slot_0));
        assert(cands[j].contains_key(ps[s]->Slot_0));
        assert(segments_for(ps, cands[i])[s] == cands[i][BOOK_SLOT@]);
        assert(segments_for(ps, cands[j])[s] == cands[j][BOOK_SLOT@]);
    }
}

/// The view of a pending render is never kept: where the store holds no
/// loading view before a pass, it holds none after it.
pub proof fn lemma_no_placeholder_kept(
    store: Map<Seq<char>, Seq<char>>,
    ps: Seq<Piece>,
    cands: Seq<Map<Seq<char>, Seq<char>>>,
    answers: Map<Seq<char>, Answer>,
    k: int,
)
    requires
        0 <= k <= cands.len(),
        forall|path: Seq<char>| #[trigger] store.contains_key(path) ==> store[path] != loading_text(),
    ensures
        forall|path: Seq<char>| #[trigger]
            generated(store, ps, cands, answers, k).contains_key(path) ==> generated(
                store,
                ps,
                cands,
                answers,
                k,
            )[path] != loading_text(),
    decreases k,
{
    if k > 0 {
        lemma_no_placeholder_kept(store, ps, cands, answers, k - 1);
        let before = generated(store, ps, cands, answers, k - 1);
        let after = generated(store, ps, cands, answers, k);
        let last = candidate_result(ps, cands[k - 1], answers);
        if last is Ok {
            let id = page_outcome(key_of(book_param(cands[k - 1])), Map::empty(), answers)->Ok_0;
            lemma_page_is_no_placeholder(id, Failure::InvalidId);
            assert(last->Ok_0.1 == page_text(id));
            assert(after == before.insert(last->Ok_0.0, last->Ok_0.1));
        } else {
            assert(after == before);
        }
        assert forall|path: Seq<char>| #[trigger] after.contains_key(path) implies after[path]
            != loading_text() by {
            if last is Ok && path == last->Ok_0.0 {
            } else {
                assert(before.contains_key(path));
            }
        }
    }
}

} // verus!
