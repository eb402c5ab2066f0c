use book_ssg::boundary::{render_page, respond, settle, BookPageParams, Invocation, RenderState, Step};
use book_ssg::catalogue::{copy_lookup, Catalogue};
use book_ssg::domain::{
    base_ids, cycle_to, domain_for, list_book_ids, string_eq, ParameterDomain, BOOK_DOMAIN_SIZE,
    BOOK_SLOT,
};
use book_ssg::error::{BookPageError, ServerErrorPolicy};
use book_ssg::limiter::{Admission, Limiter, Throttle};
use book_ssg::prefetch::{Advance, Prefetch};
use book_ssg::resource::{copy_outcome, resolve_lookup, Demand, Lookup, ResourceCell, Slot};
use book_ssg::route::ResolvedParams;

fn s(text: &str) -> String {
    text.to_string()
}

fn params(id: &str) -> BookPageParams {
    BookPageParams::new(Some(s(id)))
}

#[test]
fn base_ids_are_the_twelve_books() {
    let ids = base_ids();
    assert_eq!(
        ids,
        vec![
            s("bk101"),
            s("bk102"),
            s("bk103"),
            s("bk104"),
            s("bk105"),
            s("bk106"),
            s("bk107"),
            s("bk108"),
            s("bk109"),
            s("bk110"),
            s("bk111"),
            s("bk112"),
        ]
    );
}

#[test]
fn book_domain_cycles_the_twelve_books() {
    let ids = list_book_ids();
    assert_eq!(BOOK_DOMAIN_SIZE, 4_000_000);
    assert_eq!(ids.len(), 4_000_000);
    assert_eq!(ids[0], "bk101");
    assert_eq!(ids[11], "bk112");
    assert_eq!(ids[12], "bk101");
    assert_eq!(ids[3_999_999], "bk104");
}

#[test]
fn cycle_to_repeats_in_order() {
    let base = vec![s("a"), s("b"), s("c")];
    assert_eq!(cycle_to(&base, 7), vec![s("a"), s("b"), s("c"), s("a"), s("b"), s("c"), s("a")]);
    assert_eq!(cycle_to(&base, 2), vec![s("a"), s("b")]);
}

#[test]
fn cycle_to_of_nothing_or_to_nothing_is_empty() {
    assert_eq!(cycle_to(&Vec::new(), 5), Vec::<String>::new());
    assert_eq!(cycle_to(&vec![s("a")], 0), Vec::<String>::new());
}

#[test]
fn domain_for_knows_the_book_slot_only() {
    assert_eq!(BOOK_SLOT, "book_id");
    assert_eq!(domain_for("book_id").len(), 4_000_000);
    assert_eq!(domain_for("shelf"), Vec::<String>::new());
    assert_eq!(domain_for(""), Vec::<String>::new());
}

#[test]
fn domain_for_gives_the_same_values_each_time() {
    let a = domain_for("book_id");
    let b = domain_for("book_id");
    assert_eq!(a[..24], b[..24]);
    assert_eq!(a.len(), b.len());
}

#[test]
fn parameter_domain_holds_values_by_slot() {
    let mut d = ParameterDomain::new();
    assert!(d.values("book_id").is_none());
    d.set(s("book_id"), vec![s("x"), s("x"), s("y")]);
    assert_eq!(d.values("book_id"), Some(&vec![s("x"), s("x"), s("y")]));
    d.set(s("book_id"), vec![s("z")]);
    assert_eq!(d.values("book_id"), Some(&vec![s("z")]));
}

#[test]
fn string_eq_compares_text() {
    assert!(string_eq("book_id", "book_id"));
    assert!(!string_eq("book_id", "book_i"));
    assert!(string_eq("", ""));
}

#[test]
fn catalogue_answers_found_for_its_ids_and_missing_for_others() {
    let c = Catalogue::of(&base_ids());
    assert_eq!(c.lookup("bk101"), Lookup::Found);
    assert_eq!(c.lookup("bk112"), Lookup::Found);
    assert_eq!(c.lookup("bk999"), Lookup::Missing);
    assert_eq!(c.lookup(""), Lookup::Missing);
    assert_eq!(Catalogue::new().lookup("bk101"), Lookup::Missing);
}

#[test]
fn catalogue_keeps_the_last_answer_set() {
    let mut c = Catalogue::new();
    c.set(s("bk500"), Lookup::Failed(s("timeout")));
    assert_eq!(c.lookup("bk500"), Lookup::Failed(s("timeout")));
    c.set(s("bk500"), Lookup::Found);
    assert_eq!(c.lookup("bk500"), Lookup::Found);
}

#[test]
fn copies_are_equal_to_what_they_copy() {
    assert_eq!(copy_lookup(&Lookup::Failed(s("x"))), Lookup::Failed(s("x")));
    assert_eq!(copy_lookup(&Lookup::Found), Lookup::Found);
    assert_eq!(copy_outcome(&Ok(s("bk101"))), Ok(s("bk101")));
    assert_eq!(copy_outcome(&Err(BookPageError::BookNotFound)), Err(BookPageError::BookNotFound));
}

#[test]
fn resolve_lookup_maps_each_answer() {
    assert_eq!(resolve_lookup("bk101", Lookup::Found), Ok(s("bk101")));
    assert_eq!(resolve_lookup("bk999", Lookup::Missing), Err(BookPageError::BookNotFound));
    assert_eq!(
        resolve_lookup("bk101", Lookup::Failed(s("io"))),
        Err(BookPageError::ServerError(s("io")))
    );
    assert_eq!(
        resolve_lookup("bk101", Lookup::Failed(String::new())),
        Err(BookPageError::ServerError(s("unknown failure")))
    );
}

#[test]
fn requests_for_one_key_are_told_to_fetch_once() {
    let mut cell = ResourceCell::new();
    let mut fetches = 0;
    let mut waits = 0;
    for _ in 0..50 {
        match cell.request("bk101") {
            Demand::Fetch => fetches += 1,
            Demand::Wait => waits += 1,
            Demand::Ready(_) => panic!("nothing was answered yet"),
        }
    }
    assert_eq!(fetches, 1);
    assert_eq!(waits, 49);
    assert_eq!(cell.len(), 1);
    assert!(cell.is_in_flight("bk101"));
}

#[test]
fn first_request_fetches_and_later_ones_share_the_answer() {
    let mut cell = ResourceCell::new();
    assert_eq!(cell.request("bk101"), Demand::Fetch);
    assert_eq!(cell.request("bk101"), Demand::Wait);
    cell.complete("bk101", Lookup::Found);
    assert_eq!(cell.request("bk101"), Demand::Ready(Ok(s("bk101"))));
    assert_eq!(cell.request("bk101"), Demand::Ready(Ok(s("bk101"))));
    assert_eq!(cell.peek("bk101"), Some(Slot::Ready(Ok(s("bk101")))));
    assert!(!cell.is_in_flight("bk101"));
}

#[test]
fn distinct_keys_are_fetched_separately() {
    let mut cell = ResourceCell::new();
    assert_eq!(cell.request("bk101"), Demand::Fetch);
    assert_eq!(cell.request("bk102"), Demand::Fetch);
    assert_eq!(cell.len(), 2);
}

#[test]
fn malformed_key_is_refused_without_a_fetch() {
    let mut cell = ResourceCell::new();
    assert_eq!(cell.request(""), Demand::Ready(Err(BookPageError::InvalidId)));
    assert_eq!(cell.len(), 0);
    assert!(!cell.holds(""));
    assert_eq!(cell.peek(""), None);
}

#[test]
fn settled_key_is_written_once() {
    let mut cell = ResourceCell::new();
    assert_eq!(cell.request("bk999"), Demand::Fetch);
    cell.complete("bk999", Lookup::Missing);
    cell.complete("bk999", Lookup::Found);
    assert_eq!(cell.request("bk999"), Demand::Ready(Err(BookPageError::BookNotFound)));
    cell.cancel("bk999");
    assert_eq!(cell.request("bk999"), Demand::Ready(Err(BookPageError::BookNotFound)));
}

#[test]
fn answer_for_a_key_not_in_flight_is_dropped() {
    let mut cell = ResourceCell::new();
    cell.complete("bk101", Lookup::Found);
    assert!(!cell.holds("bk101"));
    assert_eq!(cell.request("bk101"), Demand::Fetch);
}

#[test]
fn cancelled_fetch_leaves_no_value_and_is_fetched_anew() {
    let mut cell = ResourceCell::new();
    assert_eq!(cell.request("bk101"), Demand::Fetch);
    cell.cancel("bk101");
    assert_eq!(cell.peek("bk101"), None);
    assert_eq!(cell.len(), 0);
    cell.complete("bk101", Lookup::Found);
    assert_eq!(cell.peek("bk101"), None);
    assert_eq!(cell.request("bk101"), Demand::Fetch);
}

#[test]
fn book_page_params_read_the_book_slot() {
    let mut p = ResolvedParams::new();
    p.set(s("book_id"), s("bk102"));
    let page = BookPageParams::from_params(&p);
    assert_eq!(page, BookPageParams::new(Some(s("bk102"))));
    assert_eq!(page.book_id(), Some(&s("bk102")));
    assert_eq!(page.key(), "bk102");
}

#[test]
fn book_page_params_without_the_slot_have_the_empty_key() {
    let mut p = ResolvedParams::new();
    p.set(s("shelf"), s("a"));
    let page = BookPageParams::from_params(&p);
    assert_eq!(page, BookPageParams::new(None));
    assert_eq!(page.book_id(), None);
    assert_eq!(page.key(), "");
}

#[test]
fn settle_renders_a_fetched_identifier_and_keeps_a_failure() {
    assert_eq!(settle(Ok(s("bk101"))), RenderState::Resolved(s("<h1>Book bk101</h1>")));
    assert_eq!(
        settle(Err(BookPageError::BookNotFound)),
        RenderState::Failed(BookPageError::BookNotFound)
    );
}

#[test]
fn respond_gives_document_and_status_for_each_state() {
    let policy = ServerErrorPolicy::AsNotFound;
    assert_eq!(respond(&RenderState::Pending, policy), (s("<p>Loading person page...</p>"), 200));
    assert_eq!(
        respond(&RenderState::Resolved(s("<h1>Book bk101</h1>")), policy),
        (s("<h1>Book bk101</h1>"), 200)
    );
    assert_eq!(
        respond(&RenderState::Failed(BookPageError::InvalidId), policy),
        (
            s("<div class=\"error\"><h1>Something went wrong.</h1><ul><li>Invalid book ID.</li></ul></div>"),
            400
        )
    );
    assert_eq!(respond(&RenderState::Failed(BookPageError::BookNotFound), policy).1, 404);
}

#[test]
fn invocation_is_pending_until_the_fetch_is_answered() {
    let mut cell = ResourceCell::new();
    let mut inv = Invocation::start(&params("bk101"));
    assert_eq!(inv.state(), &RenderState::Pending);
    assert_eq!(inv.key(), "bk101");
    assert_eq!(inv.poll(&mut cell), Step::Fetch);
    assert_eq!(inv.state(), &RenderState::Pending);
    assert_eq!(inv.poll(&mut cell), Step::Wait);
    cell.complete("bk101", Lookup::Found);
    assert_eq!(inv.poll(&mut cell), Step::Done);
    assert_eq!(inv.state(), &RenderState::Resolved(s("<h1>Book bk101</h1>")));
}

#[test]
fn invocation_at_its_end_stays_there() {
    let mut cell = ResourceCell::new();
    let mut inv = Invocation::start(&params("bk404"));
    assert_eq!(inv.poll(&mut cell), Step::Fetch);
    cell.complete("bk404", Lookup::Missing);
    assert_eq!(inv.poll(&mut cell), Step::Done);
    let mut other = ResourceCell::new();
    assert_eq!(inv.poll(&mut other), Step::Done);
    assert_eq!(other.len(), 0);
    assert_eq!(inv.state(), &RenderState::Failed(BookPageError::BookNotFound));
}

#[test]
fn two_invocations_of_one_key_share_one_fetch() {
    let mut cell = ResourceCell::new();
    let mut a = Invocation::start(&params("bk101"));
    let mut b = Invocation::start(&params("bk101"));
    assert_eq!(a.poll(&mut cell), Step::Fetch);
    assert_eq!(b.poll(&mut cell), Step::Wait);
    cell.complete("bk101", Lookup::Found);
    assert_eq!(b.poll(&mut cell), Step::Done);
    assert_eq!(a.poll(&mut cell), Step::Done);
    assert_eq!(a.state(), b.state());
}

#[test]
fn empty_identifier_fails_as_invalid_before_any_fetch() {
    let mut cell = ResourceCell::new();
    let mut inv = Invocation::start(&params(""));
    assert_eq!(inv.poll(&mut cell), Step::Done);
    assert_eq!(inv.state(), &RenderState::Failed(BookPageError::InvalidId));
    assert_eq!(cell.len(), 0);

    let catalogue = Catalogue::of(&base_ids());
    let state = render_page(&params(""), &mut cell, &catalogue);
    assert_eq!(state, RenderState::Failed(BookPageError::InvalidId));
    assert_eq!(cell.len(), 0);
    assert_eq!(respond(&state, ServerErrorPolicy::AsNotFound).1, 400);
    let absent = render_page(&BookPageParams::new(None), &mut cell, &catalogue);
    assert_eq!(absent, RenderState::Failed(BookPageError::InvalidId));
}

#[test]
fn unknown_identifier_fails_as_not_found_with_404() {
    let mut cell = ResourceCell::new();
    let catalogue = Catalogue::of(&base_ids());
    let state = render_page(&params("bk999"), &mut cell, &catalogue);
    assert_eq!(state, RenderState::Failed(BookPageError::BookNotFound));
    assert_eq!(respond(&state, ServerErrorPolicy::AsNotFound).1, 404);
    assert_eq!(respond(&state, ServerErrorPolicy::AsInternalError).1, 404);
    assert_eq!(cell.peek("bk999"), Some(Slot::Ready(Err(BookPageError::BookNotFound))));
}

#[test]
fn failed_fetch_is_a_server_error_with_a_detail() {
    let mut catalogue = Catalogue::new();
    catalogue.set(s("bk101"), Lookup::Failed(s("backend timed out")));
    catalogue.set(s("bk102"), Lookup::Failed(String::new()));
    let mut cell = ResourceCell::new();
    let state = render_page(&params("bk101"), &mut cell, &catalogue);
    assert_eq!(state, RenderState::Failed(BookPageError::ServerError(s("backend timed out"))));
    assert_eq!(respond(&state, ServerErrorPolicy::AsNotFound).1, 404);
    assert_eq!(respond(&state, ServerErrorPolicy::AsInternalError).1, 500);
    assert_eq!(
        respond(&state, ServerErrorPolicy::AsNotFound).0,
        "<div class=\"error\"><h1>Something went wrong.</h1><ul><li>Server error: backend timed out.</li></ul></div>"
    );
    let silent = render_page(&params("bk102"), &mut cell, &catalogue);
    assert_eq!(silent, RenderState::Failed(BookPageError::ServerError(s("unknown failure"))));
}

#[test]
fn known_identifier_resolves_to_its_page() {
    let mut cell = ResourceCell::new();
    let catalogue = Catalogue::of(&base_ids());
    let state = render_page(&params("bk103"), &mut cell, &catalogue);
    assert_eq!(state, RenderState::Resolved(s("<h1>Book bk103</h1>")));
    assert_eq!(respond(&state, ServerErrorPolicy::AsNotFound), (s("<h1>Book bk103</h1>"), 200));
    assert_eq!(cell.len(), 1);
}

#[test]
fn settled_key_is_not_looked_up_again() {
    let mut cell = ResourceCell::new();
    let first = Catalogue::of(&base_ids());
    assert_eq!(
        render_page(&params("bk101"), &mut cell, &first),
        RenderState::Resolved(s("<h1>Book bk101</h1>"))
    );
    let emptied = Catalogue::new();
    assert_eq!(
        render_page(&params("bk101"), &mut cell, &emptied),
        RenderState::Resolved(s("<h1>Book bk101</h1>"))
    );
}

#[test]
fn key_in_flight_is_settled_by_a_full_render() {
    let mut cell = ResourceCell::new();
    assert_eq!(cell.request("bk101"), Demand::Fetch);
    let catalogue = Catalogue::of(&base_ids());
    assert_eq!(
        render_page(&params("bk101"), &mut cell, &catalogue),
        RenderState::Resolved(s("<h1>Book bk101</h1>"))
    );
    assert!(!cell.is_in_flight("bk101"));
}

#[test]
fn limiter_refuses_a_limit_of_zero() {
    assert!(Limiter::new(0).is_none());
    assert!(Throttle::new(0).is_none());
}

#[test]
fn limiter_admits_up_to_its_limit() {
    let mut l = Limiter::new(2).expect("a limiter");
    assert_eq!(l.limit(), 2);
    assert_eq!(l.in_flight(), 0);
    assert!(l.try_acquire());
    assert!(l.try_acquire());
    assert!(!l.try_acquire());
    assert_eq!(l.in_flight(), 2);
    l.release();
    assert_eq!(l.in_flight(), 1);
    assert!(l.try_acquire());
    l.release();
    l.release();
    l.release();
    assert_eq!(l.in_flight(), 0);
}

#[test]
fn throttle_holds_fetches_at_the_limit() {
    let mut throttle = Throttle::new(2).expect("a throttle");
    assert_eq!(throttle.limit(), 2);
    assert_eq!(throttle.ask("bk101"), Admission::Fetch);
    assert_eq!(throttle.ask("bk102"), Admission::Fetch);
    assert_eq!(throttle.in_flight(), 2);
    assert_eq!(throttle.ask("bk103"), Admission::Busy);
    assert!(!throttle.cell().holds("bk103"));
    assert_eq!(throttle.ask("bk101"), Admission::Wait);
    assert_eq!(throttle.ask(""), Admission::Ready(Err(BookPageError::InvalidId)));
    assert_eq!(throttle.in_flight(), 2);
    throttle.settle("bk101", Lookup::Found);
    assert_eq!(throttle.in_flight(), 1);
    assert_eq!(throttle.ask("bk101"), Admission::Ready(Ok(s("bk101"))));
    assert_eq!(throttle.ask("bk103"), Admission::Fetch);
    assert_eq!(throttle.in_flight(), 2);
    throttle.abandon("bk102");
    assert_eq!(throttle.in_flight(), 1);
    assert!(!throttle.cell().holds("bk102"));
    throttle.settle("bk102", Lookup::Found);
    assert_eq!(throttle.in_flight(), 1);
    throttle.abandon("bk101");
    assert_eq!(throttle.in_flight(), 1);
    assert_eq!(throttle.cell().len(), 2);
}

#[test]
fn throttle_never_has_more_in_flight_than_its_limit() {
    let mut throttle = Throttle::new(3).expect("a throttle");
    let keys = cycle_to(&base_ids(), 40);
    let mut fetches = 0;
    for key in &keys {
        if throttle.ask(key) == Admission::Fetch {
            fetches += 1;
        }
        assert!(throttle.in_flight() <= 3);
    }
    assert_eq!(fetches, 3);
}

#[test]
fn throttle_gives_up_its_cell() {
    let mut throttle = Throttle::new(1).expect("a throttle");
    assert_eq!(throttle.ask("bk101"), Admission::Fetch);
    throttle.settle("bk101", Lookup::Missing);
    let mut cell = throttle.into_cell();
    assert_eq!(cell.request("bk101"), Demand::Ready(Err(BookPageError::BookNotFound)));
}

#[test]
fn prefetch_refuses_a_limit_of_zero() {
    assert!(Prefetch::new(vec![s("a")], 0).is_none());
}

#[test]
fn prefetch_of_nothing_is_finished_at_once() {
    let mut phase = Prefetch::new(Vec::new(), 3).expect("a phase");
    assert_eq!(phase.advance(), Advance::Finished);
    assert_eq!(phase.into_cell().len(), 0);
}

#[test]
fn prefetch_hands_out_each_key_once_under_the_limit() {
    let keys = vec![s("a"), s("b"), s("a"), s(""), s("c")];
    let mut phase = Prefetch::new(keys, 2).expect("a phase");
    assert_eq!(phase.advance(), Advance::Fetch(s("a")));
    assert_eq!(phase.advance(), Advance::Fetch(s("b")));
    assert_eq!(phase.in_flight(), 2);
    assert_eq!(phase.advance(), Advance::Await);
    assert_eq!(phase.advance(), Advance::Await);
    phase.answered("a", Lookup::Found);
    assert_eq!(phase.in_flight(), 1);
    assert_eq!(phase.advance(), Advance::Fetch(s("c")));
    assert_eq!(phase.advance(), Advance::Await);
    phase.answered("zzz", Lookup::Found);
    assert_eq!(phase.in_flight(), 2);
    phase.answered("b", Lookup::Missing);
    phase.answered("c", Lookup::Failed(s("down")));
    assert_eq!(phase.in_flight(), 0);
    assert_eq!(phase.advance(), Advance::Finished);
    assert_eq!(phase.advance(), Advance::Finished);
    let mut cell = phase.into_cell();
    assert_eq!(cell.len(), 3);
    assert_eq!(cell.request("a"), Demand::Ready(Ok(s("a"))));
    assert_eq!(cell.request("b"), Demand::Ready(Err(BookPageError::BookNotFound)));
    assert_eq!(cell.request("c"), Demand::Ready(Err(BookPageError::ServerError(s("down")))));
}

#[test]
fn prefetch_of_a_cycled_domain_fetches_the_base_once() {
    let mut phase = Prefetch::new(cycle_to(&base_ids(), 600), 4).expect("a phase");
    let catalogue = Catalogue::of(&base_ids());
    let mut pending: Vec<String> = Vec::new();
    let mut fetched = 0;
    loop {
        match phase.advance() {
            Advance::Fetch(key) => {
                fetched += 1;
                pending.push(key);
                assert!(pending.len() <= 4);
            },
            Advance::Await => {
                let key = pending.remove(0);
                phase.answered(&key, catalogue.lookup(&key));
            },
            Advance::Finished => break,
        }
    }
    assert_eq!(fetched, 12);
    assert!(pending.is_empty());
    assert_eq!(phase.into_cell().len(), 12);
}
