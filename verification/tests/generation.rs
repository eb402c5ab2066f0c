use book_ssg::candidates::{candidates, count_candidates};
use book_ssg::catalogue::Catalogue;
use book_ssg::dispatch::{dispatch, handle, Dispatch, Response, Source};
use book_ssg::domain::{base_ids, cycle_to, ParameterDomain};
use book_ssg::error::{BookPageError, ServerErrorPolicy};
use book_ssg::generate::{generate, generate_one, GenerationFailure};
use book_ssg::resource::{Lookup, ResourceCell};
use book_ssg::route::{ResolvedParams, RouteTemplate};
use book_ssg::store::{Artifact, ArtifactStore};

fn s(text: &str) -> String {
    text.to_string()
}

fn book_candidates(ids: Vec<String>) -> Vec<ResolvedParams> {
    let mut domain = ParameterDomain::new();
    domain.set(s("book_id"), ids);
    candidates(&RouteTemplate::books(), &domain).expect("candidates")
}

fn generated_books() -> ArtifactStore {
    let mut store = ArtifactStore::new();
    generate(
        &RouteTemplate::books(),
        &book_candidates(base_ids()),
        &Catalogue::of(&base_ids()),
        &mut store,
    );
    store
}

#[test]
fn store_keeps_one_document_for_a_path() {
    let mut store = ArtifactStore::new();
    assert_eq!(store.len(), 0);
    assert!(!store.contains("/books/bk101"));
    assert_eq!(store.read("/books/bk101"), None);
    store.write(Artifact { path: s("/books/bk101"), document: s("first") });
    store.write(Artifact { path: s("/books/bk101"), document: s("second") });
    assert_eq!(store.len(), 1);
    assert!(store.contains("/books/bk101"));
    assert_eq!(store.read("/books/bk101"), Some(&s("second")));
}

#[test]
fn one_slot_gives_its_values_in_order() {
    let cands = book_candidates(vec![s("b"), s("a"), s("b")]);
    assert_eq!(cands.len(), 3);
    assert_eq!(cands[0].get("book_id"), Some(&s("b")));
    assert_eq!(cands[1].get("book_id"), Some(&s("a")));
    assert_eq!(cands[2].get("book_id"), Some(&s("b")));
}

#[test]
fn two_slots_give_every_pair_with_the_last_slot_changing_fastest() {
    let t = RouteTemplate::parse("/shelves/:shelf/books/:book_id").expect("a template");
    let mut domain = ParameterDomain::new();
    domain.set(s("shelf"), vec![s("n"), s("s")]);
    domain.set(s("book_id"), vec![s("1"), s("2"), s("3")]);
    assert_eq!(count_candidates(&t, &domain), Some(6));
    let cands = candidates(&t, &domain).expect("candidates");
    let pairs: Vec<(String, String)> = cands
        .iter()
        .map(|c| (c.get("shelf").unwrap().clone(), c.get("book_id").unwrap().clone()))
        .collect();
    assert_eq!(
        pairs,
        vec![
            (s("n"), s("1")),
            (s("n"), s("2")),
            (s("n"), s("3")),
            (s("s"), s("1")),
            (s("s"), s("2")),
            (s("s"), s("3")),
        ]
    );
}

#[test]
fn slot_without_values_gives_no_candidate() {
    let t = RouteTemplate::parse("/shelves/:shelf/books/:book_id").expect("a template");
    let mut domain = ParameterDomain::new();
    domain.set(s("book_id"), vec![s("1"), s("2")]);
    assert_eq!(count_candidates(&t, &domain), Some(0));
    assert_eq!(candidates(&t, &domain).expect("candidates").len(), 0);
    domain.set(s("shelf"), Vec::new());
    assert_eq!(count_candidates(&t, &domain), Some(0));
}

#[test]
fn template_without_slots_has_one_candidate() {
    let t = RouteTemplate::parse("/about").expect("a template");
    let domain = ParameterDomain::new();
    assert_eq!(count_candidates(&t, &domain), Some(1));
    let cands = candidates(&t, &domain).expect("candidates");
    assert_eq!(cands.len(), 1);
    assert_eq!(cands[0].get("book_id"), None);
}

#[test]
fn generate_one_gives_the_page_and_its_path() {
    let mut cell = ResourceCell::new();
    let catalogue = Catalogue::of(&base_ids());
    let mut p = ResolvedParams::new();
    p.set(s("book_id"), s("bk104"));
    assert_eq!(
        generate_one(&RouteTemplate::books(), &p, &mut cell, &catalogue),
        Ok(Artifact { path: s("/books/bk104"), document: s("<h1>Book bk104</h1>") })
    );
    assert_eq!(cell.len(), 1);
}

#[test]
fn generate_one_fails_for_each_kind_of_failure() {
    let t = RouteTemplate::books();
    let mut catalogue = Catalogue::of(&base_ids());
    catalogue.set(s("bk500"), Lookup::Failed(s("down")));
    let mut cell = ResourceCell::new();
    let mut p = ResolvedParams::new();
    assert_eq!(generate_one(&t, &p, &mut cell, &catalogue), Err(BookPageError::InvalidId));
    p.set(s("book_id"), s(""));
    assert_eq!(generate_one(&t, &p, &mut cell, &catalogue), Err(BookPageError::InvalidId));
    assert_eq!(cell.len(), 0);
    p.set(s("book_id"), s("bk999"));
    assert_eq!(generate_one(&t, &p, &mut cell, &catalogue), Err(BookPageError::BookNotFound));
    p.set(s("book_id"), s("bk500"));
    assert_eq!(
        generate_one(&t, &p, &mut cell, &catalogue),
        Err(BookPageError::ServerError(s("down")))
    );
}

#[test]
fn twelve_books_give_twelve_artifacts() {
    let mut store = ArtifactStore::new();
    let report = generate(
        &RouteTemplate::books(),
        &book_candidates(base_ids()),
        &Catalogue::of(&base_ids()),
        &mut store,
    );
    assert_eq!(report.written, 12);
    assert_eq!(report.fetched, 12);
    assert!(report.failures.is_empty());
    assert_eq!(store.len(), 12);
    for id in base_ids() {
        let path = format!("/books/{id}");
        let doc = store.read(&path).expect("an artifact");
        assert!(doc.contains(id.as_str()));
        assert_eq!(doc, &format!("<h1>Book {id}</h1>"));
    }
    assert_eq!(store.read("/books/bk101"), Some(&s("<h1>Book bk101</h1>")));
    assert_eq!(store.read("/books/bk112"), Some(&s("<h1>Book bk112</h1>")));
    assert!(!store.contains("/books/bk113"));
}

#[test]
fn generating_again_leaves_every_artifact_as_it_was() {
    let t = RouteTemplate::books();
    let cands = book_candidates(base_ids());
    let catalogue = Catalogue::of(&base_ids());
    let mut store = ArtifactStore::new();
    generate(&t, &cands, &catalogue, &mut store);
    let before: Vec<Vec<u8>> = base_ids()
        .iter()
        .map(|id| store.read(&format!("/books/{id}")).unwrap().clone().into_bytes())
        .collect();
    let report = generate(&t, &cands, &catalogue, &mut store);
    let after: Vec<Vec<u8>> = base_ids()
        .iter()
        .map(|id| store.read(&format!("/books/{id}")).unwrap().clone().into_bytes())
        .collect();
    assert_eq!(before, after);
    assert_eq!(store.len(), 12);
    assert_eq!(report.written, 12);
}

#[test]
fn two_passes_from_empty_stores_agree() {
    let a = generated_books();
    let b = generated_books();
    assert_eq!(a.len(), b.len());
    for id in base_ids() {
        let path = format!("/books/{id}");
        assert_eq!(a.read(&path), b.read(&path));
    }
}

#[test]
fn repeated_values_write_one_artifact_and_fetch_once() {
    let mut store = ArtifactStore::new();
    let ids = cycle_to(&base_ids(), 60);
    let report = generate(
        &RouteTemplate::books(),
        &book_candidates(ids),
        &Catalogue::of(&base_ids()),
        &mut store,
    );
    assert_eq!(report.written, 60);
    assert_eq!(report.fetched, 12);
    assert!(report.failures.is_empty());
    assert_eq!(store.len(), 12);
}

#[test]
fn failures_are_skipped_and_reported_in_order() {
    let mut catalogue = Catalogue::of(&base_ids());
    catalogue.set(s("bk500"), Lookup::Failed(s("down")));
    let ids = vec![s("bk101"), s(""), s("bk999"), s("bk102"), s("bk500"), s("bk999")];
    let mut store = ArtifactStore::new();
    let report = generate(&RouteTemplate::books(), &book_candidates(ids), &catalogue, &mut store);
    assert_eq!(report.written, 2);
    assert_eq!(report.fetched, 4);
    assert_eq!(
        report.failures,
        vec![
            GenerationFailure { index: 1, error: BookPageError::InvalidId },
            GenerationFailure { index: 2, error: BookPageError::BookNotFound },
            GenerationFailure { index: 4, error: BookPageError::ServerError(s("down")) },
            GenerationFailure { index: 5, error: BookPageError::BookNotFound },
        ]
    );
    assert_eq!(store.len(), 2);
    assert!(store.contains("/books/bk101"));
    assert!(store.contains("/books/bk102"));
    assert!(!store.contains("/books/"));
    assert!(!store.contains("/books/bk999"));
}

#[test]
fn generation_overwrites_what_a_path_held() {
    let mut store = ArtifactStore::new();
    store.write(Artifact { path: s("/books/bk101"), document: s("stale") });
    store.write(Artifact { path: s("/index"), document: s("home") });
    generate(
        &RouteTemplate::books(),
        &book_candidates(vec![s("bk101")]),
        &Catalogue::of(&base_ids()),
        &mut store,
    );
    assert_eq!(store.read("/books/bk101"), Some(&s("<h1>Book bk101</h1>")));
    assert_eq!(store.read("/index"), Some(&s("home")));
    assert_eq!(store.len(), 2);
}

#[test]
fn no_artifact_is_the_loading_view() {
    let store = generated_books();
    for id in base_ids() {
        assert_ne!(store.read(&format!("/books/{id}")).unwrap(), "<p>Loading person page...</p>");
    }
}

#[test]
fn candidate_without_a_value_for_a_slot_is_skipped_as_invalid() {
    let t = RouteTemplate::parse("/shelves/:shelf/books/:book_id").expect("a template");
    let mut only_book = ResolvedParams::new();
    only_book.set(s("book_id"), s("bk101"));
    let mut store = ArtifactStore::new();
    let report = generate(&t, &vec![only_book], &Catalogue::of(&base_ids()), &mut store);
    assert_eq!(report.written, 0);
    assert_eq!(report.fetched, 0);
    assert_eq!(
        report.failures,
        vec![GenerationFailure { index: 0, error: BookPageError::InvalidId }]
    );
    assert_eq!(store.len(), 0);
}

#[test]
fn dispatch_serves_an_artifact_where_one_exists() {
    let store = generated_books();
    let routes = vec![RouteTemplate::books()];
    match dispatch(&routes, &store, "/books/bk101") {
        Dispatch::Serve(doc) => assert_eq!(doc, "<h1>Book bk101</h1>"),
        _ => panic!("expected the artifact"),
    }
}

#[test]
fn dispatch_renders_where_no_artifact_exists() {
    let store = generated_books();
    let routes = vec![RouteTemplate::books()];
    match dispatch(&routes, &store, "/books/bk999") {
        Dispatch::Render { route, params } => {
            assert_eq!(route, 0);
            assert_eq!(params.get("book_id"), Some(&s("bk999")));
        },
        _ => panic!("expected a render"),
    }
}

#[test]
fn dispatch_finds_nothing_for_an_unmatched_path() {
    let mut store = generated_books();
    store.write(Artifact { path: s("/elsewhere"), document: s("kept") });
    let routes = vec![RouteTemplate::books()];
    assert!(matches!(dispatch(&routes, &store, "/elsewhere"), Dispatch::NotFound));
    assert!(matches!(dispatch(&routes, &store, "/books"), Dispatch::NotFound));
    assert!(matches!(dispatch(&Vec::new(), &store, "/books/bk101"), Dispatch::NotFound));
}

#[test]
fn dispatch_takes_the_first_template_that_matches() {
    let store = ArtifactStore::new();
    let routes = vec![
        RouteTemplate::parse("/about").expect("a template"),
        RouteTemplate::parse("/books/:book_id").expect("a template"),
        RouteTemplate::parse("/:section/:book_id").expect("a template"),
    ];
    match dispatch(&routes, &store, "/books/bk101") {
        Dispatch::Render { route, params } => {
            assert_eq!(route, 1);
            assert_eq!(params.get("section"), None);
        },
        _ => panic!("expected a render"),
    }
    match dispatch(&routes, &store, "/shelf/bk101") {
        Dispatch::Render { route, params } => {
            assert_eq!(route, 2);
            assert_eq!(params.get("section"), Some(&s("shelf")));
        },
        _ => panic!("expected a render"),
    }
}

#[test]
fn request_with_an_artifact_never_asks_the_cell() {
    let store = generated_books();
    let routes = vec![RouteTemplate::books()];
    let catalogue = Catalogue::new();
    let mut cell = ResourceCell::new();
    let r = handle(
        &routes,
        &store,
        &mut cell,
        &catalogue,
        ServerErrorPolicy::AsNotFound,
        "/books/bk106",
    );
    assert_eq!(
        r,
        Response { status: 200, body: s("<h1>Book bk106</h1>"), source: Source::Artifact }
    );
    assert_eq!(cell.len(), 0);
}

#[test]
fn request_without_an_artifact_asks_the_cell() {
    let store = ArtifactStore::new();
    let routes = vec![RouteTemplate::books()];
    let catalogue = Catalogue::of(&base_ids());
    let mut cell = ResourceCell::new();
    let r = handle(
        &routes,
        &store,
        &mut cell,
        &catalogue,
        ServerErrorPolicy::AsNotFound,
        "/books/bk106",
    );
    assert_eq!(
        r,
        Response { status: 200, body: s("<h1>Book bk106</h1>"), source: Source::Rendered }
    );
    assert!(cell.holds("bk106"));
    assert_eq!(cell.len(), 1);
}

#[test]
fn unknown_book_falls_back_to_a_render_that_is_not_found() {
    let store = generated_books();
    let routes = vec![RouteTemplate::books()];
    let catalogue = Catalogue::of(&base_ids());
    let mut cell = ResourceCell::new();
    let r = handle(
        &routes,
        &store,
        &mut cell,
        &catalogue,
        ServerErrorPolicy::AsNotFound,
        "/books/bk999",
    );
    assert_eq!(r.status, 404);
    assert_eq!(r.source, Source::Fallback);
    assert_eq!(
        r.body,
        "<div class=\"error\"><h1>Something went wrong.</h1><ul><li>Book not found.</li></ul></div>"
    );
    assert!(cell.holds("bk999"));
}

#[test]
fn empty_slot_is_an_invalid_identifier_with_400() {
    let store = generated_books();
    let routes = vec![RouteTemplate::books()];
    let catalogue = Catalogue::of(&base_ids());
    let mut cell = ResourceCell::new();
    let r = handle(&routes, &store, &mut cell, &catalogue, ServerErrorPolicy::AsNotFound, "/books/");
    assert_eq!(r.status, 400);
    assert_eq!(r.source, Source::Fallback);
    assert_eq!(
        r.body,
        "<div class=\"error\"><h1>Something went wrong.</h1><ul><li>Invalid book ID.</li></ul></div>"
    );
    assert_eq!(cell.len(), 0);
}

#[test]
fn unmatched_path_is_refused_with_an_empty_body() {
    let store = generated_books();
    let routes = vec![RouteTemplate::books()];
    let catalogue = Catalogue::of(&base_ids());
    let mut cell = ResourceCell::new();
    let r = handle(&routes, &store, &mut cell, &catalogue, ServerErrorPolicy::AsNotFound, "/nope");
    assert_eq!(r, Response { status: 404, body: String::new(), source: Source::NoRoute });
    assert_eq!(cell.len(), 0);
}

#[test]
fn failed_source_is_answered_as_the_policy_says() {
    let store = ArtifactStore::new();
    let routes = vec![RouteTemplate::books()];
    let mut catalogue = Catalogue::new();
    catalogue.set(s("bk101"), Lookup::Failed(s("down")));
    let mut as_missing = ResourceCell::new();
    let r = handle(
        &routes,
        &store,
        &mut as_missing,
        &catalogue,
        ServerErrorPolicy::AsNotFound,
        "/books/bk101",
    );
    assert_eq!(r.status, 404);
    let mut as_error = ResourceCell::new();
    let r = handle(
        &routes,
        &store,
        &mut as_error,
        &catalogue,
        ServerErrorPolicy::AsInternalError,
        "/books/bk101",
    );
    assert_eq!(r.status, 500);
    assert_eq!(r.source, Source::Fallback);
    assert_eq!(
        r.body,
        "<div class=\"error\"><h1>Something went wrong.</h1><ul><li>Server error: down.</li></ul></div>"
    );
}

#[test]
fn generated_pages_are_what_requests_are_served() {
    let store = generated_books();
    let routes = vec![RouteTemplate::books()];
    let catalogue = Catalogue::new();
    let mut cell = ResourceCell::new();
    for id in base_ids() {
        let r = handle(
            &routes,
            &store,
            &mut cell,
            &catalogue,
            ServerErrorPolicy::AsNotFound,
            &format!("/books/{id}"),
        );
        assert_eq!(r.status, 200);
        assert_eq!(r.source, Source::Artifact);
        assert_eq!(r.body, format!("<h1>Book {id}</h1>"));
    }
    assert_eq!(cell.len(), 0);
}

#[test]
fn book_domain_generates_the_twelve_pages() {
    let domain = ParameterDomain::books();
    assert_eq!(domain.values("book_id").map(|v| v.len()), Some(4_000_000));
    assert_eq!(count_candidates(&RouteTemplate::books(), &domain), Some(4_000_000));
}
