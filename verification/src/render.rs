//! The documents: the page of a book, the view shown while a render is
//! pending, and the view shown for a failure.

use vstd::prelude::*;
use vstd::string::*;
use crate::error::{BookPageError, Failure};

verus! {

/// The page of the book `id`.
pub open spec fn page_text(id: Seq<char>) -> Seq<char> {
    "<h1>Book "@ + id + "</h1>"@
}

/// The view shown while a render is pending.
pub open spec fn loading_text() -> Seq<char> {
    "<p>Loading person page...</p>"@
}

/// The view shown for the failure `e`.
pub open spec fn fallback_text(e: Failure) -> Seq<char> {
    "<div class=\"error\"><h1>Something went wrong.</h1><ul><li>"@ + e.message()
        + "</li></ul></div>"@
}

/// Renders the page of the book `id`. The document depends on `id` alone.
pub fn render(id: &str) -> (doc: String)
    ensures
        doc@ == page_text(id@),
{
    let mut doc = String::from_str("<h1>Book ");
    doc.append(id);
    doc.append("</h1>");
    doc
}

/// The view shown while a render is pending.
pub fn loading_view() -> (doc: String)
    ensures
        doc@ == loading_text(),
{
    String::from_str("<p>Loading person page...</p>")
}

/// The view shown for the failure `e`: a notice that names the failure.
pub fn fallback_view(e: &BookPageError) -> (doc: String)
    ensures
        doc@ == fallback_text(e@),
{
    let mut doc = String::from_str("<div class=\"error\"><h1>Something went wrong.</h1><ul><li>");
    let message = e.message();
    doc.append(message.as_str());
    doc.append("</li></ul></div>");
    doc
}

/// A page holds its book's identifier, letter for letter, behind its first
/// nine characters.
pub proof fn lemma_page_holds_id(id: Seq<char>)
    ensures
        page_text(id).len() == id.len() + 14,
        page_text(id).subrange(9, 9 + id.len() as int) == id,
{
    reveal_strlit("<h1>Book ");
    reveal_strlit("</h1>");
    assert(page_text(id).subrange(9, 9 + id.len() as int) =~= id);
}

/// Different books have different pages.
pub proof fn lemma_page_tells_id(a: Seq<char>, b: Seq<char>)
    requires
        page_text(a) == page_text(b),
    ensures
        a == b,
{
    lemma_page_holds_id(a);
    lemma_page_holds_id(b);
}

/// No page is the view of a pending render, and none is the view of a failure.
pub proof fn lemma_page_is_no_placeholder(id: Seq<char>, e: Failure)
    ensures
        page_text(id) != loading_text(),
        page_text(id) != fallback_text(e),
{
    reveal_strlit("<h1>Book ");
    reveal_strlit("</h1>");
    reveal_strlit("<p>Loading person page...</p>");
    reveal_strlit("<div class=\"error\"><h1>Something went wrong.</h1><ul><li>");
    assert(page_text(id)[1] == 'h');
    assert(loading_text()[1] == 'p');
    assert(fallback_text(e)[1] == 'd');
}

} // verus!
