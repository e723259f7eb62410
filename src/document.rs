//! Queries on HTML documents, made through the `scraper` crate, and the
//! extraction of result links and headings from a document's text.

use vstd::prelude::*;
use scraper::{Html, Selector};
use crate::extract::{ranked_links, all_headings, result_links, headings_from_matches};

verus! {

/// The value of attribute `name` on each element of the parsed document
/// `body` that `selector` matches, in document order.
pub uninterp spec fn selected_attrs(body: Seq<char>, selector: Seq<char>, name: Seq<char>) -> Seq<Option<Seq<char>>>;

/// The descendant text nodes of each element of the parsed document `body`
/// that `selector` matches, in document order.
pub uninterp spec fn selected_texts(body: Seq<char>, selector: Seq<char>) -> Seq<Seq<Seq<char>>>;

/// Relies on `scraper::Html::parse_document`, `scraper::Selector::parse`,
/// `scraper::Html::select` and `scraper::node::Element::attr`: the result
/// depends on the three texts alone. A selector that does not parse matches
/// nothing.
#[verifier::external_body]
fn select_attrs(body: &str, selector: &str, name: &str) -> (r: Vec<Option<String>>)
    ensures
        r.deep_view() == selected_attrs(body@, selector@, name@),
{
    let doc = Html::parse_document(body);
    match Selector::parse(selector) {
        Ok(sel) => doc.select(&sel).map(|e| e.value().attr(name).map(|a| a.to_string())).collect(),
        Err(_) => Vec::new(),
    }
}

/// Relies on `scraper::Html::parse_document`, `scraper::Selector::parse`,
/// `scraper::Html::select` and `scraper::ElementRef::text`: the result
/// depends on the two texts alone. A selector that does not parse matches
/// nothing.
#[verifier::external_body]
fn select_texts(body: &str, selector: &str) -> (r: Vec<Vec<String>>)
    ensures
        r.deep_view() == selected_texts(body@, selector@),
{
    let doc = Html::parse_document(body);
    match Selector::parse(selector) {
        Ok(sel) => doc.select(&sel).map(|e| e.text().map(|t| t.to_string()).collect()).collect(),
        Err(_) => Vec::new(),
    }
}

/// The `href` values of the anchors inside the organic result blocks of a
/// results page, in document order.
pub open spec fn result_hrefs(body: Seq<char>) -> Seq<Option<Seq<char>>> {
    selected_attrs(body, "div.g a"@, "href"@)
}

/// The heading tag vocabulary: `h1` to `h6`.
pub open spec fn is_heading_tag(t: Seq<char>) -> bool {
    t.len() == 2 && t[0] == 'h' && '1' <= t[1] && t[1] <= '6'
}

/// Every tag of `tags` is a heading tag.
pub open spec fn heading_tags(tags: Seq<Seq<char>>) -> bool {
    forall|k: int| 0 <= k < tags.len() ==> is_heading_tag(#[trigger] tags[k])
}

/// What each tag of `tags` matches in the document `body`.
pub open spec fn matches_per_tag(body: Seq<char>, tags: Seq<Seq<char>>) -> Seq<Seq<Seq<Seq<char>>>> {
    tags.map_values(|t: Seq<char>| selected_texts(body, t))
}

/// The heading entries of the document `body` for `tags`.
pub open spec fn page_headings(body: Seq<char>, tags: Seq<Seq<char>>) -> Seq<(Seq<char>, Seq<char>)> {
    all_headings(tags, matches_per_tag(body, tags))
}

/// The first `cap` absolute links among the anchors of the organic result
/// blocks of the results page `body`, in document order.
pub fn extract_result_links(body: &str, cap: usize) -> (r: Vec<String>)
    ensures
        r.deep_view() == ranked_links(result_hrefs(body@), cap as nat),
{
    let hrefs = select_attrs(body, "div.g a", "href");
    result_links(&hrefs, cap)
}

/// The headings of the page `body` for each tag of `tags`, tag by tag, each
/// tag's in document order.
pub fn extract_headings(body: &str, tags: &Vec<String>) -> (r: Vec<(String, String)>)
    requires
        heading_tags(tags.deep_view()),
    ensures
        r.deep_view() == page_headings(body@, tags.deep_view()),
{
    let ghost t = tags.deep_view();
    let mut per_tag: Vec<Vec<Vec<String>>> = Vec::new();
    let mut k: usize = 0;
    while k < tags.len()
        invariant
            t == tags.deep_view(),
            k <= tags.len(),
            per_tag.deep_view() == matches_per_tag(body@, t.take(k as int)),
        decreases tags.len() - k,
    {
        assert(t[k as int] == tags@[k as int]@);
        let ghost prev = per_tag.deep_view();
        let found = select_texts(body, tags[k].as_str());
        assert(found.deep_view() == selected_texts(body@, t[k as int]));
        per_tag.push(found);
        assert(per_tag.deep_view() =~= prev.push(found.deep_view()));
        k = k + 1;
        assert(per_tag.deep_view() =~= matches_per_tag(body@, t.take(k as int)));
    }
    assert(t.take(tags.len() as int) =~= t);
    headings_from_matches(tags, &per_tag)
}

} // verus!
