//! The report of one search: the normalized query and the ranked result
//! pages, each enriched with the headings of its document.

use vstd::prelude::*;
use crate::text::{spaces_to_plus, plus_for_spaces};
use crate::extract::{ranked_links, qualifying, min, result_links, RESULT_CAP, lemma_cap_reached, lemma_cap_not_reached};
use crate::document::{result_hrefs, heading_tags, page_headings, extract_result_links, extract_headings};

verus! {

/// One discovered search result.
pub struct Page {
    /// Absolute address of the result.
    pub url: String,
    /// 1-based rank among the results.
    pub position: usize,
    /// (tag, text) pairs extracted from the page.
    pub headings: Vec<(String, String)>,
}

/// A search report: the query and its result pages in rank order.
pub struct SERP {
    /// The search phrase with each space replaced by `+`.
    pub query: String,
    pub pages: Vec<Page>,
}

/// The search address for a normalized query and locale.
pub open spec fn search_address(language: Seq<char>, country: Seq<char>, query: Seq<char>) -> Seq<char> {
    "https://www.google.com/search?hl="@ + language + "&gl="@ + country + "&q="@ + query
}

/// A status code in the success class 200..=299.
pub open spec fn is_success(status: u16) -> bool {
    200 <= status && status <= 299
}

/// `new` is `old` followed by one fresh page for each link, ranked from 1.
pub open spec fn pages_added(old: Seq<Page>, new: Seq<Page>, links: Seq<Seq<char>>) -> bool {
    &&& new.len() == old.len() + links.len()
    &&& forall|k: int| 0 <= k < old.len() ==> new[k] == old[k]
    &&& forall|k: int| 0 <= k < links.len() ==> {
        &&& (#[trigger] new[old.len() + k]).url@ == links[k]
        &&& new[old.len() + k].position == k + 1
        &&& new[old.len() + k].headings@.len() == 0
    }
}

/// `new` is `old` with the same address and rank, and `added` after its headings.
pub open spec fn page_extended(old: Page, new: Page, added: Seq<(Seq<char>, Seq<char>)>) -> bool {
    &&& new.url@ == old.url@
    &&& new.position == old.position
    &&& new.headings.deep_view() == old.headings.deep_view() + added
}

impl SERP {
    /// An empty report for `query`, with each space of it replaced by `+`.
    pub fn new(query: &str) -> (r: SERP)
        ensures
            r.query@ == spaces_to_plus(query@),
            r.pages@.len() == 0,
    {
        SERP { query: plus_for_spaces(query), pages: Vec::new() }
    }

    /// The address of the results page for this query in the given locale.
    pub fn search_url(&self, language: &str, country: &str) -> (r: String)
        ensures
            r@ == search_address(language@, country@, self.query@),
    {
        let mut r = String::from_str("https://www.google.com/search?hl=");
        r.append(language);
        r.append("&gl=");
        r.append(country);
        r.append("&q=");
        r.append(self.query.as_str());
        r
    }

    /// Appends one page for each of `links`, ranked from 1, with no headings.
    fn push_links(&mut self, links: Vec<String>)
        ensures
            pages_added(old(self).pages@, final(self).pages@, links.deep_view()),
            final(self).query == old(self).query,
    {
        let ghost start = self.pages@;
        let mut k: usize = 0;
        while k < links.len()
            invariant
                start == old(self).pages@,
                self.query == old(self).query,
                k <= links.len(),
                pages_added(start, self.pages@, links.deep_view().take(k as int)),
            decreases links.len() - k,
        {
            assert(links.deep_view()[k as int] == links@[k as int]@);
            self.pages.push(Page { url: links[k].clone(), position: k + 1, headings: Vec::new() });
            k = k + 1;
            assert(pages_added(start, self.pages@, links.deep_view().take(k as int))) by {
                let lk = links.deep_view().take(k as int);
                assert forall|j: int| 0 <= j < lk.len() implies {
                    &&& (#[trigger] self.pages@[start.len() + j]).url@ == lk[j]
                    &&& self.pages@[start.len() + j].position == j + 1
                    &&& self.pages@[start.len() + j].headings@.len() == 0
                } by {
                    if j < k - 1 {
                        assert(lk[j] == links.deep_view().take(k - 1)[j]);
                    }
                }
            }
        }
        assert(links.deep_view().take(links.len() as int) =~= links.deep_view());
    }

    /// Records the results given by the `href` values of the result anchors, in
    /// document order: one page for each of the first five absolute links.
    pub fn add_results(&mut self, hrefs: &Vec<Option<String>>)
        ensures
            pages_added(old(self).pages@, final(self).pages@, ranked_links(hrefs.deep_view(), RESULT_CAP as nat)),
            final(self).query == old(self).query,
    {
        let links = result_links(hrefs, RESULT_CAP);
        self.push_links(links);
    }

    /// Records the results of a fetched results page. Only a success status
    /// is read; otherwise the report is left as it is. Returns whether the
    /// status was a success.
    pub fn scrape_serp(&mut self, status: u16, body: &str) -> (r: bool)
        ensures
            r == is_success(status),
            final(self).query == old(self).query,
            !r ==> final(self).pages@ == old(self).pages@,
            r ==> pages_added(
                old(self).pages@,
                final(self).pages@,
                ranked_links(result_hrefs(body@), RESULT_CAP as nat),
            ),
    {
        if 200 <= status && status <= 299 {
            let links = extract_result_links(body, RESULT_CAP);
            self.push_links(links);
            true
        } else {
            false
        }
    }

    /// Adds to each page the headings of its fetched document: `bodies[i]` is
    /// the body of page `i`, or `None` where its fetch failed, and then the
    /// page keeps its headings. Pages keep their address, rank and order.
    pub fn scrape_page_headings(&mut self, bodies: &Vec<Option<String>>, tags: &Vec<String>)
        requires
            bodies.len() == old(self).pages.len(),
            heading_tags(tags.deep_view()),
        ensures
            final(self).query == old(self).query,
            final(self).pages.len() == old(self).pages.len(),
            forall|i: int| 0 <= i < bodies.len() && bodies@[i].is_none() ==> page_extended(
                #[trigger] old(self).pages@[i],
                final(self).pages@[i],
                Seq::empty(),
            ),
            forall|i: int| 0 <= i < bodies.len() && bodies@[i].is_some() ==> page_extended(
                #[trigger] old(self).pages@[i],
                final(self).pages@[i],
                page_headings(bodies@[i].unwrap()@, tags.deep_view()),
            ),
    {
        let ghost orig = self.pages@;
        let mut rest: Vec<Page> = Vec::new();
        std::mem::swap(&mut rest, &mut self.pages);
        let mut i: usize = 0;
        while i < bodies.len()
            invariant
                orig == old(self).pages@,
                self.query == old(self).query,
                bodies.len() == orig.len(),
                heading_tags(tags.deep_view()),
                i <= bodies.len(),
                self.pages.len() == i,
                rest@ == orig.skip(i as int),
                forall|j: int| 0 <= j < i && bodies@[j].is_none() ==> page_extended(
                    #[trigger] orig[j],
                    self.pages@[j],
                    Seq::empty(),
                ),
                forall|j: int| 0 <= j < i && bodies@[j].is_some() ==> page_extended(
                    #[trigger] orig[j],
                    self.pages@[j],
                    page_headings(bodies@[j].unwrap()@, tags.deep_view()),
                ),
            decreases bodies.len() - i,
        {
            let mut page = rest.remove(0);
            assert(page == orig[i as int]);
            assert(rest@ =~= orig.skip(i + 1));
            let ghost before = page.headings.deep_view();
            match &bodies[i] {
                Some(body) => {
                    let mut found = extract_headings(body.as_str(), tags);
                    let ghost added = found.deep_view();
                    page.headings.append(&mut found);
                    assert(page.headings.deep_view() =~= before + added);
                },
                None => {
                    assert(page.headings.deep_view() =~= before + Seq::empty());
                },
            }
            self.pages.push(page);
            i = i + 1;
        }
    }
}

/// The pages a results page adds to an empty report: one for each of the
/// first five qualifying anchors of its result blocks, in document order,
/// ranked 1, 2, ... with no gap; all of them where there are fewer than five.
pub proof fn lemma_report_from_results_page(body: Seq<char>, pages: Seq<Page>)
    requires
        pages_added(Seq::empty(), pages, ranked_links(result_hrefs(body), RESULT_CAP as nat)),
    ensures
        pages.len() == min(RESULT_CAP as int, qualifying(result_hrefs(body)).len() as int),
        forall|k: int| 0 <= k < pages.len() ==> (#[trigger] pages[k]).url@ == qualifying(result_hrefs(body))[k]
            && pages[k].position == k + 1,
{
    let h = result_hrefs(body);
    if qualifying(h).len() >= RESULT_CAP {
        lemma_cap_reached(h, RESULT_CAP as nat);
    } else {
        lemma_cap_not_reached(h, RESULT_CAP as nat);
    }
    assert forall|k: int| 0 <= k < pages.len() implies (#[trigger] pages[k]).url@ == qualifying(h)[k]
        && pages[k].position == k + 1 by {
        assert(pages[0 + k] == pages[k]);
    }
}

} // verus!
