//! Selection logic over what a document query returned: ranked result links
//! from the `href` values of matched anchors, and heading entries from the
//! text fragments of matched heading nodes.

use vstd::prelude::*;
use vstd::string::StrSliceExecFns;
use crate::text::{join_spaced, trimmed, trim, join_with_spaces, no_outer_ws, lemma_trimmed_ends};

verus! {

/// How many result links a results page contributes at most.
pub const RESULT_CAP: usize = 5;

/// A link qualifies as a result when its `href` is present and starts with `http`.
pub open spec fn qualifies(href: Option<Seq<char>>) -> bool {
    match href {
        Some(h) => h.len() >= 4 && h.take(4) == seq!['h', 't', 't', 'p'],
        None => false,
    }
}

/// The qualifying `href` values, in order.
pub open spec fn qualifying(hrefs: Seq<Option<Seq<char>>>) -> Seq<Seq<char>>
    decreases hrefs.len(),
{
    if hrefs.len() == 0 {
        Seq::empty()
    } else if qualifies(hrefs.last()) {
        qualifying(hrefs.drop_last()).push(hrefs.last().unwrap())
    } else {
        qualifying(hrefs.drop_last())
    }
}

pub open spec fn min(a: int, b: int) -> int {
    if a <= b { a } else { b }
}

/// The first `cap` qualifying links, in order.
pub open spec fn ranked_links(hrefs: Seq<Option<Seq<char>>>, cap: nat) -> Seq<Seq<char>> {
    qualifying(hrefs).take(min(cap as int, qualifying(hrefs).len() as int))
}

/// The text a heading node shows: its fragments joined by spaces, then trimmed.
pub open spec fn heading_text(frags: Seq<Seq<char>>) -> Seq<char> {
    trimmed(join_spaced(frags))
}

/// The entries of one tag: one per matched node whose text is not empty, in order.
pub open spec fn tag_headings(tag: Seq<char>, nodes: Seq<Seq<Seq<char>>>) -> Seq<(Seq<char>, Seq<char>)>
    decreases nodes.len(),
{
    if nodes.len() == 0 {
        Seq::empty()
    } else if heading_text(nodes.last()).len() > 0 {
        tag_headings(tag, nodes.drop_last()).push((tag, heading_text(nodes.last())))
    } else {
        tag_headings(tag, nodes.drop_last())
    }
}

/// The entries of all tags: those of the first tag, then the second, and so on.
pub open spec fn all_headings(tags: Seq<Seq<char>>, per_tag: Seq<Seq<Seq<Seq<char>>>>) -> Seq<(Seq<char>, Seq<char>)>
    decreases tags.len(),
{
    if tags.len() == 0 || per_tag.len() == 0 {
        Seq::empty()
    } else {
        all_headings(tags.drop_last(), per_tag.drop_last()) + tag_headings(tags.last(), per_tag.last())
    }
}

/// Whether the link starts with `http`.
pub fn is_absolute(h: &str) -> (r: bool)
    ensures
        r == qualifies(Some(h@)),
{
    if h.unicode_len() < 4 {
        return false;
    }
    let r = h.get_char(0) == 'h' && h.get_char(1) == 't' && h.get_char(2) == 't' && h.get_char(3) == 'p';
    assert(r == (h@.take(4) =~= seq!['h', 't', 't', 'p']));
    r
}

proof fn lemma_qualifying_prefix(hrefs: Seq<Option<Seq<char>>>, i: int)
    requires
        0 <= i <= hrefs.len(),
    ensures
        qualifying(hrefs.take(i)).len() <= qualifying(hrefs).len(),
        qualifying(hrefs.take(i)) =~= qualifying(hrefs).take(qualifying(hrefs.take(i)).len() as int),
    decreases hrefs.len(),
{
    if i == hrefs.len() {
        assert(hrefs.take(i) =~= hrefs);
    } else {
        assert(hrefs.drop_last().take(i) =~= hrefs.take(i));
        lemma_qualifying_prefix(hrefs.drop_last(), i);
    }
}

/// The first `cap` links whose `href` is present and absolute, in the order given.
pub fn result_links(hrefs: &Vec<Option<String>>, cap: usize) -> (r: Vec<String>)
    ensures
        r.deep_view() == ranked_links(hrefs.deep_view(), cap as nat),
{
    let ghost d = hrefs.deep_view();
    let mut r: Vec<String> = Vec::new();
    let mut i: usize = 0;
    while i < hrefs.len() && r.len() < cap
        invariant
            d == hrefs.deep_view(),
            i <= hrefs.len(),
            r.len() <= cap,
            r.deep_view() == qualifying(d.take(i as int)),
        decreases hrefs.len() - i,
    {
        assert(d.take(i + 1).drop_last() =~= d.take(i as int));
        match &hrefs[i] {
            Some(h) => {
                if is_absolute(h.as_str()) {
                    r.push(h.clone());
                    assert(r.deep_view() =~= qualifying(d.take(i + 1)));
                }
            },
            None => {},
        }
        i = i + 1;
    }
    proof {
        lemma_qualifying_prefix(d, i as int);
        if i == hrefs.len() {
            assert(d.take(i as int) =~= d);
        }
    }
    r
}

/// The entries of one tag, from the text fragments of each matched node.
pub fn tag_entries(tag: &str, nodes: &Vec<Vec<String>>) -> (r: Vec<(String, String)>)
    ensures
        r.deep_view() == tag_headings(tag@, nodes.deep_view()),
{
    let ghost d = nodes.deep_view();
    let mut r: Vec<(String, String)> = Vec::new();
    let mut k: usize = 0;
    while k < nodes.len()
        invariant
            d == nodes.deep_view(),
            k <= nodes.len(),
            r.deep_view() == tag_headings(tag@, d.take(k as int)),
        decreases nodes.len() - k,
    {
        assert(d.take(k + 1).drop_last() =~= d.take(k as int));
        assert(d[k as int] == nodes@[k as int].deep_view());
        let joined = join_with_spaces(&nodes[k]);
        let t = trim(joined.as_str());
        if t.unicode_len() > 0 {
            r.push((String::from_str(tag), t));
        }
        k = k + 1;
        assert(r.deep_view() =~= tag_headings(tag@, d.take(k as int)));
    }
    assert(d.take(nodes.len() as int) =~= d);
    r
}

/// The entries of all tags, tag by tag in the order given; `per_tag[k]` holds
/// the text fragments of the nodes that matched `tags[k]`, in document order.
pub fn headings_from_matches(tags: &Vec<String>, per_tag: &Vec<Vec<Vec<String>>>) -> (r: Vec<(String, String)>)
    requires
        per_tag.len() == tags.len(),
    ensures
        r.deep_view() == all_headings(tags.deep_view(), per_tag.deep_view()),
{
    let ghost t = tags.deep_view();
    let ghost d = per_tag.deep_view();
    let mut r: Vec<(String, String)> = Vec::new();
    let mut k: usize = 0;
    while k < tags.len()
        invariant
            t == tags.deep_view(),
            d == per_tag.deep_view(),
            per_tag.len() == tags.len(),
            k <= tags.len(),
            r.deep_view() == all_headings(t.take(k as int), d.take(k as int)),
        decreases tags.len() - k,
    {
        assert(t.take(k + 1).drop_last() =~= t.take(k as int));
        assert(d.take(k + 1).drop_last() =~= d.take(k as int));
        assert(t[k as int] == tags@[k as int]@);
        assert(d[k as int] == per_tag@[k as int].deep_view());
        let mut e = tag_entries(tags[k].as_str(), &per_tag[k]);
        let ghost before = r.deep_view();
        let ghost added = e.deep_view();
        r.append(&mut e);
        k = k + 1;
        assert(r.deep_view() =~= before + added);
    }
    assert(t.take(tags.len() as int) =~= t);
    assert(d.take(tags.len() as int) =~= d);
    r
}

/// With at least `cap` qualifying links, exactly `cap` come out: the first
/// `cap` qualifying ones, in document order.
pub proof fn lemma_cap_reached(hrefs: Seq<Option<Seq<char>>>, cap: nat)
    requires
        qualifying(hrefs).len() >= cap,
    ensures
        ranked_links(hrefs, cap).len() == cap,
        forall|k: int| 0 <= k < cap ==> ranked_links(hrefs, cap)[k] == qualifying(hrefs)[k],
{
}

/// With fewer than `cap` qualifying links, all of them come out, in document
/// order and with no gap.
pub proof fn lemma_cap_not_reached(hrefs: Seq<Option<Seq<char>>>, cap: nat)
    requires
        qualifying(hrefs).len() < cap,
    ensures
        ranked_links(hrefs, cap) == qualifying(hrefs),
{
    assert(qualifying(hrefs).take(qualifying(hrefs).len() as int) =~= qualifying(hrefs));
}

proof fn lemma_qualifying_all_qualify(hrefs: Seq<Option<Seq<char>>>)
    ensures
        forall|k: int| 0 <= k < qualifying(hrefs).len() ==> qualifies(Some(#[trigger] qualifying(hrefs)[k])),
    decreases hrefs.len(),
{
    if hrefs.len() > 0 {
        let p = hrefs.drop_last();
        lemma_qualifying_all_qualify(p);
        assert forall|k: int| 0 <= k < qualifying(hrefs).len() implies qualifies(Some(#[trigger] qualifying(hrefs)[k])) by {
            if k < qualifying(p).len() {
                assert(qualifying(hrefs)[k] == qualifying(p)[k]);
            } else {
                assert(Some(hrefs.last().unwrap()) == hrefs.last());
            }
        }
    }
}

proof fn lemma_qualifying_insert(hrefs: Seq<Option<Seq<char>>>, j: int, x: Option<Seq<char>>)
    requires
        0 <= j <= hrefs.len(),
        !qualifies(x),
    ensures
        qualifying(hrefs.insert(j, x)) == qualifying(hrefs),
    decreases hrefs.len(),
{
    let h = hrefs.insert(j, x);
    if j == hrefs.len() {
        assert(h.drop_last() =~= hrefs);
    } else {
        assert(h.drop_last() =~= hrefs.drop_last().insert(j, x));
        assert(h.last() == hrefs.last());
        lemma_qualifying_insert(hrefs.drop_last(), j, x);
    }
}

/// Every link that comes out is present and absolute; a link that is missing
/// or relative, wherever it stands, changes nothing in what comes out.
pub proof fn lemma_non_qualifying_skipped(hrefs: Seq<Option<Seq<char>>>, cap: nat, j: int, x: Option<Seq<char>>)
    requires
        0 <= j <= hrefs.len(),
        !qualifies(x),
    ensures
        forall|k: int| 0 <= k < ranked_links(hrefs, cap).len() ==> qualifies(Some(#[trigger] ranked_links(hrefs, cap)[k])),
        ranked_links(hrefs.insert(j, x), cap) == ranked_links(hrefs, cap),
{
    lemma_qualifying_all_qualify(hrefs);
    lemma_qualifying_insert(hrefs, j, x);
    assert forall|k: int| 0 <= k < ranked_links(hrefs, cap).len() implies qualifies(Some(#[trigger] ranked_links(hrefs, cap)[k])) by {
        assert(ranked_links(hrefs, cap)[k] == qualifying(hrefs)[k]);
    }
}

/// The entries of one tag all carry that tag, and have text that is not empty
/// and neither starts nor ends with whitespace.
pub proof fn lemma_tag_entries_clean(tag: Seq<char>, nodes: Seq<Seq<Seq<char>>>)
    ensures
        forall|k: int| 0 <= k < tag_headings(tag, nodes).len() ==> (#[trigger] tag_headings(tag, nodes)[k]).0 == tag
            && tag_headings(tag, nodes)[k].1.len() > 0 && no_outer_ws(tag_headings(tag, nodes)[k].1),
    decreases nodes.len(),
{
    if nodes.len() > 0 {
        let p = nodes.drop_last();
        lemma_tag_entries_clean(tag, p);
        lemma_trimmed_ends(join_spaced(nodes.last()));
        let e = tag_headings(tag, nodes);
        assert forall|k: int| 0 <= k < e.len() implies (#[trigger] e[k]).0 == tag && e[k].1.len() > 0 && no_outer_ws(e[k].1) by {
            if k < tag_headings(tag, p).len() {
                assert(e[k] == tag_headings(tag, p)[k]);
            }
        }
    }
}

/// Within one tag, entries follow the order of the nodes: the entries of
/// `a + b` are those of `a`, then those of `b`.
pub proof fn lemma_tag_entries_in_node_order(tag: Seq<char>, a: Seq<Seq<Seq<char>>>, b: Seq<Seq<Seq<char>>>)
    ensures
        tag_headings(tag, a + b) == tag_headings(tag, a) + tag_headings(tag, b),
    decreases b.len(),
{
    if b.len() == 0 {
        assert(a + b =~= a);
        assert(tag_headings(tag, a) + tag_headings(tag, b) =~= tag_headings(tag, a));
    } else {
        assert((a + b).drop_last() =~= a + b.drop_last());
        assert((a + b).last() == b.last());
        lemma_tag_entries_in_node_order(tag, a, b.drop_last());
        if heading_text(b.last()).len() > 0 {
            assert(tag_headings(tag, a + b) =~= tag_headings(tag, a) + tag_headings(tag, b));
        }
    }
}

/// Entries are grouped by tag in the order of the tag list: those of the
/// tags `t1` come before those of the tags `t2`.
pub proof fn lemma_grouped_by_tag(
    t1: Seq<Seq<char>>,
    m1: Seq<Seq<Seq<Seq<char>>>>,
    t2: Seq<Seq<char>>,
    m2: Seq<Seq<Seq<Seq<char>>>>,
)
    requires
        t1.len() == m1.len(),
        t2.len() == m2.len(),
    ensures
        all_headings(t1 + t2, m1 + m2) == all_headings(t1, m1) + all_headings(t2, m2),
    decreases t2.len(),
{
    if t2.len() == 0 {
        assert(t1 + t2 =~= t1);
        assert(m1 + m2 =~= m1);
        assert(all_headings(t1, m1) + all_headings(t2, m2) =~= all_headings(t1, m1));
    } else {
        assert((t1 + t2).drop_last() =~= t1 + t2.drop_last());
        assert((m1 + m2).drop_last() =~= m1 + m2.drop_last());
        assert((t1 + t2).last() == t2.last());
        assert((m1 + m2).last() == m2.last());
        lemma_grouped_by_tag(t1, m1, t2.drop_last(), m2.drop_last());
        assert(all_headings(t1 + t2, m1 + m2) =~= all_headings(t1, m1) + all_headings(t2, m2));
    }
}

} // verus!
