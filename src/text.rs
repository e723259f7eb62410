//! Text operations on character sequences: whitespace trimming, joining
//! fragments with single spaces, and turning spaces into `+`.

use vstd::prelude::*;
use vstd::string::StrSliceExecFns;

verus! {

/// The characters that `char::is_whitespace` accepts: Unicode `White_Space`.
pub open spec fn is_ws(c: char) -> bool {
    ('\u{9}' <= c && c <= '\u{d}') || c == ' ' || c == '\u{85}' || c == '\u{a0}'
        || c == '\u{1680}' || ('\u{2000}' <= c && c <= '\u{200a}') || c == '\u{2028}'
        || c == '\u{2029}' || c == '\u{202f}' || c == '\u{205f}' || c == '\u{3000}'
}

pub fn is_whitespace(c: char) -> (r: bool)
    ensures
        r == is_ws(c),
{
    ('\u{9}' <= c && c <= '\u{d}') || c == ' ' || c == '\u{85}' || c == '\u{a0}'
        || c == '\u{1680}' || ('\u{2000}' <= c && c <= '\u{200a}') || c == '\u{2028}'
        || c == '\u{2029}' || c == '\u{202f}' || c == '\u{205f}' || c == '\u{3000}'
}

/// `s` without its leading whitespace.
pub open spec fn trim_start(s: Seq<char>) -> Seq<char>
    decreases s.len(),
{
    if s.len() > 0 && is_ws(s[0]) {
        trim_start(s.drop_first())
    } else {
        s
    }
}

/// `s` without its trailing whitespace.
pub open spec fn trim_end(s: Seq<char>) -> Seq<char>
    decreases s.len(),
{
    if s.len() > 0 && is_ws(s.last()) {
        trim_end(s.drop_last())
    } else {
        s
    }
}

/// `s` without leading and trailing whitespace.
pub open spec fn trimmed(s: Seq<char>) -> Seq<char> {
    trim_end(trim_start(s))
}

/// The fragments joined with one space between neighbours.
pub open spec fn join_spaced(frags: Seq<Seq<char>>) -> Seq<char>
    decreases frags.len(),
{
    if frags.len() == 0 {
        Seq::empty()
    } else if frags.len() == 1 {
        frags[0]
    } else {
        join_spaced(frags.drop_last()) + seq![' '] + frags.last()
    }
}

/// Every space of `s` replaced by `+`.
pub open spec fn spaces_to_plus(s: Seq<char>) -> Seq<char> {
    s.map_values(|c: char| if c == ' ' { '+' } else { c })
}

/// Neither end of `s` is whitespace.
pub open spec fn no_outer_ws(s: Seq<char>) -> bool {
    s.len() > 0 ==> !is_ws(s[0]) && !is_ws(s.last())
}

proof fn lemma_trim_start_head(s: Seq<char>)
    ensures
        trim_start(s).len() > 0 ==> !is_ws(trim_start(s)[0]),
    decreases s.len(),
{
    if s.len() > 0 && is_ws(s[0]) {
        lemma_trim_start_head(s.drop_first());
    }
}

proof fn lemma_trim_end_ends(s: Seq<char>)
    ensures
        trim_end(s).len() > 0 ==> !is_ws(trim_end(s).last()),
        trim_end(s).len() > 0 ==> trim_end(s)[0] == s[0],
        trim_end(s).len() <= s.len(),
    decreases s.len(),
{
    if s.len() > 0 && is_ws(s.last()) {
        lemma_trim_end_ends(s.drop_last());
    }
}

/// Trimmed text starts and ends with a character that is not whitespace.
pub proof fn lemma_trimmed_ends(s: Seq<char>)
    ensures
        no_outer_ws(trimmed(s)),
{
    lemma_trim_start_head(s);
    lemma_trim_end_ends(trim_start(s));
}

/// Trims leading and trailing whitespace.
pub fn trim(s: &str) -> (r: String)
    ensures
        r@ == trimmed(s@),
{
    let n = s.unicode_len();
    let mut i: usize = 0;
    assert(s@.subrange(0, n as int) =~= s@);
    while i < n && is_whitespace(s.get_char(i))
        invariant
            n == s@.len(),
            i <= n,
            trim_start(s@) == trim_start(s@.subrange(i as int, n as int)),
        decreases n - i,
    {
        assert(s@.subrange(i as int, n as int).drop_first() =~= s@.subrange(
            i + 1,
            n as int,
        ));
        i = i + 1;
    }
    let ghost rest = s@.subrange(i as int, n as int);
    assert(trim_start(s@) == rest);
    let mut j: usize = n;
    while j > i && is_whitespace(s.get_char(j - 1))
        invariant
            n == s@.len(),
            i <= j <= n,
            rest == s@.subrange(i as int, n as int),
            trim_end(rest) == trim_end(s@.subrange(i as int, j as int)),
        decreases j,
    {
        assert(s@.subrange(i as int, j as int).drop_last() =~= s@.subrange(
            i as int,
            j - 1,
        ));
        j = j - 1;
    }
    let r = s.substring_char(i, j);
    String::from_str(r)
}

/// Joins the fragments with a single space between neighbours.
pub fn join_with_spaces(frags: &Vec<String>) -> (r: String)
    ensures
        r@ == join_spaced(frags.deep_view()),
{
    let mut r = String::new();
    let mut k: usize = 0;
    while k < frags.len()
        invariant
            k <= frags.len(),
            r@ == join_spaced(frags.deep_view().take(k as int)),
        decreases frags.len() - k,
    {
        let ghost d = frags.deep_view();
        let ghost prev = r@;
        assert(d.take(k + 1).drop_last() =~= d.take(k as int));
        assert(d[k as int] == frags@[k as int]@);
        proof {
            reveal_strlit(" ");
        }
        if k > 0 {
            r.append(" ");
        }
        r.append(frags[k].as_str());
        k = k + 1;
        proof {
            if k == 1 {
                assert(d.take(1) =~= seq![d[0]]);
                assert(r@ =~= join_spaced(d.take(1)));
            } else {
                assert(r@ =~= prev + seq![' '] + d[k - 1]);
                assert(r@ =~= join_spaced(d.take(k as int)));
            }
        }
    }
    assert(frags.deep_view().take(frags.len() as int) =~= frags.deep_view());
    r
}

/// Replaces every space with `+`.
pub fn plus_for_spaces(s: &str) -> (r: String)
    ensures
        r@ == spaces_to_plus(s@),
{
    let n = s.unicode_len();
    let mut r = String::new();
    let mut i: usize = 0;
    while i < n
        invariant
            n == s@.len(),
            i <= n,
            r@ == spaces_to_plus(s@.take(i as int)),
        decreases n - i,
    {
        proof {
            reveal_strlit("+");
        }
        if s.get_char(i) == ' ' {
            r.append("+");
        } else {
            r.append(s.substring_char(i, i + 1));
        }
        i = i + 1;
        assert(r@ =~= spaces_to_plus(s@.take(i as int)));
    }
    assert(s@.take(n as int) =~= s@);
    r
}

} // verus!
