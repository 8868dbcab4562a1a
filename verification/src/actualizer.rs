//! The headings of the articles of an amending act: `Статья 5`.
use vstd::prelude::*;
use crate::objects::number_parser::digit_run_end;
use crate::parsers::chars::has_tag;
use crate::text::{chars_of, digit_char};

verus! {

/// A space or a tab (no other blank).
pub open spec fn is_blank(c: char) -> bool {
    c == ' ' || c == '\t'
}

/// The first position at or after `p` that is not a space or a tab.
pub open spec fn blank_end(s: Seq<char>, p: int) -> int
    decreases s.len() - p,
{
    if p < 0 || p >= s.len() || !is_blank(s[p]) {
        p
    } else {
        blank_end(s, p + 1)
    }
}

/// `Статья`, spaces or tabs, one or more ASCII digits, then the end of the text or a
/// space or tab.
pub open spec fn article_heading(s: Seq<char>) -> bool {
    &&& has_tag(s, 0, "Статья"@)
    &&& {
        let p1 = blank_end(s, "Статья"@.len() as int);
        let e = digit_run_end(s, p1);
        &&& e > p1
        &&& (e == s.len() || blank_end(s, e) > e)
    }
}

/// The first position at or after `p` that is not a space or a tab.
fn blanks_end(cs: &Vec<char>, p: usize) -> (r: usize)
    requires
        p <= cs@.len(),
    ensures
        r == blank_end(cs@, p as int),
        p <= r <= cs@.len(),
{
    let mut q = p;
    while q < cs.len() && (cs[q] == ' ' || cs[q] == '\t')
        invariant
            p <= q <= cs@.len(),
            blank_end(cs@, q as int) == blank_end(cs@, p as int),
        decreases cs@.len() - q,
    {
        q = q + 1;
    }
    q
}

/// Where the run of ASCII digits from `p` ends.
fn digits_end(cs: &Vec<char>, p: usize) -> (r: usize)
    requires
        p <= cs@.len(),
    ensures
        r == digit_run_end(cs@, p as int),
        p <= r <= cs@.len(),
{
    let mut q = p;
    while q < cs.len() && digit_char(cs[q])
        invariant
            p <= q <= cs@.len(),
            digit_run_end(cs@, q as int) == digit_run_end(cs@, p as int),
        decreases cs@.len() - q,
    {
        q = q + 1;
    }
    q
}

/// Whether `s` is the heading of an article: `Статья 5`, `Статья 12 Наименование`.
pub fn change_article(s: &str) -> (r: bool)
    ensures
        r == article_heading(s@),
{
    let cs = chars_of(s);
    let word = chars_of("Статья");
    let n = cs.len();
    let m = word.len();
    if m > n {
        return false;
    }
    let mut i: usize = 0;
    while i < m
        invariant
            cs@ == s@,
            n == cs@.len(),
            m == word@.len(),
            word@ == "Статья"@,
            m <= n,
            i <= m,
            forall|k: int| 0 <= k < i ==> cs@[k] == word@[k],
        decreases m - i,
    {
        if cs[i] != word[i] {
            assert(cs@.subrange(0, m as int)[i as int] != word@[i as int]);
            return false;
        }
        i = i + 1;
    }
    assert(cs@.subrange(0, m as int) =~= word@);
    let p1 = blanks_end(&cs, m);
    let e = digits_end(&cs, p1);
    e > p1 && (e == n || blanks_end(&cs, e) > e)
}

} // verus!
