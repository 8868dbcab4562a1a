//! Changes of words inside the paragraphs of a document: replacing, adding and excluding
//! words, with the changed words marked for display.
use vstd::prelude::*;
use crate::text::{chars_of, push_char, push_chars, string_of, string_of_range};

verus! {

/// A paragraph of a document.
#[derive(Debug)]
pub struct Indent {
    /// The text of the paragraph.
    pub body: String,
}

/// A numbered unit of a document, with its paragraphs.
#[derive(Debug)]
pub struct Item {
    pub indents: Option<Vec<Indent>>,
}

/// Operations on the words of a unit of a document. Each gives the new text, or nothing
/// when the words were not found.
pub trait ChangeOperations {
    /// Replaces the words `from` with `to`.
    fn replace_words(&mut self, from: &str, to: &str) -> Option<String>;
    /// Adds the words `to` after the words `from`, or at the end.
    fn add_words(&mut self, from: &Option<String>, to: &str) -> Option<String>;
    /// Excludes the words `words`; with `mark`, keeps them marked as excluded.
    fn exclude_words(&mut self, words: &str, mark: bool) -> Option<String>;
}

/// The text with each no-break space written as a plain space.
pub open spec fn plain_spaces(s: Seq<char>) -> Seq<char> {
    s.map_values(|c: char| if c == '\u{a0}' { ' ' } else { c })
}

/// `pat` stands in `s` at `i`.
pub open spec fn occurs_at(s: Seq<char>, pat: Seq<char>, i: int) -> bool {
    0 <= i && i + pat.len() <= s.len() && s.subrange(i, i + pat.len()) == pat
}

/// The first place at or after `i` where `pat` stands in `s`, as `str::find` gives it.
pub open spec fn find_from(s: Seq<char>, pat: Seq<char>, i: int) -> Option<int>
    decreases s.len() + 1 - i,
{
    if i < 0 || i + pat.len() > s.len() {
        None
    } else if occurs_at(s, pat, i) {
        Some(i)
    } else {
        find_from(s, pat, i + 1)
    }
}

/// `s` from `i` on with each occurrence of the non-empty `pat`, taken from left to right
/// without overlap, replaced by `rep`.
pub open spec fn replace_from(s: Seq<char>, pat: Seq<char>, rep: Seq<char>, i: int) -> Seq<char>
    decreases s.len() - i,
{
    if i < 0 || i >= s.len() || pat.len() == 0 {
        seq![]
    } else if occurs_at(s, pat, i) {
        rep + replace_from(s, pat, rep, i + pat.len())
    } else {
        seq![s[i]] + replace_from(s, pat, rep, i + 1)
    }
}

/// `s` with `rep` before each character and at the end.
pub open spec fn interleave(s: Seq<char>, rep: Seq<char>) -> Seq<char>
    decreases s.len(),
{
    if s.len() == 0 {
        rep
    } else {
        interleave(s.drop_last(), rep) + seq![s.last()] + rep
    }
}

/// What `str::replace(pat, rep)` gives: with an empty pattern, `rep` around each
/// character.
pub open spec fn replaced(s: Seq<char>, pat: Seq<char>, rep: Seq<char>) -> Seq<char> {
    if pat.len() == 0 {
        interleave(s, rep)
    } else {
        replace_from(s, pat, rep, 0)
    }
}

/// Changed words, marked for display.
pub open spec fn changed_mark(s: Seq<char>) -> Seq<char> {
    "˹"@ + s + "˺"@
}

/// Excluded words, marked for display.
pub open spec fn excluded_mark(s: Seq<char>) -> Seq<char> {
    "~"@ + s + "~"@
}

/// An ASCII punctuation sign, as `char::is_ascii_punctuation` defines it.
pub open spec fn ascii_punctuation(c: char) -> bool {
    ('!' <= c && c <= '/') || (':' <= c && c <= '@') || ('[' <= c && c <= '`') || ('{' <= c
        && c <= '~')
}

fn is_ascii_punctuation(c: char) -> (r: bool)
    ensures
        r == ascii_punctuation(c),
{
    ('!' <= c && c <= '/') || (':' <= c && c <= '@') || ('[' <= c && c <= '`') || ('{' <= c
        && c <= '~')
}

/// Marks changed words: `˹words˺`.
fn select_changed_words(s: &str) -> (r: String)
    ensures
        r@ == changed_mark(s@),
{
    let mut r = String::new();
    crate::text::push_str(&mut r, "˹");
    crate::text::push_str(&mut r, s);
    crate::text::push_str(&mut r, "˺");
    r
}

/// Marks excluded words: `~words~`.
fn select_excluded_words(s: &str) -> (r: String)
    ensures
        r@ == excluded_mark(s@),
{
    let mut r = String::new();
    crate::text::push_str(&mut r, "~");
    crate::text::push_str(&mut r, s);
    crate::text::push_str(&mut r, "~");
    r
}

/// The characters of a text with no-break spaces written as plain spaces.
fn plain_space_chars(s: &str) -> (r: Vec<char>)
    ensures
        r@ == plain_spaces(s@),
{
    let cs = chars_of(s);
    let mut r: Vec<char> = Vec::new();
    let mut i: usize = 0;
    while i < cs.len()
        invariant
            cs@ == s@,
            i <= cs@.len(),
            r@ == plain_spaces(s@.subrange(0, i as int)),
        decreases cs@.len() - i,
    {
        let c = cs[i];
        r.push(if c == '\u{a0}' { ' ' } else { c });
        i = i + 1;
        assert(r@ =~= plain_spaces(s@.subrange(0, i as int)));
    }
    assert(s@.subrange(0, cs@.len() as int) =~= s@);
    r
}

/// Whether `pat` stands in `s` at `i`.
fn occurs(s: &Vec<char>, pat: &Vec<char>, i: usize) -> (r: bool)
    requires
        i <= s@.len(),
    ensures
        r == occurs_at(s@, pat@, i as int),
{
    let n = s.len();
    if pat.len() > n - i {
        return false;
    }
    let mut k: usize = 0;
    while k < pat.len()
        invariant
            n == s@.len(),
            i + pat@.len() <= n,
            k <= pat@.len(),
            forall|j: int| 0 <= j < k ==> s@[i + j] == pat@[j],
        decreases pat@.len() - k,
    {
        if s[i + k] != pat[k] {
            assert(s@.subrange(i as int, i + pat@.len())[k as int] != pat@[k as int]);
            return false;
        }
        k = k + 1;
    }
    assert(s@.subrange(i as int, i + pat@.len()) =~= pat@);
    true
}

/// The first place where `pat` stands in `s`.
pub(crate) fn find(s: &Vec<char>, pat: &Vec<char>) -> (r: Option<usize>)
    ensures
        r matches Some(i) ==> find_from(s@, pat@, 0) == Some(i as int) && i + pat@.len() <= s@.len(),
        r is None ==> find_from(s@, pat@, 0) is None,
{
    if pat.len() > s.len() {
        return None;
    }
    let last = s.len() - pat.len();
    let mut i: usize = 0;
    while i < last
        invariant
            last + pat@.len() == s@.len(),
            i <= last,
            find_from(s@, pat@, 0) == find_from(s@, pat@, i as int),
        decreases last - i,
    {
        if occurs(s, pat, i) {
            return Some(i);
        }
        i = i + 1;
    }
    if occurs(s, pat, i) {
        return Some(i);
    }
    assert(find_from(s@, pat@, i + 1) is None);
    None
}

/// `s` with each occurrence of `pat` replaced by `rep`, as `str::replace` does.
fn replace_all(s: &Vec<char>, pat: &Vec<char>, rep: &Vec<char>) -> (r: Vec<char>)
    ensures
        r@ == replaced(s@, pat@, rep@),
{
    let mut r: Vec<char> = Vec::new();
    if pat.len() == 0 {
        let mut i: usize = 0;
        push_all(&mut r, rep);
        while i < s.len()
            invariant
                i <= s@.len(),
                r@ == interleave(s@.subrange(0, i as int), rep@),
            decreases s@.len() - i,
        {
            r.push(s[i]);
            push_all(&mut r, rep);
            assert(s@.subrange(0, i + 1).drop_last() =~= s@.subrange(0, i as int));
            i = i + 1;
            assert(r@ =~= interleave(s@.subrange(0, i as int), rep@));
        }
        assert(s@.subrange(0, s@.len() as int) =~= s@);
        return r;
    }
    let mut i: usize = 0;
    while i < s.len()
        invariant
            pat@.len() > 0,
            i <= s@.len(),
            r@ + replace_from(s@, pat@, rep@, i as int) == replace_from(s@, pat@, rep@, 0),
        decreases s@.len() - i,
    {
        if occurs(s, pat, i) {
            push_all(&mut r, rep);
            assert(r@ + replace_from(s@, pat@, rep@, i + pat@.len()) =~= replace_from(s@, pat@, rep@, 0));
            i = i + pat.len();
        } else {
            r.push(s[i]);
            assert(r@ + replace_from(s@, pat@, rep@, i + 1) =~= replace_from(s@, pat@, rep@, 0));
            i = i + 1;
        }
    }
    assert(r@ =~= replace_from(s@, pat@, rep@, 0));
    r
}

/// Appends the characters of `v`.
fn push_all(r: &mut Vec<char>, v: &Vec<char>)
    ensures
        final(r)@ == old(r)@ + v@,
{
    let mut i: usize = 0;
    while i < v.len()
        invariant
            i <= v@.len(),
            r@ == old(r)@ + v@.subrange(0, i as int),
        decreases v@.len() - i,
    {
        r.push(v[i]);
        i = i + 1;
        assert(r@ =~= old(r)@ + v@.subrange(0, i as int));
    }
    assert(v@.subrange(0, v@.len() as int) =~= v@);
}

/// A string of characters.
fn string_from(v: &Vec<char>) -> (r: String)
    ensures
        r@ == v@,
{
    string_of_range(v.as_slice(), 0, v.len())
}


/// The text after `from` is replaced by `to`: `None` when `from` is not found. No-break
/// spaces are read as plain spaces, and the new words are marked.
pub open spec fn replace_words_result(body: Seq<char>, from: Seq<char>, to: Seq<char>) -> Option<Seq<char>> {
    let src = plain_spaces(from);
    let tgt = plain_spaces(body);
    match find_from(tgt, src, 0) {
        None => None,
        Some(_) => Some(replaced(tgt, src, changed_mark(to))),
    }
}

/// The text after the words `to` are added after `from`, or before the last sign when
/// `from` is absent: `None` for empty words, an empty text, or `from` not found. A space
/// goes before the new words unless they start with a punctuation sign.
pub open spec fn add_words_result(body: Seq<char>, from: Option<Seq<char>>, to: Seq<char>) -> Option<Seq<char>> {
    if to.len() == 0 {
        None
    } else {
        let gap = if ascii_punctuation(to[0]) { Seq::<char>::empty() } else { seq![' '] };
        let tw = changed_mark(to);
        match from {
            Some(f) => {
                let src = plain_spaces(f);
                let tgt = plain_spaces(body);
                match find_from(tgt, src, 0) {
                    None => None,
                    Some(i) => {
                        let k = i + src.len();
                        Some(tgt.subrange(0, k) + gap + tw + tgt.subrange(k, tgt.len() as int))
                    },
                }
            },
            None => if body.len() == 0 {
                None
            } else {
                let last = body.last();
                let b = if ascii_punctuation(last) { body.drop_last() } else { body };
                Some(b + gap + tw + seq![last])
            },
        }
    }
}

/// The text after the words `ex` are excluded (or, with `mark`, marked as excluded),
/// double spaces then made single: `None` when `ex` is not found.
pub open spec fn exclude_words_result(body: Seq<char>, ex: Seq<char>, mark: bool) -> Option<Seq<char>> {
    let src = plain_spaces(ex);
    let tgt = plain_spaces(body);
    match find_from(tgt, src, 0) {
        None => None,
        Some(i) => {
            let k = i + src.len();
            let middle = if mark { excluded_mark(tgt.subrange(i, k)) } else { Seq::<char>::empty() };
            Some(replaced(tgt.subrange(0, i) + middle + tgt.subrange(k, tgt.len() as int), "  "@, " "@))
        },
    }
}

/// The view of an optional string.
pub open spec fn opt_chars(o: Option<String>) -> Option<Seq<char>> {
    match o {
        Some(s) => Some(s@),
        None => None,
    }
}

impl Indent {
    fn set_body(&mut self, v: &Vec<char>) -> (r: String)
        ensures
            final(self).body@ == v@,
            r@ == v@,
    {
        self.body = string_from(v);
        string_from(v)
    }
}

impl ChangeOperations for Indent {
    fn replace_words(&mut self, from: &str, to: &str) -> (r: Option<String>)
        ensures
            opt_chars(r) == replace_words_result(old(self).body@, from@, to@),
            r is None ==> final(self).body@ == old(self).body@,
            r matches Some(t) ==> final(self).body@ == t@,
    {
        let source = plain_space_chars(from);
        let target = plain_space_chars(self.body.as_str());
        if find(&target, &source).is_none() {
            return None;
        }
        let marked = select_changed_words(to);
        let rep = chars_of(marked.as_str());
        let new_body = replace_all(&target, &source, &rep);
        Some(self.set_body(&new_body))
    }

    fn add_words(&mut self, from: &Option<String>, to: &str) -> (r: Option<String>)
        ensures
            opt_chars(r) == add_words_result(old(self).body@, opt_chars(*from), to@),
            r is None ==> final(self).body@ == old(self).body@,
            r matches Some(t) ==> final(self).body@ == t@,
    {
        let tc = chars_of(to);
        if tc.len() == 0 {
            return None;
        }
        let first_char = tc[0];
        let marked = select_changed_words(to);
        let tw = chars_of(marked.as_str());
        let need_space = !is_ascii_punctuation(first_char);
        let mut gap: Vec<char> = Vec::new();
        if need_space {
            gap.push(' ');
        }
        let ghost gap_v = if ascii_punctuation(to@[0]) { Seq::<char>::empty() } else { seq![' '] };
        assert(gap@ =~= gap_v);
        match from {
            Some(f) => {
                let source = plain_space_chars(f.as_str());
                let target = plain_space_chars(self.body.as_str());
                let tn = target.len();
                match find(&target, &source) {
                    None => None,
                    Some(i) => {
                        assert(i + source@.len() <= tn);
                        let k = i + source.len();
                        let mut v: Vec<char> = Vec::new();
                        let mut j: usize = 0;
                        while j < k
                            invariant
                                k <= target@.len(),
                                j <= k,
                                v@ == target@.subrange(0, j as int),
                            decreases k - j,
                        {
                            v.push(target[j]);
                            j = j + 1;
                            assert(v@ =~= target@.subrange(0, j as int));
                        }
                        push_all(&mut v, &gap);
                        push_all(&mut v, &tw);
                        let mut j: usize = k;
                        let ghost mid = v@;
                        while j < target.len()
                            invariant
                                k <= j <= target@.len(),
                                v@ == mid + target@.subrange(k as int, j as int),
                            decreases target@.len() - j,
                        {
                            v.push(target[j]);
                            j = j + 1;
                            assert(v@ =~= mid + target@.subrange(k as int, j as int));
                        }
                        Some(self.set_body(&v))
                    },
                }
            },
            None => {
                let body = chars_of(self.body.as_str());
                if body.len() == 0 {
                    return None;
                }
                let last = body[body.len() - 1];
                let keep = if is_ascii_punctuation(last) { body.len() - 1 } else { body.len() };
                let mut v: Vec<char> = Vec::new();
                let mut j: usize = 0;
                while j < keep
                    invariant
                        keep <= body@.len(),
                        j <= keep,
                        v@ == body@.subrange(0, j as int),
                    decreases keep - j,
                {
                    v.push(body[j]);
                    j = j + 1;
                    assert(v@ =~= body@.subrange(0, j as int));
                }
                push_all(&mut v, &gap);
                push_all(&mut v, &tw);
                v.push(last);
                proof {
                    if ascii_punctuation(last) {
                        assert(body@.subrange(0, keep as int) =~= body@.drop_last());
                    } else {
                        assert(body@.subrange(0, keep as int) =~= body@);
                    }
                }
                Some(self.set_body(&v))
            },
        }
    }

    fn exclude_words(&mut self, words: &str, mark: bool) -> (r: Option<String>)
        ensures
            opt_chars(r) == exclude_words_result(old(self).body@, words@, mark),
            r is None ==> final(self).body@ == old(self).body@,
            r matches Some(t) ==> final(self).body@ == t@,
    {
        let source = plain_space_chars(words);
        let target = plain_space_chars(self.body.as_str());
        let tn = target.len();
        match find(&target, &source) {
            None => None,
            Some(i) => {
                assert(i + source@.len() <= tn);
                let k = i + source.len();
                let mut v: Vec<char> = Vec::new();
                let mut j: usize = 0;
                while j < i
                    invariant
                        i <= k <= target@.len(),
                        j <= i,
                        v@ == target@.subrange(0, j as int),
                    decreases i - j,
                {
                    v.push(target[j]);
                    j = j + 1;
                    assert(v@ =~= target@.subrange(0, j as int));
                }
                if mark {
                    let middle = string_of_range(target.as_slice(), i, k);
                    let marked = select_excluded_words(middle.as_str());
                    let mc = chars_of(marked.as_str());
                    push_all(&mut v, &mc);
                }
                let ghost mid = v@;
                let mut j: usize = k;
                while j < target.len()
                    invariant
                        k <= j <= target@.len(),
                        v@ == mid + target@.subrange(k as int, j as int),
                    decreases target@.len() - j,
                {
                    v.push(target[j]);
                    j = j + 1;
                    assert(v@ =~= mid + target@.subrange(k as int, j as int));
                }
                let double = chars_of("  ");
                let single = chars_of(" ");
                let new_body = replace_all(&v, &double, &single);
                Some(self.set_body(&new_body))
            },
        }
    }
}

/// The text of the first paragraph of a unit, when it has one.
pub open spec fn first_body(item: Item) -> Option<Seq<char>> {
    match item.indents {
        Some(v) => if v@.len() > 0 {
            Some(v@[0].body@)
        } else {
            None
        },
        None => None,
    }
}

/// A unit after an operation on its first paragraph: the other paragraphs stay, the
/// first gets `body`.
pub open spec fn first_changed(old_item: Item, new_item: Item, body: Seq<char>) -> bool {
    &&& old_item.indents matches Some(v)
    &&& new_item.indents matches Some(w)
    &&& w@.len() == v@.len()
    &&& w@[0].body@ == body
    &&& forall|j: int| 1 <= j < v@.len() ==> w@[j] == v@[j]
}

impl ChangeOperations for Item {
    fn replace_words(&mut self, from: &str, to: &str) -> (r: Option<String>)
        ensures
            match first_body(*old(self)) {
                None => r is None && *final(self) == *old(self),
                Some(b) => opt_chars(r) == replace_words_result(b, from@, to@) && match r {
                    None => first_changed(*old(self), *final(self), b),
                    Some(t) => first_changed(*old(self), *final(self), t@),
                },
            },
    {
        match &mut self.indents {
            Some(v) => {
                if v.len() == 0 {
                    return None;
                }
                v[0].replace_words(from, to)
            },
            None => None,
        }
    }

    fn add_words(&mut self, from: &Option<String>, to: &str) -> (r: Option<String>)
        ensures
            match first_body(*old(self)) {
                None => r is None && *final(self) == *old(self),
                Some(b) => opt_chars(r) == add_words_result(b, opt_chars(*from), to@) && match r {
                    None => first_changed(*old(self), *final(self), b),
                    Some(t) => first_changed(*old(self), *final(self), t@),
                },
            },
    {
        match &mut self.indents {
            Some(v) => {
                if v.len() == 0 {
                    return None;
                }
                v[0].add_words(from, to)
            },
            None => None,
        }
    }

    fn exclude_words(&mut self, words: &str, mark: bool) -> (r: Option<String>)
        ensures
            match first_body(*old(self)) {
                None => r is None && *final(self) == *old(self),
                Some(b) => opt_chars(r) == exclude_words_result(b, words@, mark) && match r {
                    None => first_changed(*old(self), *final(self), b),
                    Some(t) => first_changed(*old(self), *final(self), t@),
                },
            },
    {
        match &mut self.indents {
            Some(v) => {
                if v.len() == 0 {
                    return None;
                }
                v[0].exclude_words(words, mark)
            },
            None => None,
        }
    }
}

/// The text `target`, with plain spaces, when the words `source` stand in it.
pub fn search_words(source: &str, target: &str) -> (r: Option<String>)
    ensures
        match find_from(plain_spaces(target@), plain_spaces(source@), 0) {
            Some(_) => r matches Some(t) && t@ == plain_spaces(target@),
            None => r is None,
        },
{
    let s = plain_space_chars(source);
    let t = plain_space_chars(target);
    match find(&t, &s) {
        Some(_) => Some(string_from(&t)),
        None => None,
    }
}

/// The characters `start..end` of a text, when `end` is within it.
pub fn utf8_slice(s: &str, start: usize, end: usize) -> (r: Option<&str>)
    requires
        end >= start,
    ensures
        end < s@.len() ==> (r matches Some(t) && t@ == s@.subrange(start as int, end as int)),
        end >= s@.len() ==> r is None,
{
    let n = s.unicode_len();
    if start >= n || end >= n {
        return None;
    }
    Some(s.substring_char(start, end))
}

/// The characters of a text from `start` on, when `start` is within it.
pub fn utf8_slice_full(s: &str, start: usize) -> (r: Option<&str>)
    ensures
        start < s@.len() ==> (r matches Some(t) && t@ == s@.subrange(start as int, s@.len() as int)),
        start >= s@.len() ==> r is None,
{
    let n = s.unicode_len();
    if start >= n {
        return None;
    }
    Some(s.substring_char(start, n))
}


/// The characters before `k` and those from `k` on make the whole text again: the two
/// slicing functions split a text without loss.
pub proof fn lemma_slices_join(s: Seq<char>, k: int)
    requires
        0 <= k <= s.len(),
    ensures
        s.subrange(0, k) + s.subrange(k, s.len() as int) == s,
{
    assert(s.subrange(0, k) + s.subrange(k, s.len() as int) =~= s);
}

} // verus!
