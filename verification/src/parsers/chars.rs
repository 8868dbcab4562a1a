//! The smallest pieces of the directive grammars: fixed words, spaces (the no-break space
//! among them), the end of a line; and a small interpreter of sequences of such steps.
use vstd::prelude::*;
use crate::error::{ErrorCode, ParserError};
use crate::text::{chars_of, is_space_char, space_char, string_of_range};

verus! {

/// `t` stands in `s` at position `p`.
pub open spec fn has_tag(s: Seq<char>, p: int, t: Seq<char>) -> bool {
    0 <= p && p + t.len() <= s.len() && s.subrange(p, p + t.len()) == t
}

/// What `char::to_lowercase` yields for a character: its Unicode lower case, one or more
/// characters.
pub uninterp spec fn char_lower(c: char) -> Seq<char>;

/// The iterator `char::to_lowercase` returns.
#[verifier::external_type_specification]
#[verifier::external_body]
pub struct ExToLowercase(std::char::ToLowercase);

/// The characters a `ToLowercase` iterator has still to yield.
pub uninterp spec fn lower_rest(it: std::char::ToLowercase) -> Seq<char>;

/// `char::to_lowercase`: an iterator that yields the lower case of `c`, named
/// `char_lower`; nothing more is stated of the Unicode case tables.
#[verifier::external_body]
fn lower_iter(c: char) -> (r: std::char::ToLowercase)
    ensures
        lower_rest(r) == char_lower(c),
{
    c.to_lowercase()
}

/// `Iterator::next` on a `ToLowercase`: the next character it has to yield, if any.
#[verifier::external_body]
fn next_lower(it: &mut std::char::ToLowercase) -> (r: Option<char>)
    ensures
        lower_rest(*old(it)).len() == 0 ==> r is None && lower_rest(*final(it)).len() == 0,
        lower_rest(*old(it)).len() > 0 ==> r == Some(lower_rest(*old(it))[0]) && lower_rest(*final(it))
            == lower_rest(*old(it)).drop_first(),
{
    it.next()
}

/// The lower case of a character, as `char::to_lowercase` yields it.
fn lower_char(c: char) -> (r: Vec<char>)
    ensures
        r@ == char_lower(c),
{
    let mut it = lower_iter(c);
    let mut v: Vec<char> = Vec::new();
    loop
        invariant
            v@ + lower_rest(it) == char_lower(c),
        ensures
            v@ == char_lower(c),
        decreases lower_rest(it).len(),
    {
        let ghost before = lower_rest(it);
        match next_lower(&mut it) {
            Some(x) => {
                let ghost vb = v@;
                v.push(x);
                assert(vb + before =~= v@ + lower_rest(it));
            },
            None => {
                assert(v@ + before =~= v@);
                break;
            },
        }
    }
    v
}

/// `t` stands in `s` at position `p` when each character is taken in lower case.
pub open spec fn has_tag_no_case(s: Seq<char>, p: int, t: Seq<char>) -> bool {
    &&& 0 <= p
    &&& p + t.len() <= s.len()
    &&& forall|i: int| 0 <= i < t.len() ==> char_lower(#[trigger] s[p + i]) == char_lower(t[i])
}

/// The first position at or after `p` that is not a space.
pub open spec fn space_end(s: Seq<char>, p: int) -> int
    decreases s.len() - p,
{
    if p < 0 || p >= s.len() || !is_space_char(s[p]) {
        p
    } else {
        space_end(s, p + 1)
    }
}

/// The first of the words `ts` that stands at `p` (with or without regard to case).
pub open spec fn first_tag(s: Seq<char>, p: int, ts: Seq<Seq<char>>, no_case: bool) -> Option<int>
    decreases ts.len(),
{
    if ts.len() == 0 {
        None
    } else if (if no_case { has_tag_no_case(s, p, ts[0]) } else { has_tag(s, p, ts[0]) }) {
        Some(0)
    } else {
        match first_tag(s, p, ts.drop_first(), no_case) {
            Some(k) => Some(k + 1),
            None => None,
        }
    }
}

/// One step of a grammar.
pub ghost enum Step {
    /// A fixed word.
    Tag(Seq<char>),
    /// The first of some words that stands there.
    OneOf(Seq<Seq<char>>),
    /// The first of some words that stands there, case aside.
    OneOfNoCase(Seq<Seq<char>>),
    /// Any number of spaces.
    Spaces,
    /// At least one space.
    Space1,
    /// The end of the line.
    End,
}

/// Where one step ends, from `p`; or where and why it fails.
pub open spec fn step_at(s: Seq<char>, p: int, st: Step) -> Result<int, (int, ErrorCode)> {
    match st {
        Step::Tag(t) => if has_tag(s, p, t) {
            Ok(p + t.len())
        } else {
            Err((p, ErrorCode::Tag))
        },
        Step::OneOf(ts) => match first_tag(s, p, ts, false) {
            Some(k) => Ok(p + ts[k].len()),
            None => Err((p, ErrorCode::Tag)),
        },
        Step::OneOfNoCase(ts) => match first_tag(s, p, ts, true) {
            Some(k) => Ok(p + ts[k].len()),
            None => Err((p, ErrorCode::Tag)),
        },
        Step::Spaces => Ok(space_end(s, p)),
        Step::Space1 => if space_end(s, p) > p {
            Ok(space_end(s, p))
        } else {
            Err((p, ErrorCode::Space))
        },
        Step::End => if p == s.len() {
            Ok(p)
        } else {
            Err((p, ErrorCode::Eof))
        },
    }
}

/// Where a sequence of steps ends, from `p`; or where and why its first failing step
/// fails.
pub open spec fn run_steps(s: Seq<char>, p: int, steps: Seq<Step>) -> Result<int, (int, ErrorCode)>
    decreases steps.len(),
{
    if steps.len() == 0 {
        Ok(p)
    } else {
        match step_at(s, p, steps[0]) {
            Ok(q) => run_steps(s, q, steps.drop_first()),
            Err(e) => Err(e),
        }
    }
}

/// A grammar applied to a whole text: the rest after it, or the error of the failing
/// step with the text left where it failed.
pub open spec fn grammar_result(s: Seq<char>, steps: Seq<Step>, rest: Result<Seq<char>, ParserError>) -> bool {
    match run_steps(s, 0, steps) {
        Ok(e) => rest matches Ok(r) && r == s.subrange(e, s.len() as int),
        Err((p, code)) => rest matches Err(ParserError::NomError { input, code: c }) && input@
            == s.subrange(p, s.len() as int) && c == code,
    }
}

/// One step of a grammar, in executable form.
pub enum ExecStep {
    Tag(&'static str),
    OneOf(Vec<&'static str>),
    OneOfNoCase(Vec<&'static str>),
    Spaces,
    Space1,
    End,
}

/// The words of a list.
pub open spec fn words_view(v: Seq<&'static str>) -> Seq<Seq<char>> {
    v.map_values(|t: &'static str| t@)
}

impl View for ExecStep {
    type V = Step;

    open spec fn view(&self) -> Step {
        match self {
            ExecStep::Tag(t) => Step::Tag(t@),
            ExecStep::OneOf(v) => Step::OneOf(words_view(v@)),
            ExecStep::OneOfNoCase(v) => Step::OneOfNoCase(words_view(v@)),
            ExecStep::Spaces => Step::Spaces,
            ExecStep::Space1 => Step::Space1,
            ExecStep::End => Step::End,
        }
    }
}

/// The views of a list of steps.
pub open spec fn steps_view(v: Seq<ExecStep>) -> Seq<Step> {
    v.map_values(|st: ExecStep| st@)
}

/// Whether `t` stands in `cs` at `p`.
pub(crate) fn tag_at(cs: &Vec<char>, p: usize, t: &str) -> (r: bool)
    requires
        p <= cs@.len(),
    ensures
        r == has_tag(cs@, p as int, t@),
{
    let tc = chars_of(t);
    let n = cs.len();
    if tc.len() > n - p {
        return false;
    }
    let mut i: usize = 0;
    while i < tc.len()
        invariant
            tc@ == t@,
            n == cs@.len(),
            p + tc@.len() <= n,
            i <= tc@.len(),
            forall|k: int| 0 <= k < i ==> cs@[p + k] == tc@[k],
        decreases tc@.len() - i,
    {
        if cs[p + i] != tc[i] {
            assert(cs@.subrange(p as int, p + tc@.len())[i as int] != t@[i as int]);
            return false;
        }
        i = i + 1;
    }
    assert(cs@.subrange(p as int, p + tc@.len()) =~= t@);
    true
}

/// Whether two characters have the same lower case.
fn same_lower(a: char, b: char) -> (r: bool)
    ensures
        r == (char_lower(a) == char_lower(b)),
{
    let la = lower_char(a);
    let lb = lower_char(b);
    if la.len() != lb.len() {
        assert(la@.len() != lb@.len());
        assert(la@ != lb@);
        return false;
    }
    let mut i: usize = 0;
    while i < la.len()
        invariant
            la@ == char_lower(a),
            lb@ == char_lower(b),
            la@.len() == lb@.len(),
            i <= la@.len(),
            forall|k: int| 0 <= k < i ==> la@[k] == lb@[k],
        decreases la@.len() - i,
    {
        if la[i] != lb[i] {
            assert(la@[i as int] != lb@[i as int]);
            return false;
        }
        i = i + 1;
    }
    assert(la@ =~= lb@);
    true
}

/// Whether `t` stands in `cs` at `p`, case aside.
fn tag_no_case_at(cs: &Vec<char>, p: usize, t: &str) -> (r: bool)
    requires
        p <= cs@.len(),
    ensures
        r == has_tag_no_case(cs@, p as int, t@),
{
    let tc = chars_of(t);
    let n = cs.len();
    if tc.len() > n - p {
        return false;
    }
    let mut i: usize = 0;
    while i < tc.len()
        invariant
            tc@ == t@,
            n == cs@.len(),
            p + tc@.len() <= n,
            i <= tc@.len(),
            forall|k: int| 0 <= k < i ==> char_lower(#[trigger] cs@[p + k]) == char_lower(tc@[k]),
        decreases tc@.len() - i,
    {
        if !same_lower(cs[p + i], tc[i]) {
            return false;
        }
        i = i + 1;
    }
    true
}

/// The first position at or after `p` that is not a space.
pub(crate) fn spaces_end(cs: &Vec<char>, p: usize) -> (r: usize)
    requires
        p <= cs@.len(),
    ensures
        r == space_end(cs@, p as int),
        p <= r <= cs@.len(),
{
    let mut q = p;
    while q < cs.len() && space_char(cs[q])
        invariant
            p <= q <= cs@.len(),
            space_end(cs@, q as int) == space_end(cs@, p as int),
        decreases cs@.len() - q,
    {
        q = q + 1;
    }
    q
}

/// The word `t` stands at `p`, with or without regard to case.
pub open spec fn tag_hit(s: Seq<char>, p: int, t: Seq<char>, no_case: bool) -> bool {
    if no_case {
        has_tag_no_case(s, p, t)
    } else {
        has_tag(s, p, t)
    }
}

proof fn lemma_first_tag(s: Seq<char>, p: int, ts: Seq<Seq<char>>, no_case: bool, k: int)
    requires
        0 <= k <= ts.len(),
        forall|j: int| 0 <= j < k ==> !tag_hit(s, p, #[trigger] ts[j], no_case),
    ensures
        k < ts.len() && tag_hit(s, p, ts[k], no_case) ==> first_tag(s, p, ts, no_case) == Some(k),
        k == ts.len() ==> first_tag(s, p, ts, no_case) is None,
    decreases ts.len(),
{
    if ts.len() > 0 && k > 0 {
        assert forall|j: int| 0 <= j < k - 1 implies !tag_hit(s, p, #[trigger] ts.drop_first()[j], no_case) by {
            assert(ts.drop_first()[j] == ts[j + 1]);
        }
        assert(!tag_hit(s, p, ts[0], no_case));
        lemma_first_tag(s, p, ts.drop_first(), no_case, k - 1);
        if k < ts.len() {
            assert(ts.drop_first()[k - 1] == ts[k]);
        }
    }
}

pub(crate) proof fn lemma_first_tag_found(s: Seq<char>, p: int, ts: Seq<Seq<char>>, no_case: bool)
    ensures
        first_tag(s, p, ts, no_case) matches Some(k) ==> 0 <= k < ts.len() && tag_hit(s, p, ts[k], no_case),
    decreases ts.len(),
{
    if ts.len() > 0 {
        lemma_first_tag_found(s, p, ts.drop_first(), no_case);
        if let Some(k) = first_tag(s, p, ts.drop_first(), no_case) {
            assert(ts.drop_first()[k] == ts[k + 1]);
        }
    }
}

/// The first of the words that stands at `p`.
pub(crate) fn first_tag_at(cs: &Vec<char>, p: usize, ts: &Vec<&'static str>, no_case: bool) -> (r: Option<usize>)
    requires
        p <= cs@.len(),
    ensures
        r matches Some(k) ==> k < ts@.len() && first_tag(cs@, p as int, words_view(ts@), no_case) == Some(k as int),
        r is None ==> first_tag(cs@, p as int, words_view(ts@), no_case) is None,
{
    let ghost ws = words_view(ts@);
    let mut k: usize = 0;
    while k < ts.len()
        invariant
            p <= cs@.len(),
            ws == words_view(ts@),
            k <= ts@.len(),
            forall|j: int| 0 <= j < k ==> !tag_hit(cs@, p as int, #[trigger] ws[j], no_case),
        decreases ts@.len() - k,
    {
        let hit = if no_case { tag_no_case_at(cs, p, ts[k]) } else { tag_at(cs, p, ts[k]) };
        assert(ws[k as int] == ts@[k as int]@);
        if hit {
            proof {
                lemma_first_tag(cs@, p as int, ws, no_case, k as int);
            }
            return Some(k);
        }
        k = k + 1;
    }
    proof {
        lemma_first_tag(cs@, p as int, ws, no_case, k as int);
    }
    None
}

/// One step from `p`: where it ends, or where and why it fails.
fn run_step(cs: &Vec<char>, p: usize, st: &ExecStep) -> (r: Result<usize, (usize, ErrorCode)>)
    requires
        p <= cs@.len(),
    ensures
        match step_at(cs@, p as int, st@) {
            Ok(q) => r == Ok::<usize, (usize, ErrorCode)>(q as usize) && p <= q <= cs@.len(),
            Err((f, code)) => r == Err::<usize, (usize, ErrorCode)>((f as usize, code)) && f == p,
        },
{
    let n = cs.len();
    match st {
        ExecStep::Tag(t) => {
            if tag_at(cs, p, t) {
                Ok(p + t.unicode_len())
            } else {
                Err((p, ErrorCode::Tag))
            }
        },
        ExecStep::OneOf(ts) => match first_tag_at(cs, p, ts, false) {
            Some(k) => {
                proof {
                    lemma_first_tag_found(cs@, p as int, words_view(ts@), false);
                }
                assert(words_view(ts@)[k as int] == ts@[k as int]@);
                Ok(p + ts[k].unicode_len())
            },
            None => Err((p, ErrorCode::Tag)),
        },
        ExecStep::OneOfNoCase(ts) => match first_tag_at(cs, p, ts, true) {
            Some(k) => {
                proof {
                    lemma_first_tag_found(cs@, p as int, words_view(ts@), true);
                }
                assert(words_view(ts@)[k as int] == ts@[k as int]@);
                Ok(p + ts[k].unicode_len())
            },
            None => Err((p, ErrorCode::Tag)),
        },
        ExecStep::Spaces => Ok(spaces_end(cs, p)),
        ExecStep::Space1 => {
            let q = spaces_end(cs, p);
            if q > p {
                Ok(q)
            } else {
                Err((p, ErrorCode::Space))
            }
        },
        ExecStep::End => {
            if p == cs.len() {
                Ok(p)
            } else {
                Err((p, ErrorCode::Eof))
            }
        },
    }
}

/// A position, or a failure position and its code, as integers.
pub open spec fn pos_result(r: Result<usize, (usize, ErrorCode)>) -> Result<int, (int, ErrorCode)> {
    match r {
        Ok(q) => Ok(q as int),
        Err((f, code)) => Err((f as int, code)),
    }
}

/// Runs the steps of a grammar from `p`: where they end, or where and why the first
/// failing step fails.
pub(crate) fn run_steps_at(cs: &Vec<char>, p: usize, steps: &Vec<ExecStep>) -> (r: Result<usize, (usize, ErrorCode)>)
    requires
        p <= cs@.len(),
    ensures
        pos_result(r) == run_steps(cs@, p as int, steps_view(steps@)),
        r matches Ok(q) ==> p <= q <= cs@.len(),
        r matches Err((f, _)) ==> p <= f <= cs@.len(),
{
    let ghost all = steps_view(steps@);
    let n = cs.len();
    let mut pos: usize = p;
    let mut i: usize = 0;
    assert(all.subrange(0, all.len() as int) =~= all);
    while i < steps.len()
        invariant
            all == steps_view(steps@),
            n == cs@.len(),
            i <= steps@.len(),
            p <= pos <= cs@.len(),
            run_steps(cs@, p as int, all) == run_steps(cs@, pos as int, all.subrange(i as int, all.len() as int)),
        decreases steps@.len() - i,
    {
        let ghost rest = all.subrange(i as int, all.len() as int);
        assert(rest[0] == steps@[i as int]@);
        assert(rest.drop_first() =~= all.subrange(i + 1, all.len() as int));
        match run_step(cs, pos, &steps[i]) {
            Ok(e) => {
                assert(run_steps(cs@, pos as int, rest) == run_steps(cs@, e as int, rest.drop_first()));
                pos = e;
            },
            Err((f, code)) => {
                return Err((f, code));
            },
        }
        i = i + 1;
    }
    assert(all.subrange(i as int, all.len() as int) =~= Seq::<Step>::empty());
    Ok(pos)
}

/// Runs the steps of a grammar on a whole text: the rest after them, or the error of the
/// first failing step with the text left where it failed.
pub fn run_grammar<'a>(s: &'a str, steps: &Vec<ExecStep>) -> (r: Result<&'a str, ParserError>)
    ensures
        grammar_result(s@, steps_view(steps@), match r {
            Ok(rest) => Ok(rest@),
            Err(e) => Err(e),
        }),
{
    let cs = chars_of(s);
    match run_steps_at(&cs, 0, steps) {
        Ok(p) => Ok(s.substring_char(p, cs.len())),
        Err((f, code)) => {
            let input = string_of_range(cs.as_slice(), f, cs.len());
            Err(ParserError::NomError { input, code })
        },
    }
}

/// `:`
pub fn definition(s: &str) -> (r: Result<(&str, &str), ParserError>)
    ensures
        match r {
            Ok((rest, t)) => s@.len() > 0 && s@[0] == ':' && rest@ == s@.subrange(1, s@.len() as int) && t@ == seq![':'],
            Err(e) => !(s@.len() > 0 && s@[0] == ':') && e == ParserError::NomError { input: e->input, code: ErrorCode::Tag } && e->input@ == s@,
        },
{
    single_sign(s, ':')
}

/// `;`
pub fn end_indent_char(s: &str) -> (r: Result<(&str, &str), ParserError>)
    ensures
        match r {
            Ok((rest, t)) => s@.len() > 0 && s@[0] == ';' && rest@ == s@.subrange(1, s@.len() as int) && t@ == seq![';'],
            Err(e) => !(s@.len() > 0 && s@[0] == ';') && e == ParserError::NomError { input: e->input, code: ErrorCode::Tag } && e->input@ == s@,
        },
{
    single_sign(s, ';')
}

/// One sign at the start of a text.
fn single_sign(s: &str, c: char) -> (r: Result<(&str, &str), ParserError>)
    ensures
        match r {
            Ok((rest, t)) => s@.len() > 0 && s@[0] == c && rest@ == s@.subrange(1, s@.len() as int) && t@ == seq![c],
            Err(e) => !(s@.len() > 0 && s@[0] == c) && e == ParserError::NomError { input: e->input, code: ErrorCode::Tag } && e->input@ == s@,
        },
{
    let cs = chars_of(s);
    if cs.len() > 0 && cs[0] == c {
        let t = s.substring_char(0, 1);
        assert(t@ =~= seq![c]);
        Ok((s.substring_char(1, cs.len()), t))
    } else {
        let input = string_of_range(cs.as_slice(), 0, cs.len());
        assert(cs@.subrange(0, cs@.len() as int) =~= s@);
        Err(ParserError::NomError { input, code: ErrorCode::Tag })
    }
}

/// Any number of spaces (the no-break space among them): the rest after them and the
/// spaces.
pub fn space0(s: &str) -> (r: Result<(&str, &str), ParserError>)
    ensures
        r matches Ok((rest, sp)) && rest@ == s@.subrange(space_end(s@, 0), s@.len() as int) && sp@
            == s@.subrange(0, space_end(s@, 0)),
{
    let cs = chars_of(s);
    let e = spaces_end(&cs, 0);
    Ok((s.substring_char(e, cs.len()), s.substring_char(0, e)))
}

/// At least one space (the no-break space among them): the rest after them and the
/// spaces; without a space at the start, an error with the whole text.
pub fn space1(s: &str) -> (r: Result<(&str, &str), ParserError>)
    ensures
        space_end(s@, 0) > 0 ==> (r matches Ok((rest, sp)) && rest@ == s@.subrange(space_end(s@, 0), s@.len() as int)
            && sp@ == s@.subrange(0, space_end(s@, 0))),
        space_end(s@, 0) == 0 ==> (r matches Err(ParserError::NomError { input, code }) && input@ == s@
            && code == ErrorCode::Space),
{
    let cs = chars_of(s);
    let e = spaces_end(&cs, 0);
    if e > 0 {
        Ok((s.substring_char(e, cs.len()), s.substring_char(0, e)))
    } else {
        let input = string_of_range(cs.as_slice(), 0, cs.len());
        assert(cs@.subrange(0, cs@.len() as int) =~= s@);
        Err(ParserError::NomError { input, code: ErrorCode::Space })
    }
}

} // verus!
