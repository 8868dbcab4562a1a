//! Numbers of units and their sequences: `10, 11, 13 - 17`, `2^2 - 2^9`, `"з" - "ю"`.
//!
//! A number is a run of the characters numbers are written with, or one letter in quotes.
//! A sequence is one or more pairs joined by `, `, ` и ` or ` - ` (each also with no-break
//! spaces); a pair joined by a dash between two decimal numbers stands for the whole range,
//! with the range of the superscripts where the second number has one. Which characters
//! write numbers and letters, and the order of the letters, are given by a vocabulary.
use vstd::prelude::*;
use crate::error::{ErrorCode, ParserError};
use crate::parsers::chars::{first_tag, first_tag_at, has_tag, lemma_first_tag_found, space_end, spaces_end, tag_at, words_view};
use crate::parsers::changes_checker::byte_len;
use crate::change_path::{ChangePath, TargetPath};
use crate::objects::header_type::{header_of_lowercase, not_a_header_message};
use crate::objects::item_type::{item_of_lowercase, not_an_item_message};
use crate::objects::number::NumberIndex;
use crate::objects::number_parser::{acc_parts, complex_number_parser, lemma_error_position, parse_parts};
use crate::change_path::joined_paths;
use crate::change_path_order::{sorted, weak_order_on};
use crate::parsers::chars::{run_steps, run_steps_at, steps_view, ExecStep, Step};
use crate::text::lowercased;
use crate::text::{all_digits, chars_of, decimal, digits_value, string_of_range, unsigned_digits};

verus! {

/// The characters numbers are written with, the letters of one-letter numbers, the
/// letters in their order, and the ordinal words of paragraphs with their numbers
/// (`седьмым` is 7).
pub struct NumberVocabulary {
    pub number_chars: Vec<char>,
    pub letters: Vec<char>,
    pub letter_order: Vec<String>,
    pub indent_numbers: Vec<(String, usize)>,
}

/// Where the run of characters of `set` that starts at `p` ends.
pub open spec fn run_end(s: Seq<char>, p: int, set: Seq<char>) -> int
    decreases s.len() - p,
{
    if 0 <= p < s.len() && set.contains(s[p]) {
        run_end(s, p + 1, set)
    } else {
        p
    }
}

/// A number at `p`: a quoted single letter (the letter is the number), else a non-empty
/// run of number characters; where it ends and where its text starts and ends.
pub open spec fn verify_number_at(s: Seq<char>, p: int, nc: Seq<char>, lt: Seq<char>) -> Result<
    (int, (int, int)),
    (int, ErrorCode),
> {
    if 0 <= p < s.len() && s[p] == '"' && run_end(s, p + 1, lt) == p + 2 && p + 2 < s.len() && s[p + 2]
        == '"' {
        Ok((p + 3, (p + 1, p + 2)))
    } else if run_end(s, p, nc) > p {
        Ok((run_end(s, p, nc), (p, run_end(s, p, nc))))
    } else {
        Err((p, ErrorCode::IsA))
    }
}

/// What joins the two numbers of a pair, in the order tried: comma, `и` or dash, each
/// with plain or no-break spaces.
pub open spec fn separators() -> Seq<Seq<char>> {
    seq![", "@, ",\u{a0}"@, " и "@, "\u{a0}и\u{a0}"@, " - "@, "\u{a0}-\u{a0}"@]
}

/// The separator at `p`: where it ends and which one it is.
pub open spec fn separator_at(s: Seq<char>, p: int) -> Result<(int, int), (int, ErrorCode)> {
    match first_tag(s, p, separators(), false) {
        Some(k) => Ok((p + separators()[k].len(), k)),
        None => Err((p, ErrorCode::Tag)),
    }
}

/// A pair of numbers and what joins them, then `, ` or any spaces: where it ends, the
/// first number, the separator and the second number.
pub open spec fn pair_at(s: Seq<char>, p: int, nc: Seq<char>, lt: Seq<char>) -> Result<
    (int, (Seq<char>, int, Seq<char>)),
    (int, ErrorCode),
> {
    match verify_number_at(s, p, nc, lt) {
        Err(x) => Err(x),
        Ok((p1, (a, b))) => match separator_at(s, p1) {
            Err(x) => Err(x),
            Ok((p2, k)) => match verify_number_at(s, p2, nc, lt) {
                Err(x) => Err(x),
                Ok((p3, (c, d))) => Ok((
                    if has_tag(s, p3, ", "@) {
                        p3 + ", "@.len()
                    } else {
                        space_end(s, p3)
                    },
                    (s.subrange(a, b), k, s.subrange(c, d)),
                )),
            },
        },
    }
}

/// The pairs after `acc`, read from `p` as long as one can be read (each one read moves
/// forward).
pub open spec fn pairs_from(s: Seq<char>, p: int, nc: Seq<char>, lt: Seq<char>, acc: Seq<(Seq<char>, int, Seq<char>)>) -> (
    int,
    Seq<(Seq<char>, int, Seq<char>)>,
)
    decreases s.len() - p,
{
    match pair_at(s, p, nc, lt) {
        Ok((e, it)) => if p < e <= s.len() {
            pairs_from(s, e, nc, lt, acc.push(it))
        } else {
            (p, acc)
        },
        Err(_) => (p, acc),
    }
}

/// One or more pairs from `p`.
pub open spec fn pairs_at(s: Seq<char>, p: int, nc: Seq<char>, lt: Seq<char>) -> Result<
    (int, Seq<(Seq<char>, int, Seq<char>)>),
    (int, ErrorCode),
> {
    match pair_at(s, p, nc, lt) {
        Err(x) => Err(x),
        Ok((e, it)) => Ok(pairs_from(s, e, nc, lt, seq![it])),
    }
}

/// Whether `c` is among `set`.
fn contains_char(set: &Vec<char>, c: char) -> (r: bool)
    ensures
        r == set@.contains(c),
{
    let mut i: usize = 0;
    while i < set.len()
        invariant
            i <= set@.len(),
            forall|k: int| 0 <= k < i ==> set@[k] != c,
        decreases set@.len() - i,
    {
        if set[i] == c {
            assert(set@[i as int] == c);
            return true;
        }
        i = i + 1;
    }
    false
}

/// Where the run of characters of `set` from `p` ends.
fn run_end_at(cs: &Vec<char>, p: usize, set: &Vec<char>) -> (r: usize)
    requires
        p <= cs@.len(),
    ensures
        r == run_end(cs@, p as int, set@),
        p <= r <= cs@.len(),
{
    let mut q = p;
    while q < cs.len() && contains_char(set, cs[q])
        invariant
            p <= q <= cs@.len(),
            run_end(cs@, q as int, set@) == run_end(cs@, p as int, set@),
        decreases cs@.len() - q,
    {
        q = q + 1;
    }
    q
}

/// A number at `p`.
fn verify_number_from(cs: &Vec<char>, p: usize, voc: &NumberVocabulary) -> (r: Result<(usize, (usize, usize)), (usize, ErrorCode)>)
    requires
        p <= cs@.len(),
    ensures
        match verify_number_at(cs@, p as int, voc.number_chars@, voc.letters@) {
            Ok((e, (a, b))) => r matches Ok((e2, (a2, b2))) && e2 == e && a2 == a && b2 == b,
            Err((f, code)) => r matches Err((f2, c)) && f2 == f && c == code,
        },
        r matches Ok((e, (a, b))) ==> p <= a <= b <= e <= cs@.len() && p < e,
        r matches Err((f, _)) ==> f == p,
{
    let n = cs.len();
    if p < n && n - p > 2 && cs[p] == '"' && run_end_at(cs, p + 1, &voc.letters) == p + 2 && cs[p + 2] == '"' {
        return Ok((p + 3, (p + 1, p + 2)));
    }
    let e = run_end_at(cs, p, &voc.number_chars);
    if e > p {
        Ok((e, (p, e)))
    } else {
        Err((p, ErrorCode::IsA))
    }
}

/// The separators, in the order tried.
fn separator_list() -> (r: Vec<&'static str>)
    ensures
        words_view(r@) == separators(),
{
    let mut v: Vec<&'static str> = Vec::new();
    v.push(", ");
    v.push(",\u{a0}");
    v.push(" и ");
    v.push("\u{a0}и\u{a0}");
    v.push(" - ");
    v.push("\u{a0}-\u{a0}");
    assert(words_view(v@) =~= separators());
    v
}

/// The separator at `p`.
fn separator_from(cs: &Vec<char>, p: usize) -> (r: Result<(usize, usize), (usize, ErrorCode)>)
    requires
        p <= cs@.len(),
    ensures
        match separator_at(cs@, p as int) {
            Ok((e, k)) => r matches Ok((e2, k2)) && e2 == e && k2 == k,
            Err((f, code)) => r matches Err((f2, c)) && f2 == f && c == code,
        },
        r matches Ok((e, k)) ==> p <= e <= cs@.len() && k < 6,
        r matches Err((f, _)) ==> f == p,
{
    let n = cs.len();
    let seps = separator_list();
    match first_tag_at(cs, p, &seps, false) {
        Some(k) => {
            proof {
                lemma_first_tag_found(cs@, p as int, separators(), false);
            }
            assert(separators()[k as int] == seps@[k as int]@);
            Ok((p + seps[k].unicode_len(), k))
        },
        None => Err((p, ErrorCode::Tag)),
    }
}

/// A pair of numbers at `p`: where it ends, the spans of the two numbers and the
/// separator.
fn pair_from(cs: &Vec<char>, p: usize, voc: &NumberVocabulary) -> (r: Result<(usize, ((usize, usize), usize, (usize, usize))), (usize, ErrorCode)>)
    requires
        p <= cs@.len(),
    ensures
        match pair_at(cs@, p as int, voc.number_chars@, voc.letters@) {
            Ok((e, (n1, k, n2))) => r matches Ok((e2, ((a, b), k2, (c, d)))) && e2 == e && k2 == k && a <= b
                <= cs@.len() && c <= d <= cs@.len() && cs@.subrange(a as int, b as int) == n1 && cs@.subrange(
                c as int,
                d as int,
            ) == n2,
            Err((f, code)) => r matches Err((f2, c)) && f2 == f && c == code,
        },
        r matches Ok((e, (_, k, _))) ==> p < e <= cs@.len() && k < 6,
        r matches Err((f, _)) ==> p <= f <= cs@.len(),
{
    let n = cs.len();
    match verify_number_from(cs, p, voc) {
        Err(x) => Err(x),
        Ok((p1, (a, b))) => match separator_from(cs, p1) {
            Err(x) => Err(x),
            Ok((p2, k)) => match verify_number_from(cs, p2, voc) {
                Err(x) => Err(x),
                Ok((p3, (c, d))) => {
                    let e = if tag_at(cs, p3, ", ") {
                        p3 + ", ".unicode_len()
                    } else {
                        spaces_end(cs, p3)
                    };
                    Ok((e, ((a, b), k, (c, d))))
                },
            },
        },
    }
}

/// The first `^` at or after `i`.
pub open spec fn caret_from(t: Seq<char>, i: int) -> Option<int>
    decreases t.len() - i,
{
    if i < 0 || i >= t.len() {
        None
    } else if t[i] == '^' {
        Some(i)
    } else {
        caret_from(t, i + 1)
    }
}

/// What `str::parse::<usize>` gives: the value of an optional `+` and at least one ASCII
/// digit, when it fits in a `usize`.
pub open spec fn parse_usize_spec(t: Seq<char>) -> Option<nat> {
    let d = unsigned_digits(t);
    if d.len() > 0 && all_digits(d) && digits_value(d) <= usize::MAX {
        Some(digits_value(d))
    } else {
        None
    }
}

/// The value of a number before its `^` (or of the whole number).
pub open spec fn first_value(t: Seq<char>) -> Option<nat> {
    match caret_from(t, 0) {
        Some(i) => match parse_usize_spec(t.subrange(0, i)) {
            Some(x) => Some(x),
            None => parse_usize_spec(t),
        },
        None => parse_usize_spec(t),
    }
}

/// The value of a number's superscript, after its `^`.
pub open spec fn second_value(t: Seq<char>) -> Option<nat> {
    match caret_from(t, 0) {
        Some(i) => parse_usize_spec(t.subrange(i + 1, t.len() as int)),
        None => None,
    }
}

/// The superscripts a pair runs through, as a range from the first number's (or 0) up to
/// past the second's; only where the second number has a `^`.
pub open spec fn second_range(n1: Seq<char>, n2: Seq<char>) -> Option<(nat, nat)> {
    if caret_from(n2, 0) is Some {
        Some(
            (
                match second_value(n1) {
                    Some(x) => x,
                    None => 0,
                },
                match second_value(n2) {
                    Some(y) => y + 1,
                    None => 0,
                },
            ),
        )
    } else {
        None
    }
}

/// `n` with the superscript `m`: `n` alone for 0, else `n^m`.
pub open spec fn with_superscript(n: nat, m: nat) -> Seq<char> {
    if m == 0 {
        decimal(n)
    } else {
        decimal(n) + "^"@ + decimal(m)
    }
}

/// `n` with each superscript from `lo` up to `upto`, excluded.
pub open spec fn superscripts(n: nat, lo: nat, upto: nat) -> Seq<Seq<char>>
    decreases upto,
{
    if upto <= lo {
        seq![]
    } else {
        superscripts(n, lo, (upto - 1) as nat).push(with_superscript(n, (upto - 1) as nat))
    }
}

/// The numbers one decimal number `n` of a dash range gives.
pub open spec fn range_entry(n: nat, start: nat, sr: Option<(nat, nat)>, skip_start: bool) -> Seq<Seq<char>> {
    match sr {
        Some((lo, hi)) => superscripts(n, lo, hi),
        None => if n == start && skip_start {
            seq![]
        } else {
            seq![decimal(n)]
        },
    }
}

/// The numbers of a dash range from `start` up to `upto`, excluded.
pub open spec fn range_numbers(start: nat, upto: nat, sr: Option<(nat, nat)>, skip_start: bool) -> Seq<Seq<char>>
    decreases upto,
{
    if upto <= start {
        seq![]
    } else {
        range_numbers(start, (upto - 1) as nat, sr, skip_start) + range_entry((upto - 1) as nat, start, sr, skip_start)
    }
}

/// Unicode white space (`char::is_whitespace`).
pub open spec fn is_white(c: char) -> bool {
    let v = c as u32;
    (0x09 <= v <= 0x0d) || v == 0x20 || v == 0x85 || v == 0xa0 || v == 0x1680 || (0x2000 <= v <= 0x200a) || v
        == 0x2028 || v == 0x2029 || v == 0x202f || v == 0x205f || v == 0x3000
}

/// The number of characters of a text that are not white space; a text with exactly one
/// is one character once trimmed.
pub open spec fn non_white_count(t: Seq<char>) -> nat
    decreases t.len(),
{
    if t.len() == 0 {
        0
    } else {
        non_white_count(t.drop_last()) + if is_white(t.last()) {
            0nat
        } else {
            1nat
        }
    }
}

/// The first byte of the UTF-8 writing of `c`.
pub open spec fn lead_byte(c: char) -> nat {
    let v = c as nat;
    if v < 0x80 {
        v
    } else if v < 0x800 {
        0xc0 + v / 64
    } else if v < 0x10000 {
        0xe0 + v / 4096
    } else {
        0xf0 + v / 262144
    }
}

/// A Latin-1 character that is alphabetic: `A`-`Z`, `a`-`z`, `ª`, `µ`, `º`, `À`-`Ö`,
/// `Ø`-`ö`, `ø`-`ÿ`.
pub open spec fn latin1_alphabetic(b: nat) -> bool {
    (0x41 <= b <= 0x5a) || (0x61 <= b <= 0x7a) || b == 0xaa || b == 0xb5 || b == 0xba || (0xc0 <= b <= 0xd6) || (0xd8
        <= b <= 0xf6) || (0xf8 <= b <= 0xff)
}

/// The first index of `t` in `order`.
pub open spec fn position_from(order: Seq<Seq<char>>, t: Seq<char>, i: int) -> Option<int>
    decreases order.len() - i,
{
    if i < 0 || i >= order.len() {
        None
    } else if order[i] == t {
        Some(i)
    } else {
        position_from(order, t, i + 1)
    }
}

/// The letters of a pair of one-letter numbers are a letter range: one character each
/// once trimmed, whose first UTF-8 byte read as a Latin-1 character is alphabetic.
pub open spec fn letter_pair(n1: Seq<char>, n2: Seq<char>) -> bool {
    &&& non_white_count(n1) == 1
    &&& non_white_count(n2) == 1
    &&& n1.len() > 0 && latin1_alphabetic(lead_byte(n1[0]))
    &&& n2.len() > 0 && latin1_alphabetic(lead_byte(n2[0]))
}

/// The letters from `n1` to `n2` in `order`, both included, when both are letters of it.
pub open spec fn letters_range(n1: Seq<char>, n2: Seq<char>, order: Seq<Seq<char>>) -> Seq<Seq<char>> {
    if letter_pair(n1, n2) {
        match (position_from(order, n1, 0), position_from(order, n2, 0)) {
            (Some(i), Some(j)) => order.subrange(i, j + 1),
            _ => seq![],
        }
    } else {
        seq![]
    }
}

/// A pair is a dash range of decimal numbers.
pub open spec fn dash_range(n1: Seq<char>, k: int, n2: Seq<char>) -> bool {
    first_value(n1) is Some && first_value(n2) is Some && k >= 4
}

/// The numbers a pair gives: the whole range for a dash range of decimal numbers;
/// otherwise the letters between them, if any, then the two numbers.
pub open spec fn pair_numbers(n1: Seq<char>, k: int, n2: Seq<char>, order: Seq<Seq<char>>) -> Seq<Seq<char>> {
    if dash_range(n1, k, n2) {
        range_numbers(
            first_value(n1)->0,
            first_value(n2)->0 + 1,
            second_range(n1, n2),
            second_value(n1) is Some,
        )
    } else {
        letters_range(n1, n2, order) + seq![n1, n2]
    }
}

/// A pair can be expanded: a superscript after the second number's `^` that fits below
/// `usize::MAX`, a range end below `usize::MAX`, and letters in order.
pub open spec fn pair_expandable(n1: Seq<char>, k: int, n2: Seq<char>, order: Seq<Seq<char>>) -> bool {
    &&& caret_from(n2, 0) is Some ==> (second_value(n2) matches Some(y) && y < usize::MAX)
    &&& dash_range(n1, k, n2) ==> first_value(n2)->0 < usize::MAX
    &&& !dash_range(n1, k, n2) && letter_pair(n1, n2) ==> match (position_from(order, n1, 0), position_from(order, n2, 0)) {
        (Some(i), Some(j)) => i <= j + 1,
        _ => true,
    }
}

/// The numbers of the pairs, one after the other.
pub open spec fn pairs_numbers(items: Seq<(Seq<char>, int, Seq<char>)>, order: Seq<Seq<char>>) -> Seq<Seq<char>>
    decreases items.len(),
{
    if items.len() == 0 {
        seq![]
    } else {
        pairs_numbers(items.drop_last(), order) + pair_numbers(items.last().0, items.last().1, items.last().2, order)
    }
}

/// The texts of a list of strings.
pub open spec fn texts(v: Seq<String>) -> Seq<Seq<char>> {
    v.map_values(|t: String| t@)
}

/// The characters of `cs` from `a` to `b`.
fn sub_chars(cs: &Vec<char>, a: usize, b: usize) -> (r: Vec<char>)
    requires
        a <= b <= cs@.len(),
    ensures
        r@ == cs@.subrange(a as int, b as int),
{
    let mut v: Vec<char> = Vec::new();
    let mut i = a;
    while i < b
        invariant
            a <= i <= b <= cs@.len(),
            v@ == cs@.subrange(a as int, i as int),
        decreases b - i,
    {
        v.push(cs[i]);
        i = i + 1;
        assert(v@ =~= cs@.subrange(a as int, i as int));
    }
    v
}

/// The first `^` of `t` at or after `i`.
fn caret_in(t: &Vec<char>, i: usize) -> (r: Option<usize>)
    requires
        i <= t@.len(),
    ensures
        r matches Some(k) ==> caret_from(t@, i as int) == Some(k as int) && k < t@.len(),
        r is None ==> caret_from(t@, i as int) is None,
{
    let mut k = i;
    while k < t.len()
        invariant
            i <= k <= t@.len(),
            caret_from(t@, i as int) == caret_from(t@, k as int),
        decreases t@.len() - k,
    {
        if t[k] == '^' {
            return Some(k);
        }
        k = k + 1;
    }
    None
}

/// Reads `t` from `a` to `b` as `str::parse::<usize>` does.
fn parse_usize_in(t: &Vec<char>, a: usize, b: usize) -> (r: Option<usize>)
    requires
        a <= b <= t@.len(),
    ensures
        r matches Some(x) ==> parse_usize_spec(t@.subrange(a as int, b as int)) == Some(x as nat),
        r is None ==> parse_usize_spec(t@.subrange(a as int, b as int)) is None,
{
    let ghost s = t@.subrange(a as int, b as int);
    let start: usize = if a < b && t[a] == '+' {
        a + 1
    } else {
        a
    };
    let ghost d = unsigned_digits(s);
    assert(d =~= t@.subrange(start as int, b as int));
    if start >= b {
        return None;
    }
    let mut value: u128 = 0;
    let mut i: usize = start;
    while i < b
        invariant
            a <= start <= i <= b <= t@.len(),
            d == t@.subrange(start as int, b as int),
            d == unsigned_digits(s),
            s == t@.subrange(a as int, b as int),
            all_digits(t@.subrange(start as int, i as int)),
            value == digits_value(t@.subrange(start as int, i as int)),
            value <= usize::MAX,
        decreases b - i,
    {
        let c = t[i];
        if !crate::text::digit_char(c) {
            assert(d[i - start] == c);
            return None;
        }
        let ghost prev = t@.subrange(start as int, i as int);
        let ghost next = t@.subrange(start as int, i + 1);
        assert(next.drop_last() =~= prev);
        let dv: u128 = (c as u128) - ('0' as u128);
        let nv: u128 = value * 10 + dv;
        i = i + 1;
        assert(all_digits(next));
        if nv > usize::MAX as u128 {
            proof {
                if all_digits(d) {
                    crate::text::lemma_digits_value_monotone(d, (i - start) as int);
                    assert(d.subrange(0, (i - start) as int) =~= next);
                }
            }
            return None;
        }
        value = nv;
    }
    assert(t@.subrange(start as int, b as int) =~= d);
    Some(value as usize)
}

/// The value of a number before its `^`, or of the whole number.
fn first_value_of(t: &Vec<char>) -> (r: Option<usize>)
    ensures
        r matches Some(x) ==> first_value(t@) == Some(x as nat),
        r is None ==> first_value(t@) is None,
{
    assert(t@.subrange(0, t@.len() as int) =~= t@);
    match caret_in(t, 0) {
        Some(i) => match parse_usize_in(t, 0, i) {
            Some(x) => Some(x),
            None => parse_usize_in(t, 0, t.len()),
        },
        None => parse_usize_in(t, 0, t.len()),
    }
}

/// The value of a number's superscript.
fn second_value_of(t: &Vec<char>) -> (r: Option<usize>)
    ensures
        r matches Some(x) ==> second_value(t@) == Some(x as nat),
        r is None ==> second_value(t@) is None,
{
    let n = t.len();
    match caret_in(t, 0) {
        Some(i) => parse_usize_in(t, i + 1, n),
        None => None,
    }
}

/// The decimal writing of a `usize`.
fn usize_text(n: usize) -> (r: String)
    ensures
        r@ == decimal(n as nat),
{
    crate::text::u64_to_string(n as u64)
}

/// `n` with the superscript `m`.
fn with_superscript_text(n: usize, m: usize) -> (r: String)
    ensures
        r@ == with_superscript(n as nat, m as nat),
{
    let mut r = usize_text(n);
    if m != 0 {
        let ghost d = r@;
        crate::text::push_char(&mut r, '^');
        let t = usize_text(m);
        crate::text::push_str(&mut r, t.as_str());
        proof {
            reveal_strlit("^");
            assert(r@ =~= d + "^"@ + decimal(m as nat));
        }
    }
    r
}

/// Adds a string to a list of strings.
fn push_text(out: &mut Vec<String>, t: String)
    ensures
        texts(final(out)@) == texts(old(out)@).push(t@),
{
    out.push(t);
    assert(texts(out@) =~= texts(old(out)@).push(t@));
}

/// Adds the numbers one decimal number of a dash range gives.
fn push_range_entry(out: &mut Vec<String>, n: usize, start: usize, sr: Option<(usize, usize)>, skip_start: bool)
    ensures
        texts(final(out)@) == texts(old(out)@) + range_entry(
            n as nat,
            start as nat,
            match sr {
                Some((lo, hi)) => Some((lo as nat, hi as nat)),
                None => None,
            },
            skip_start,
        ),
{
    match sr {
        Some((lo, hi)) => {
            let ghost base = texts(out@);
            let mut m = lo;
            if hi <= lo {
                assert(superscripts(n as nat, lo as nat, hi as nat) =~= Seq::<Seq<char>>::empty());
                assert(base + Seq::<Seq<char>>::empty() =~= base);
                return;
            }
            assert(superscripts(n as nat, lo as nat, lo as nat) =~= Seq::<Seq<char>>::empty());
            assert(base + Seq::<Seq<char>>::empty() =~= base);
            while m < hi
                invariant
                    lo <= m <= hi,
                    texts(out@) == base + superscripts(n as nat, lo as nat, m as nat),
                decreases hi - m,
            {
                let t = with_superscript_text(n, m);
                push_text(out, t);
                m = m + 1;
                assert(base + superscripts(n as nat, lo as nat, m as nat) =~= (base + superscripts(
                    n as nat,
                    lo as nat,
                    (m - 1) as nat,
                )).push(with_superscript(n as nat, (m - 1) as nat)));
            }
        },
        None => {
            if n == start && skip_start {
                assert(texts(out@) + Seq::<Seq<char>>::empty() =~= texts(out@));
            } else {
                let ghost base = texts(out@);
                push_text(out, usize_text(n));
                assert(base + seq![decimal(n as nat)] =~= base.push(decimal(n as nat)));
            }
        },
    }
}

/// The view of an optional range of `usize`s.
pub open spec fn range_view(sr: Option<(usize, usize)>) -> Option<(nat, nat)> {
    match sr {
        Some((lo, hi)) => Some((lo as nat, hi as nat)),
        None => None,
    }
}

/// Adds the numbers of a dash range from `start` to `last`, both included.
fn push_range(out: &mut Vec<String>, start: usize, last: usize, sr: Option<(usize, usize)>, skip_start: bool)
    requires
        last < usize::MAX,
    ensures
        texts(final(out)@) == texts(old(out)@) + range_numbers(start as nat, last as nat + 1, range_view(sr), skip_start),
{
    let ghost base = texts(out@);
    if last < start {
        assert(range_numbers(start as nat, last as nat + 1, range_view(sr), skip_start) =~= Seq::<Seq<char>>::empty());
        assert(base + Seq::<Seq<char>>::empty() =~= base);
        return;
    }
    let mut n = start;
    assert(range_numbers(start as nat, start as nat, range_view(sr), skip_start) =~= Seq::<Seq<char>>::empty());
    assert(base + Seq::<Seq<char>>::empty() =~= base);
    while n <= last
        invariant
            start <= n <= last + 1,
            last < usize::MAX,
            texts(out@) == base + range_numbers(start as nat, n as nat, range_view(sr), skip_start),
        decreases last + 1 - n,
    {
        let ghost before = texts(out@);
        push_range_entry(out, n, start, sr, skip_start);
        assert(range_numbers(start as nat, n as nat + 1, range_view(sr), skip_start) == range_numbers(
            start as nat,
            n as nat,
            range_view(sr),
            skip_start,
        ) + range_entry(n as nat, start as nat, range_view(sr), skip_start));
        assert(before + range_entry(n as nat, start as nat, range_view(sr), skip_start) =~= base + range_numbers(
            start as nat,
            n as nat + 1,
            range_view(sr),
            skip_start,
        ));
        n = n + 1;
    }
}

/// Whether `c` is Unicode white space.
fn white_char(c: char) -> (r: bool)
    ensures
        r == is_white(c),
{
    let v = c as u32;
    (0x09 <= v && v <= 0x0d) || v == 0x20 || v == 0x85 || v == 0xa0 || v == 0x1680 || (0x2000 <= v && v <= 0x200a)
        || v == 0x2028 || v == 0x2029 || v == 0x202f || v == 0x205f || v == 0x3000
}

/// The number of characters of `t` that are not white space.
fn non_white_in(t: &Vec<char>) -> (r: usize)
    ensures
        r == non_white_count(t@),
{
    let mut n: usize = 0;
    let mut i: usize = 0;
    while i < t.len()
        invariant
            i <= t@.len(),
            n == non_white_count(t@.subrange(0, i as int)),
            n <= i,
        decreases t@.len() - i,
    {
        if !white_char(t[i]) {
            n = n + 1;
        }
        i = i + 1;
        assert(t@.subrange(0, i as int).drop_last() =~= t@.subrange(0, i - 1));
    }
    assert(t@.subrange(0, t@.len() as int) =~= t@);
    n
}

/// Whether the first UTF-8 byte of `c`, read as a Latin-1 character, is alphabetic.
fn lead_byte_alphabetic(c: char) -> (r: bool)
    ensures
        r == latin1_alphabetic(lead_byte(c)),
{
    let v = c as u32;
    let b: u32 = if v < 0x80 {
        v
    } else if v < 0x800 {
        0xc0 + v / 64
    } else if v < 0x10000 {
        0xe0 + v / 4096
    } else {
        0xf0 + v / 262144
    };
    (0x41 <= b && b <= 0x5a) || (0x61 <= b && b <= 0x7a) || b == 0xaa || b == 0xb5 || b == 0xba || (0xc0 <= b && b
        <= 0xd6) || (0xd8 <= b && b <= 0xf6) || (0xf8 <= b && b <= 0xff)
}

/// Whether two lists of characters are the same.
fn same_chars(a: &Vec<char>, b: &Vec<char>) -> (r: bool)
    ensures
        r == (a@ == b@),
{
    if a.len() != b.len() {
        assert(a@.len() != b@.len());
        return false;
    }
    let mut i: usize = 0;
    while i < a.len()
        invariant
            a@.len() == b@.len(),
            i <= a@.len(),
            forall|k: int| 0 <= k < i ==> a@[k] == b@[k],
        decreases a@.len() - i,
    {
        if a[i] != b[i] {
            assert(a@[i as int] != b@[i as int]);
            return false;
        }
        i = i + 1;
    }
    assert(a@ =~= b@);
    true
}

/// The first index of `t` in `order`.
fn position_of(order: &Vec<String>, t: &Vec<char>) -> (r: Option<usize>)
    ensures
        r matches Some(i) ==> position_from(texts(order@), t@, 0) == Some(i as int) && i < order@.len(),
        r is None ==> position_from(texts(order@), t@, 0) is None,
{
    let ghost ov = texts(order@);
    let mut i: usize = 0;
    while i < order.len()
        invariant
            ov == texts(order@),
            i <= order@.len(),
            position_from(ov, t@, 0) == position_from(ov, t@, i as int),
        decreases order@.len() - i,
    {
        let w = chars_of(order[i].as_str());
        assert(ov[i as int] == order@[i as int]@);
        if same_chars(&w, t) {
            return Some(i);
        }
        i = i + 1;
    }
    None
}

/// Adds the letters of `order` from `i` to `j`, both included.
fn push_letters(out: &mut Vec<String>, order: &Vec<String>, i: usize, j: usize)
    requires
        i <= j + 1,
        j < order@.len(),
    ensures
        texts(final(out)@) == texts(old(out)@) + texts(order@).subrange(i as int, j + 1),
{
    let ghost base = texts(out@);
    let ghost ov = texts(order@);
    let n = order.len();
    let mut k = i;
    assert(ov.subrange(i as int, i as int) =~= Seq::<Seq<char>>::empty());
    assert(base + Seq::<Seq<char>>::empty() =~= base);
    while k <= j
        invariant
            i <= k <= j + 1,
            j < order@.len(),
            n == order@.len(),
            ov == texts(order@),
            texts(out@) == base + ov.subrange(i as int, k as int),
        decreases j + 1 - k,
    {
        let ghost before = texts(out@);
        let w = crate::text::string_of(order[k].as_str());
        assert(ov[k as int] == order@[k as int]@);
        push_text(out, w);
        assert(base + ov.subrange(i as int, k + 1) =~= before.push(ov[k as int]));
        k = k + 1;
    }
}

/// Adds the numbers of one pair: the numbers `cs[a..b]` and `cs[c..d]` joined by the
/// separator `k`.
fn push_pair_numbers(out: &mut Vec<String>, cs: &Vec<char>, a: usize, b: usize, k: usize, c: usize, d: usize, order: &Vec<String>)
    requires
        a <= b <= cs@.len(),
        c <= d <= cs@.len(),
        pair_expandable(cs@.subrange(a as int, b as int), k as int, cs@.subrange(c as int, d as int), texts(order@)),
    ensures
        texts(final(out)@) == texts(old(out)@) + pair_numbers(
            cs@.subrange(a as int, b as int),
            k as int,
            cs@.subrange(c as int, d as int),
            texts(order@),
        ),
{
    let t1 = sub_chars(cs, a, b);
    let t2 = sub_chars(cs, c, d);
    let f1 = first_value_of(&t1);
    let f2 = first_value_of(&t2);
    let s1 = second_value_of(&t1);
    let sr: Option<(usize, usize)> = match caret_in(&t2, 0) {
        Some(_) => {
            let lo = match s1 {
                Some(x) => x,
                None => 0,
            };
            let y = match second_value_of(&t2) {
                Some(y) => y,
                None => {
                    assert(false);
                    0
                },
            };
            Some((lo, y + 1))
        },
        None => None,
    };
    assert(range_view(sr) == second_range(t1@, t2@));
    let dash = f1.is_some() && f2.is_some() && k >= 4;
    if dash {
        let x1 = f1.unwrap();
        let x2 = f2.unwrap();
        push_range(out, x1, x2, sr, s1.is_some());
    } else {
        let ghost base = texts(out@);
        if non_white_in(&t1) == 1 && non_white_in(&t2) == 1 && t1.len() > 0 && lead_byte_alphabetic(t1[0]) && t2.len()
            > 0 && lead_byte_alphabetic(t2[0]) {
            let p1 = position_of(order, &t1);
            let p2 = position_of(order, &t2);
            match (p1, p2) {
                (Some(i), Some(j)) => {
                    push_letters(out, order, i, j);
                },
                _ => {
                    assert(base + Seq::<Seq<char>>::empty() =~= base);
                },
            }
        } else {
            assert(base + Seq::<Seq<char>>::empty() =~= base);
        }
        let ghost mid = texts(out@);
        push_text(out, string_of_range(cs.as_slice(), a, b));
        push_text(out, string_of_range(cs.as_slice(), c, d));
        assert(base + (letters_range(t1@, t2@, texts(order@)) + seq![t1@, t2@]) =~= mid.push(t1@).push(t2@));
    }
}

/// Every pair can be expanded.
pub open spec fn pairs_expandable(items: Seq<(Seq<char>, int, Seq<char>)>, order: Seq<Seq<char>>) -> bool {
    forall|i: int| 0 <= i < items.len() ==> pair_expandable(#[trigger] items[i].0, items[i].1, items[i].2, order)
}

/// The pairs read after `acc` keep `acc` in front.
proof fn lemma_pairs_prefix(s: Seq<char>, p: int, nc: Seq<char>, lt: Seq<char>, acc: Seq<(Seq<char>, int, Seq<char>)>)
    ensures
        acc.len() <= pairs_from(s, p, nc, lt, acc).1.len(),
        pairs_from(s, p, nc, lt, acc).1.subrange(0, acc.len() as int) == acc,
    decreases s.len() - p,
{
    match pair_at(s, p, nc, lt) {
        Ok((e, it)) => {
            if p < e <= s.len() {
                lemma_pairs_prefix(s, e, nc, lt, acc.push(it));
                let r = pairs_from(s, e, nc, lt, acc.push(it)).1;
                assert(r.subrange(0, acc.len() as int) =~= r.subrange(0, acc.len() as int + 1).subrange(0, acc.len() as int));
            } else {
                assert(acc.subrange(0, acc.len() as int) =~= acc);
            }
        },
        Err(_) => {
            assert(acc.subrange(0, acc.len() as int) =~= acc);
        },
    }
}

/// A sequence of numbers at `p`: where it ends and the numbers it gives.
pub open spec fn sequence_numbers_at(s: Seq<char>, p: int, nc: Seq<char>, lt: Seq<char>, order: Seq<Seq<char>>) -> Result<
    (int, Seq<Seq<char>>),
    (int, ErrorCode),
> {
    match pairs_at(s, p, nc, lt) {
        Err(x) => Err(x),
        Ok((e, items)) => Ok((e, pairs_numbers(items, order))),
    }
}

/// A sequence of numbers at the start of `s`: where it ends and the numbers it gives.
pub open spec fn number_sequence_at(s: Seq<char>, nc: Seq<char>, lt: Seq<char>, order: Seq<Seq<char>>) -> Result<
    (int, Seq<Seq<char>>),
    (int, ErrorCode),
> {
    sequence_numbers_at(s, 0, nc, lt, order)
}

/// A result on a whole text, read as the rest of the text and the numbers, or the error
/// with the text left where it failed.
pub open spec fn numbers_read(
    s: Seq<char>,
    q: Result<(int, Seq<Seq<char>>), (int, ErrorCode)>,
    r: Result<(&str, Vec<String>), ParserError>,
) -> bool {
    match q {
        Ok((e, nums)) => r matches Ok((rest, v)) && rest@ == s.subrange(e, s.len() as int) && texts(v@) == nums,
        Err((f, code)) => r matches Err(ParserError::NomError { input, code: c }) && input@ == s.subrange(
            f,
            s.len() as int,
        ) && c == code,
    }
}

/// A position result with strings, as integers and texts.
pub open spec fn strings_result(r: Result<(usize, Vec<String>), (usize, ErrorCode)>) -> Result<(int, Seq<Seq<char>>), (int, ErrorCode)> {
    match r {
        Ok((e, v)) => Ok((e as int, texts(v@))),
        Err((f, c)) => Err((f as int, c)),
    }
}

/// A sequence of numbers at `p`.
fn sequence_from(cs: &Vec<char>, p: usize, voc: &NumberVocabulary) -> (r: Result<(usize, Vec<String>), (usize, ErrorCode)>)
    requires
        p <= cs@.len(),
        pairs_at(cs@, p as int, voc.number_chars@, voc.letters@) matches Ok((_, items)) ==> pairs_expandable(
            items,
            texts(voc.letter_order@),
        ),
    ensures
        strings_result(r) == sequence_numbers_at(cs@, p as int, voc.number_chars@, voc.letters@, texts(voc.letter_order@)),
        r matches Ok((e, _)) ==> p < e <= cs@.len(),
        r matches Err((f, _)) ==> p <= f <= cs@.len(),
{
    let ghost nc = voc.number_chars@;
    let ghost lt = voc.letters@;
    let ghost order = texts(voc.letter_order@);
    match pair_from(cs, p, voc) {
        Err((f, code)) => Err((f, code)),
        Ok((e, ((a, b), k, (c, d)))) => {
            let ghost it0 = (cs@.subrange(a as int, b as int), k as int, cs@.subrange(c as int, d as int));
            let ghost items0 = seq![it0];
            let ghost fin = pairs_from(cs@, e as int, nc, lt, items0).1;
            proof {
                lemma_pairs_prefix(cs@, e as int, nc, lt, items0);
                assert(fin.subrange(0, 1)[0] == fin[0]);
                assert(items0[0] == it0);
                assert(fin[0] == it0);
            }
            let mut out: Vec<String> = Vec::new();
            assert(texts(out@) =~= Seq::<Seq<char>>::empty());
            push_pair_numbers(&mut out, cs, a, b, k, c, d, &voc.letter_order);
            let ghost mut items = items0;
            proof {
                assert(items0.drop_last() =~= Seq::<(Seq<char>, int, Seq<char>)>::empty());
                reveal_with_fuel(pairs_numbers, 2);
                assert(Seq::<Seq<char>>::empty() + pair_numbers(it0.0, it0.1, it0.2, order) =~= pairs_numbers(items0, order));
            }
            let mut pos = e;
            loop
                invariant
                    p < e <= pos <= cs@.len(),
                    nc == voc.number_chars@,
                    lt == voc.letters@,
                    order == texts(voc.letter_order@),
                    pairs_from(cs@, e as int, nc, lt, items0) == pairs_from(cs@, pos as int, nc, lt, items),
                    fin == pairs_from(cs@, e as int, nc, lt, items0).1,
                    pairs_expandable(fin, order),
                    items.len() <= fin.len(),
                    fin.subrange(0, items.len() as int) == items,
                    texts(out@) == pairs_numbers(items, order),
                ensures
                    p < e <= pos <= cs@.len(),
                    pairs_from(cs@, e as int, nc, lt, items0) == (pos as int, items),
                    texts(out@) == pairs_numbers(items, order),
                decreases cs@.len() - pos,
            {
                match pair_from(cs, pos, voc) {
                    Ok((e2, ((a2, b2), k2, (c2, d2)))) => {
                        let ghost it = (cs@.subrange(a2 as int, b2 as int), k2 as int, cs@.subrange(c2 as int, d2 as int));
                        proof {
                            lemma_pairs_prefix(cs@, e2 as int, nc, lt, items.push(it));
                            let f2 = pairs_from(cs@, e2 as int, nc, lt, items.push(it)).1;
                            assert(f2 == fin);
                            assert(fin.subrange(0, items.len() as int + 1)[items.len() as int] == it);
                            assert(fin[items.len() as int] == it);
                            assert(pair_expandable(fin[items.len() as int].0, fin[items.len() as int].1, fin[items.len() as int].2, order));
                        }
                        push_pair_numbers(&mut out, cs, a2, b2, k2, c2, d2, &voc.letter_order);
                        proof {
                            assert(items.push(it).drop_last() =~= items);
                            items = items.push(it);
                            assert(fin.subrange(0, items.len() as int) =~= items);
                        }
                        pos = e2;
                    },
                    Err(_) => {
                        break;
                    },
                }
            }
            proof {
                assert(pair_at(cs@, p as int, nc, lt) == Ok::<(int, (Seq<char>, int, Seq<char>)), (int, ErrorCode)>((e as int, it0)));
            }
            Ok((pos, out))
        },
    }
}

/// `10, 11, 13 - 17`, `2^2 - 2^9`, `"з" - "ю"`: one or more pairs of numbers; each pair
/// gives the whole range where a dash joins two decimal numbers (with the superscripts
/// from the first's, or none, to the second's where the second has one), else the letters
/// from the first to the second, if both are letters of the vocabulary's order, then the
/// two numbers.
pub fn number_sequence<'a>(s: &'a str, voc: &NumberVocabulary) -> (r: Result<(&'a str, Vec<String>), ParserError>)
    requires
        pairs_at(s@, 0, voc.number_chars@, voc.letters@) matches Ok((_, items)) ==> pairs_expandable(
            items,
            texts(voc.letter_order@),
        ),
    ensures
        numbers_read(s@, number_sequence_at(s@, voc.number_chars@, voc.letters@, texts(voc.letter_order@)), r),
{
    let cs = chars_of(s);
    match sequence_from(&cs, 0, voc) {
        Err((f, code)) => Err(ParserError::NomError { input: string_of_range(cs.as_slice(), f, cs.len()), code }),
        Ok((e, out)) => Ok((s.substring_char(e, cs.len()), out)),
    }
}

/// A number and any spaces after it, at the start of `s`: the rest and the number.
pub open spec fn number_at(s: Seq<char>, nc: Seq<char>, lt: Seq<char>) -> Result<(int, Seq<Seq<char>>), (int, ErrorCode)> {
    number_from(s, 0, nc, lt)
}

/// A number and any spaces after it, at `p`: where they end and the number.
pub open spec fn number_from(s: Seq<char>, p: int, nc: Seq<char>, lt: Seq<char>) -> Result<(int, Seq<Seq<char>>), (int, ErrorCode)> {
    match verify_number_at(s, p, nc, lt) {
        Err(x) => Err(x),
        Ok((e, (a, b))) => Ok((space_end(s, e), seq![s.subrange(a, b)])),
    }
}

/// A number and any spaces after it, at `p`.
fn number_from_pos(cs: &Vec<char>, p: usize, voc: &NumberVocabulary) -> (r: Result<(usize, Vec<String>), (usize, ErrorCode)>)
    requires
        p <= cs@.len(),
    ensures
        strings_result(r) == number_from(cs@, p as int, voc.number_chars@, voc.letters@),
        r matches Ok((e, _)) ==> p < e <= cs@.len(),
        r matches Err((f, _)) ==> f == p,
{
    match verify_number_from(cs, p, voc) {
        Err(x) => Err(x),
        Ok((e, (a, b))) => {
            let e2 = spaces_end(cs, e);
            let mut out: Vec<String> = Vec::new();
            push_text(&mut out, string_of_range(cs.as_slice(), a, b));
            assert(texts(out@) =~= seq![cs@.subrange(a as int, b as int)]);
            Ok((e2, out))
        },
    }
}

/// One number, then any spaces: the rest of the text and the number alone in a list.
pub fn number<'a>(s: &'a str, voc: &NumberVocabulary) -> (r: Result<(&'a str, Vec<String>), ParserError>)
    ensures
        numbers_read(s@, number_at(s@, voc.number_chars@, voc.letters@), r),
{
    let cs = chars_of(s);
    match number_from_pos(&cs, 0, voc) {
        Err((f, code)) => Err(ParserError::NomError { input: string_of_range(cs.as_slice(), f, cs.len()), code }),
        Ok((e, out)) => Ok((s.substring_char(e, cs.len()), out)),
    }
}

/// Why reading a path stopped: a step of the grammar refused the text at a position, a
/// paragraph word was not one of the vocabulary's at a position, or a unit could not be
/// added to the path.
pub ghost enum PathFail {
    Code(int, ErrorCode),
    IndentTokens(int),
    Refused(StepDesc),
}

/// The number of the paragraph word `w` in the table, from entry `i` on: the first entry
/// with that word.
pub open spec fn indent_value_from(t: Seq<(String, usize)>, w: Seq<char>, i: int) -> Option<nat>
    decreases t.len() - i,
{
    if i < 0 || i >= t.len() {
        None
    } else if t[i].0@ == w {
        Some(t[i].1 as nat)
    } else {
        indent_value_from(t, w, i + 1)
    }
}

/// A paragraph word at `p`: a run of letters longer than five bytes that the table
/// knows; where it ends and its number.
pub open spec fn indent_word_at(s: Seq<char>, p: int, voc: NumberVocabulary) -> Result<(int, nat), PathFail> {
    let e = run_end(s, p, voc.letters@);
    if e <= p {
        Err(PathFail::Code(p, ErrorCode::IsA))
    } else if byte_len(s.subrange(p, e)) > 5 && indent_value_from(voc.indent_numbers@, s.subrange(p, e), 0) is Some {
        Ok((e, indent_value_from(voc.indent_numbers@, s.subrange(p, e), 0)->0))
    } else {
        Err(PathFail::IndentTokens(p))
    }
}

/// The numbers from `a` to `b`, both included.
pub open spec fn value_range(a: nat, b: nat) -> Seq<nat> {
    Seq::new(if a <= b { (b - a + 1) as nat } else { 0 }, |i: int| (a + i) as nat)
}

/// The end of what follows a pair: `, ` or any spaces.
pub open spec fn after_pair(s: Seq<char>, p: int) -> int {
    if has_tag(s, p, ", "@) {
        p + 2
    } else {
        space_end(s, p)
    }
}

/// Two paragraph words joined by a separator, then `, ` or spaces: where it ends and the
/// numbers from the first to the second.
pub open spec fn indent_pair_at(s: Seq<char>, p: int, voc: NumberVocabulary) -> Result<(int, Seq<nat>), PathFail> {
    match indent_word_at(s, p, voc) {
        Err(f) => Err(f),
        Ok((p1, v1)) => match separator_at(s, p1) {
            Err((f, c)) => Err(PathFail::Code(f, c)),
            Ok((p2, _)) => match indent_word_at(s, p2, voc) {
                Err(f) => Err(f),
                Ok((p3, v2)) => Ok((after_pair(s, p3), value_range(v1, v2))),
            },
        },
    }
}

/// The numbers of the pairs of paragraph words read from `p`, after `acc`.
pub open spec fn indent_pairs_from(s: Seq<char>, p: int, voc: NumberVocabulary, acc: Seq<nat>) -> (int, Seq<nat>)
    decreases s.len() - p,
{
    match indent_pair_at(s, p, voc) {
        Ok((e, vs)) => if p < e <= s.len() {
            indent_pairs_from(s, e, voc, acc + vs)
        } else {
            (p, acc)
        },
        Err(_) => (p, acc),
    }
}

/// Paragraph numbers at `p`: one or more pairs of words, else one word and any spaces.
pub open spec fn indent_numbers_at(s: Seq<char>, p: int, voc: NumberVocabulary) -> Result<(int, Seq<nat>), PathFail> {
    match indent_pair_at(s, p, voc) {
        Ok((e, vs)) => Ok(indent_pairs_from(s, e, voc, vs)),
        Err(_) => match indent_word_at(s, p, voc) {
            Ok((e, v)) => Ok((space_end(s, e), seq![v])),
            Err(f) => Err(f),
        },
    }
}

/// Why reading stopped, as the reader holds it: where and why a step refused the text,
/// where a paragraph word was not known, or the error adding a step gave.
pub enum PathStop {
    At(usize, ErrorCode),
    IndentTokens(usize),
    Refused(ParserError),
}

/// The reader's reason agrees with the grammar's.
pub open spec fn stop_agrees(st: PathStop, f: PathFail) -> bool {
    match (st, f) {
        (PathStop::At(p, c), PathFail::Code(q, d)) => p == q && c == d,
        (PathStop::IndentTokens(p), PathFail::IndentTokens(q)) => p == q,
        (PathStop::Refused(e), PathFail::Refused(d)) => step_error(d, e),
        _ => false,
    }
}

/// The positions a reason holds are within a text of length `n`.
pub open spec fn stop_in(st: PathStop, n: nat) -> bool {
    match st {
        PathStop::At(p, _) => p <= n,
        PathStop::IndentTokens(p) => p <= n,
        PathStop::Refused(_) => true,
    }
}

/// The values of a list of numbers.
pub open spec fn usizes(v: Seq<usize>) -> Seq<nat> {
    v.map_values(|x: usize| x as nat)
}

/// The number of the paragraph word `cs[a..b]` in the table.
pub(crate) fn indent_value_of(voc: &NumberVocabulary, cs: &Vec<char>, a: usize, b: usize) -> (r: Option<usize>)
    requires
        a <= b <= cs@.len(),
    ensures
        indent_value_from(voc.indent_numbers@, cs@.subrange(a as int, b as int), 0) == match r {
            Some(v) => Some(v as nat),
            None => None::<nat>,
        },
{
    let w = sub_chars(cs, a, b);
    let mut i: usize = 0;
    while i < voc.indent_numbers.len()
        invariant
            i <= voc.indent_numbers@.len(),
            w@ == cs@.subrange(a as int, b as int),
            indent_value_from(voc.indent_numbers@, w@, 0) == indent_value_from(voc.indent_numbers@, w@, i as int),
        decreases voc.indent_numbers@.len() - i,
    {
        let k = chars_of(voc.indent_numbers[i].0.as_str());
        if same_chars(&k, &w) {
            return Some(voc.indent_numbers[i].1);
        }
        i = i + 1;
    }
    None
}

/// A paragraph word at `p`.
fn indent_word_from(cs: &Vec<char>, p: usize, voc: &NumberVocabulary) -> (r: Result<(usize, usize), PathStop>)
    requires
        p <= cs@.len(),
    ensures
        match indent_word_at(cs@, p as int, *voc) {
            Ok((e, v)) => r matches Ok((e2, v2)) && e2 == e && v2 == v,
            Err(f) => r matches Err(st) && stop_agrees(st, f),
        },
        r matches Ok((e, _)) ==> p < e <= cs@.len(),
        r matches Err(st) ==> stop_in(st, cs@.len()),
{
    let e = run_end_at(cs, p, &voc.letters);
    if e <= p {
        return Err(PathStop::At(p, ErrorCode::IsA));
    }
    let w = string_of_range(cs.as_slice(), p, e);
    let n = w.as_str().len();
    assert(n == byte_len(cs@.subrange(p as int, e as int)));
    if n > 5 {
        match indent_value_of(voc, cs, p, e) {
            Some(v) => {
                return Ok((e, v));
            },
            None => {},
        }
    }
    Err(PathStop::IndentTokens(p))
}

/// Appends the numbers from `a` to `b`, both included.
fn push_value_range(out: &mut Vec<usize>, a: usize, b: usize)
    ensures
        usizes(final(out)@) == usizes(old(out)@) + value_range(a as nat, b as nat),
{
    let ghost start = usizes(out@);
    if a > b {
        assert(value_range(a as nat, b as nat) =~= Seq::<nat>::empty());
        assert(usizes(out@) =~= start + value_range(a as nat, b as nat));
        return;
    }
    let mut n: usize = a;
    loop
        invariant_except_break
            a <= n <= b,
            usizes(out@) == start + value_range(a as nat, n as nat).subrange(0, (n - a) as int),
        ensures
            usizes(out@) == start + value_range(a as nat, b as nat),
        decreases b - n,
    {
        let ghost before = usizes(out@);
        out.push(n);
        proof {
            assert(usizes(out@) =~= before.push(n as nat));
        }
        if n == b {
            assert(value_range(a as nat, b as nat) =~= value_range(a as nat, n as nat).subrange(0, (n - a) as int).push(n as nat));
            break;
        }
        assert(value_range(a as nat, (n + 1) as nat).subrange(0, (n + 1 - a) as int) =~= value_range(a as nat, n as nat).subrange(0, (n - a) as int).push(n as nat));
        n = n + 1;
    }
}

/// A pair of paragraph words at `p`.
fn indent_pair_from(cs: &Vec<char>, p: usize, voc: &NumberVocabulary) -> (r: Result<(usize, Vec<usize>), PathStop>)
    requires
        p <= cs@.len(),
    ensures
        match indent_pair_at(cs@, p as int, *voc) {
            Ok((e, vs)) => r matches Ok((e2, v2)) && e2 == e && usizes(v2@) == vs,
            Err(f) => r matches Err(st) && stop_agrees(st, f),
        },
        r matches Ok((e, _)) ==> p < e <= cs@.len(),
        r matches Err(st) ==> stop_in(st, cs@.len()),
{
    match indent_word_from(cs, p, voc) {
        Err(x) => Err(x),
        Ok((p1, v1)) => match separator_from(cs, p1) {
            Err((f, c)) => Err(PathStop::At(f, c)),
            Ok((p2, _)) => match indent_word_from(cs, p2, voc) {
                Err(x) => Err(x),
                Ok((p3, v2)) => {
                    let n = cs.len();
                    let e = if tag_at(cs, p3, ", ") {
                        p3 + ", ".unicode_len()
                    } else {
                        spaces_end(cs, p3)
                    };
                    proof {
                        reveal_strlit(", ");
                    }
                    let mut out: Vec<usize> = Vec::new();
                    assert(usizes(out@) =~= Seq::<nat>::empty());
                    push_value_range(&mut out, v1, v2);
                    assert(Seq::<nat>::empty() + value_range(v1 as nat, v2 as nat) =~= value_range(v1 as nat, v2 as nat));
                    Ok((e, out))
                },
            },
        },
    }
}

/// One or more pairs of paragraph words at `p`: where they end and the numbers.
pub open spec fn indent_sequence_at(s: Seq<char>, p: int, voc: NumberVocabulary) -> Result<(int, Seq<nat>), PathFail> {
    match indent_pair_at(s, p, voc) {
        Ok((e, vs)) => Ok(indent_pairs_from(s, e, voc, vs)),
        Err(f) => Err(f),
    }
}

/// One paragraph word and any spaces at `p`: where they end and its number.
pub open spec fn indent_single_at(s: Seq<char>, p: int, voc: NumberVocabulary) -> Result<(int, Seq<nat>), PathFail> {
    match indent_word_at(s, p, voc) {
        Ok((e, v)) => Ok((space_end(s, e), seq![v])),
        Err(f) => Err(f),
    }
}

/// One or more pairs of paragraph words at `p`.
fn indent_sequence_from(cs: &Vec<char>, p: usize, voc: &NumberVocabulary) -> (r: Result<(usize, Vec<usize>), PathStop>)
    requires
        p <= cs@.len(),
    ensures
        match indent_sequence_at(cs@, p as int, *voc) {
            Ok((e, vs)) => r matches Ok((e2, v2)) && e2 == e && usizes(v2@) == vs,
            Err(f) => r matches Err(st) && stop_agrees(st, f),
        },
        r matches Ok((e, _)) ==> p < e <= cs@.len(),
        r matches Err(st) ==> stop_in(st, cs@.len()),
{
    match indent_pair_from(cs, p, voc) {
        Ok((e, first)) => {
            let mut out = first;
            let mut pos = e;
            loop
                invariant
                    p < pos <= cs@.len(),
                    indent_pairs_from(cs@, e as int, *voc, usizes(first@)) == indent_pairs_from(cs@, pos as int, *voc, usizes(out@)),
                ensures
                    p < pos <= cs@.len(),
                    indent_pairs_from(cs@, e as int, *voc, usizes(first@)) == (pos as int, usizes(out@)),
                decreases cs@.len() - pos,
            {
                match indent_pair_from(cs, pos, voc) {
                    Ok((e2, more)) => {
                        let ghost before = usizes(out@);
                        let mut k: usize = 0;
                        while k < more.len()
                            invariant
                                k <= more@.len(),
                                usizes(out@) == before + usizes(more@).subrange(0, k as int),
                            decreases more@.len() - k,
                        {
                            let ghost mid = usizes(out@);
                            out.push(more[k]);
                            assert(usizes(out@) =~= mid.push(more@[k as int] as nat));
                            k = k + 1;
                            assert(usizes(more@).subrange(0, k as int) =~= usizes(more@).subrange(0, k - 1).push(more@[k - 1] as nat));
                            assert(usizes(out@) =~= before + usizes(more@).subrange(0, k as int));
                        }
                        assert(usizes(more@).subrange(0, k as int) =~= usizes(more@));
                        pos = e2;
                    },
                    Err(_) => {
                        break;
                    },
                }
            }
            Ok((pos, out))
        },
        Err(x) => Err(x),
    }
}

/// One paragraph word and any spaces at `p`.
fn indent_single_from(cs: &Vec<char>, p: usize, voc: &NumberVocabulary) -> (r: Result<(usize, Vec<usize>), PathStop>)
    requires
        p <= cs@.len(),
    ensures
        match indent_single_at(cs@, p as int, *voc) {
            Ok((e, vs)) => r matches Ok((e2, v2)) && e2 == e && usizes(v2@) == vs,
            Err(f) => r matches Err(st) && stop_agrees(st, f),
        },
        r matches Ok((e, _)) ==> p < e <= cs@.len(),
        r matches Err(st) ==> stop_in(st, cs@.len()),
{
    match indent_word_from(cs, p, voc) {
        Ok((e, v)) => {
            let e2 = spaces_end(cs, e);
            let mut out: Vec<usize> = Vec::new();
            out.push(v);
            assert(usizes(out@) =~= seq![v as nat]);
            Ok((e2, out))
        },
        Err(x) => Err(x),
    }
}

/// Paragraph numbers at `p`.
fn indent_numbers_from(cs: &Vec<char>, p: usize, voc: &NumberVocabulary) -> (r: Result<(usize, Vec<usize>), PathStop>)
    requires
        p <= cs@.len(),
    ensures
        match indent_numbers_at(cs@, p as int, *voc) {
            Ok((e, vs)) => r matches Ok((e2, v2)) && e2 == e && usizes(v2@) == vs,
            Err(f) => r matches Err(st) && stop_agrees(st, f),
        },
        r matches Ok((e, _)) ==> p < e <= cs@.len(),
        r matches Err(st) ==> stop_in(st, cs@.len()),
{
    match indent_sequence_from(cs, p, voc) {
        Ok(x) => Ok(x),
        Err(_) => indent_single_from(cs, p, voc),
    }
}

/// One step a unit sequence asks for: a header (its word and number text), a numbered
/// unit (its word and number text) or a paragraph (its number).
pub ghost enum StepDesc {
    Header(Seq<char>, Seq<char>),
    Item(Seq<char>, Seq<char>),
    Indent(nat),
}

/// The step cannot be added to a path: the word names no unit of its kind, or the
/// number cannot be read.
pub open spec fn step_refused(d: StepDesc) -> bool {
    match d {
        StepDesc::Header(w, n) => header_of_lowercase(lowercased(w)) is None || parse_parts(
            n,
            0,
            NumberIndex::Normal,
            seq![],
        ) is Err,
        StepDesc::Item(w, n) => parse_parts(n, 0, NumberIndex::Normal, seq![]) is Err || item_of_lowercase(
            lowercased(w),
        ) is None,
        StepDesc::Indent(_) => false,
    }
}

/// `step` is the path step that `d` asks for.
pub open spec fn step_built(d: StepDesc, step: ChangePath) -> bool {
    match d {
        StepDesc::Header(w, n) => header_of_lowercase(lowercased(w)) matches Some(h) && parse_parts(
            n,
            0,
            NumberIndex::Normal,
            seq![],
        ) matches Ok((_, parts)) && step matches ChangePath::Header { number: x, header_type: t } && x@
            == parts && t == h,
        StepDesc::Item(w, n) => item_of_lowercase(lowercased(w)) matches Some(k) && parse_parts(
            n,
            0,
            NumberIndex::Normal,
            seq![],
        ) matches Ok((_, parts)) && step matches ChangePath::Item { number: x, item_type: t } && x@
            == parts && t == k,
        StepDesc::Indent(v) => step == ChangePath::Indent(v as u32),
    }
}

/// `e` is the error adding the refused step `d` gives: the unknown word, else the number
/// left where it could not be read (for a unit, the number is read first).
pub open spec fn step_error(d: StepDesc, e: ParserError) -> bool {
    match d {
        StepDesc::Header(w, n) => match header_of_lowercase(lowercased(w)) {
            None => e matches ParserError::OperationError(m) && m@ == not_a_header_message(w),
            Some(_) => match parse_parts(n, 0, NumberIndex::Normal, seq![]) {
                Err(p) => e matches ParserError::NomError { input, code } && input@ == n.subrange(p, n.len() as int)
                    && code == ErrorCode::Digit,
                Ok(_) => false,
            },
        },
        StepDesc::Item(w, n) => match parse_parts(n, 0, NumberIndex::Normal, seq![]) {
            Err(p) => e matches ParserError::NomError { input, code } && input@ == n.subrange(p, n.len() as int)
                && code == ErrorCode::Digit,
            Ok(_) => match item_of_lowercase(lowercased(w)) {
                None => e matches ParserError::OperationError(m) && m@ == not_an_item_message(w),
                Some(_) => false,
            },
        },
        StepDesc::Indent(_) => false,
    }
}

/// The kinds of unit a sequence names.
#[derive(Clone, Copy)]
pub enum UnitKind {
    Header,
    Item,
    Indent,
}

/// The words that open a sequence of units of a kind, in the order tried.
pub open spec fn unit_words(k: UnitKind) -> Seq<Seq<char>> {
    match k {
        UnitKind::Header => seq![
            "статьями"@,
            "статьей"@,
            "статье"@,
            "статьи"@,
            "статью"@,
            "главами"@,
            "главой"@,
            "глава"@,
            "главы"@,
            "главу"@,
        ],
        UnitKind::Item => seq![
            "подпунктами"@,
            "подпунктом"@,
            "подпункте"@,
            "подпункты"@,
            "подпункт"@,
            "пунктами"@,
            "пунктом"@,
            "пунктов"@,
            "пункте"@,
            "пункта"@,
            "пункты"@,
            "пункт"@,
            "частями"@,
            "частью"@,
            "часть"@,
            "части"@,
        ],
        UnitKind::Indent => seq!["абзацами"@, "абзацем"@, "абзаце"@, "абзацы"@, "абзац"@],
    }
}

/// Every sequence of number pairs in `s` can be expanded.
pub open spec fn numbers_expandable(s: Seq<char>, voc: NumberVocabulary) -> bool {
    forall|p: int|
        0 <= p <= s.len() ==> match #[trigger] pairs_at(s, p, voc.number_chars@, voc.letters@) {
            Ok((_, items)) => pairs_expandable(items, texts(voc.letter_order@)),
            Err(_) => true,
        }
}

/// The numbers of a header or a numbered unit at `p`: a sequence, else one number, else
/// (for a numbered unit) paragraph words written as their numbers.
pub open spec fn unit_numbers_at(s: Seq<char>, p: int, k: UnitKind, voc: NumberVocabulary) -> Result<(int, Seq<Seq<char>>), PathFail> {
    match sequence_numbers_at(s, p, voc.number_chars@, voc.letters@, texts(voc.letter_order@)) {
        Ok(x) => Ok(x),
        Err(_) => match number_from(s, p, voc.number_chars@, voc.letters@) {
            Ok(x) => Ok(x),
            Err((f, c)) => if k is Item {
                match indent_numbers_at(s, p, voc) {
                    Ok((e, vs)) => Ok((e, vs.map_values(|v: nat| decimal(v)))),
                    Err(g) => Err(g),
                }
            } else {
                Err(PathFail::Code(f, c))
            },
        },
    }
}

/// The steps a header or numbered-unit entry asks for, one per number.
pub open spec fn text_descs(k: UnitKind, w: Seq<char>, ns: Seq<Seq<char>>) -> Seq<StepDesc> {
    ns.map_values(|n: Seq<char>| if k is Header { StepDesc::Header(w, n) } else { StepDesc::Item(w, n) })
}

/// The steps a paragraph entry asks for, one per number.
pub open spec fn value_descs(vs: Seq<nat>) -> Seq<StepDesc> {
    vs.map_values(|v: nat| StepDesc::Indent(v))
}

/// The end of what follows an entry: `, `, `и ` or any spaces.
pub open spec fn entry_end(s: Seq<char>, e: int) -> int {
    if has_tag(s, e, ", "@) || has_tag(s, e, "и "@) {
        e + 2
    } else {
        space_end(s, e)
    }
}

/// One entry at `p`: a word of the kind (case aside), at least one space, the numbers,
/// then `, `, `и ` or spaces; where it ends and the steps it asks for.
pub open spec fn entry_at(s: Seq<char>, p: int, k: UnitKind, voc: NumberVocabulary) -> Result<(int, Seq<StepDesc>), PathFail> {
    match first_tag(s, p, unit_words(k), true) {
        None => Err(PathFail::Code(p, ErrorCode::Tag)),
        Some(i) => {
            let q = p + unit_words(k)[i].len();
            let r = space_end(s, q);
            if r <= q {
                Err(PathFail::Code(q, ErrorCode::Space))
            } else if k is Indent {
                match indent_numbers_at(s, r, voc) {
                    Ok((e, vs)) => Ok((entry_end(s, e), value_descs(vs))),
                    Err(f) => Err(f),
                }
            } else {
                match unit_numbers_at(s, r, k, voc) {
                    Ok((e, ns)) => Ok((entry_end(s, e), text_descs(k, s.subrange(p, q), ns))),
                    Err(f) => Err(f),
                }
            }
        },
    }
}

/// The steps of the entries read from `p`, after `acc`.
pub open spec fn entries_from(s: Seq<char>, p: int, k: UnitKind, voc: NumberVocabulary, acc: Seq<StepDesc>) -> (
    int,
    Seq<StepDesc>,
)
    decreases s.len() - p,
{
    match entry_at(s, p, k, voc) {
        Ok((e, ds)) => if p < e <= s.len() {
            entries_from(s, e, k, voc, acc + ds)
        } else {
            (p, acc)
        },
        Err(_) => (p, acc),
    }
}

/// The first step from `i` on that cannot be added.
pub open spec fn first_refused_from(ds: Seq<StepDesc>, i: int) -> Option<int>
    decreases ds.len() - i,
{
    if i < 0 || i >= ds.len() {
        None
    } else if step_refused(ds[i]) {
        Some(i)
    } else {
        first_refused_from(ds, i + 1)
    }
}

/// A sequence of units of a kind at `p`: one or more entries, whose steps are then added
/// in order; where it ends and the steps, or why it fails.
pub open spec fn unit_seq_at(s: Seq<char>, p: int, k: UnitKind, voc: NumberVocabulary) -> Result<(int, Seq<StepDesc>), PathFail> {
    match entry_at(s, p, k, voc) {
        Err(f) => Err(f),
        Ok((e, ds)) => {
            let (e2, all) = entries_from(s, e, k, voc, ds);
            match first_refused_from(all, 0) {
                Some(i) => Err(PathFail::Refused(all[i])),
                None => Ok((e2, all)),
            }
        },
    }
}

/// The steps of a path are those asked for, in order.
pub open spec fn steps_built(ds: Seq<StepDesc>, steps: Seq<ChangePath>) -> bool {
    ds.len() == steps.len() && forall|i: int| 0 <= i < ds.len() ==> step_built(#[trigger] ds[i], steps[i])
}

/// The error a path grammar gives for a failure on `s`.
pub open spec fn path_error(s: Seq<char>, f: PathFail, e: ParserError) -> bool {
    match f {
        PathFail::Code(p, c) => e matches ParserError::NomError { input, code } && input@ == s.subrange(p, s.len() as int)
            && code == c,
        PathFail::IndentTokens(p) => e matches ParserError::IndentQueueTokensError(t) && t@ == s.subrange(
            p,
            s.len() as int,
        ),
        PathFail::Refused(d) => step_error(d, e),
    }
}

/// A step asked for, with its texts.
enum ExecDesc {
    Header(String, String),
    Item(String, String),
    Indent(usize),
}

/// The step an executable description stands for.
spec fn desc_view(d: ExecDesc) -> StepDesc {
    match d {
        ExecDesc::Header(w, n) => StepDesc::Header(w@, n@),
        ExecDesc::Item(w, n) => StepDesc::Item(w@, n@),
        ExecDesc::Indent(v) => StepDesc::Indent(v as nat),
    }
}

/// The steps a list of descriptions stands for.
spec fn descs_view(v: Seq<ExecDesc>) -> Seq<StepDesc> {
    v.map_values(|d: ExecDesc| desc_view(d))
}

/// The words of a kind, in the order tried.
fn unit_word_list(k: UnitKind) -> (r: Vec<&'static str>)
    ensures
        words_view(r@) == unit_words(k),
{
    let v: Vec<&'static str> = match k {
        UnitKind::Header => vec![
            "статьями",
            "статьей",
            "статье",
            "статьи",
            "статью",
            "главами",
            "главой",
            "глава",
            "главы",
            "главу",
        ],
        UnitKind::Item => vec![
            "подпунктами",
            "подпунктом",
            "подпункте",
            "подпункты",
            "подпункт",
            "пунктами",
            "пунктом",
            "пунктов",
            "пункте",
            "пункта",
            "пункты",
            "пункт",
            "частями",
            "частью",
            "часть",
            "части",
        ],
        UnitKind::Indent => vec!["абзацами", "абзацем", "абзаце", "абзацы", "абзац"],
    };
    assert(words_view(v@) =~= unit_words(k));
    v
}

/// The numbers of a header or numbered unit at `p`.
fn unit_numbers_from(cs: &Vec<char>, p: usize, k: UnitKind, voc: &NumberVocabulary) -> (r: Result<(usize, Vec<String>), PathStop>)
    requires
        p <= cs@.len(),
        numbers_expandable(cs@, *voc),
    ensures
        match unit_numbers_at(cs@, p as int, k, *voc) {
            Ok((e, ns)) => r matches Ok((e2, v)) && e2 == e && texts(v@) == ns,
            Err(f) => r matches Err(st) && stop_agrees(st, f),
        },
        r matches Ok((e, _)) ==> p < e <= cs@.len(),
        r matches Err(st) ==> stop_in(st, cs@.len()),
{
    assert(match pairs_at(cs@, p as int, voc.number_chars@, voc.letters@) {
        Ok((_, items)) => pairs_expandable(items, texts(voc.letter_order@)),
        Err(_) => true,
    });
    match sequence_from(cs, p, voc) {
        Ok(x) => Ok(x),
        Err(_) => match number_from_pos(cs, p, voc) {
            Ok(x) => Ok(x),
            Err((f, c)) => match k {
                UnitKind::Item => match indent_numbers_from(cs, p, voc) {
                    Ok((e, vs)) => {
                        let mut out: Vec<String> = Vec::new();
                        let mut i: usize = 0;
                        while i < vs.len()
                            invariant
                                i <= vs@.len(),
                                texts(out@) == usizes(vs@).subrange(0, i as int).map_values(|v: nat| decimal(v)),
                            decreases vs@.len() - i,
                        {
                            let ghost before = texts(out@);
                            push_text(&mut out, usize_text(vs[i]));
                            i = i + 1;
                            assert(usizes(vs@).subrange(0, i as int).map_values(|v: nat| decimal(v)) =~= before.push(
                                decimal(vs@[i - 1] as nat),
                            ));
                        }
                        assert(usizes(vs@).subrange(0, i as int) =~= usizes(vs@));
                        Ok((e, out))
                    },
                    Err(x) => Err(x),
                },
                _ => Err(PathStop::At(f, c)),
            },
        },
    }
}

/// A copy of a string.
fn copy_string(t: &String) -> (r: String)
    ensures
        r@ == t@,
{
    let c = chars_of(t.as_str());
    string_of_range(c.as_slice(), 0, c.len())
}

/// The end of what follows an entry.
fn entry_end_at(cs: &Vec<char>, e: usize) -> (r: usize)
    requires
        e <= cs@.len(),
    ensures
        r == entry_end(cs@, e as int),
        e <= r <= cs@.len(),
{
    let n = cs.len();
    proof {
        reveal_strlit(", ");
        reveal_strlit("и ");
    }
    if tag_at(cs, e, ", ") || tag_at(cs, e, "и ") {
        e + 2
    } else {
        spaces_end(cs, e)
    }
}

/// Reads one entry at `p` and appends the steps it asks for; on failure nothing is
/// appended.
fn entry_from(cs: &Vec<char>, p: usize, k: UnitKind, voc: &NumberVocabulary, out: &mut Vec<ExecDesc>) -> (r: Result<usize, PathStop>)
    requires
        p <= cs@.len(),
        numbers_expandable(cs@, *voc),
    ensures
        match entry_at(cs@, p as int, k, *voc) {
            Ok((e, ds)) => r matches Ok(e2) && e2 == e && descs_view(final(out)@) == descs_view(old(out)@) + ds,
            Err(f) => r matches Err(st) && stop_agrees(st, f) && final(out)@ == old(out)@,
        },
        r matches Ok(e) ==> p < e <= cs@.len(),
        r matches Err(st) ==> stop_in(st, cs@.len()),
{
    let n = cs.len();
    let ws = unit_word_list(k);
    let i = match first_tag_at(cs, p, &ws, true) {
        None => {
            return Err(PathStop::At(p, ErrorCode::Tag));
        },
        Some(i) => i,
    };
    proof {
        lemma_first_tag_found(cs@, p as int, unit_words(k), true);
    }
    assert(unit_words(k)[i as int] == ws@[i as int]@);
    let q = p + ws[i].unicode_len();
    let r = spaces_end(cs, q);
    if r <= q {
        return Err(PathStop::At(q, ErrorCode::Space));
    }
    let ghost start = descs_view(out@);
    match k {
        UnitKind::Indent => {
            let (e, vs) = match indent_numbers_from(cs, r, voc) {
                Ok(x) => x,
                Err(x) => {
                    return Err(x);
                },
            };
            let mut j: usize = 0;
            while j < vs.len()
                invariant
                    j <= vs@.len(),
                    descs_view(out@) == start + value_descs(usizes(vs@).subrange(0, j as int)),
                decreases vs@.len() - j,
            {
                let ghost before = descs_view(out@);
                out.push(ExecDesc::Indent(vs[j]));
                j = j + 1;
                assert(descs_view(out@) =~= before.push(StepDesc::Indent(vs@[j - 1] as nat)));
                assert(value_descs(usizes(vs@).subrange(0, j as int)) =~= value_descs(usizes(vs@).subrange(0, j - 1)).push(
                    StepDesc::Indent(vs@[j - 1] as nat),
                ));
            }
            assert(usizes(vs@).subrange(0, j as int) =~= usizes(vs@));
            Ok(entry_end_at(cs, e))
        },
        _ => {
            let (e, ns) = match unit_numbers_from(cs, r, k, voc) {
                Ok(x) => x,
                Err(x) => {
                    return Err(x);
                },
            };
            let ghost w = cs@.subrange(p as int, q as int);
            let mut j: usize = 0;
            while j < ns.len()
                invariant
                    j <= ns@.len(),
                    p <= q <= cs@.len(),
                    w == cs@.subrange(p as int, q as int),
                    !(k is Indent),
                    descs_view(out@) == start + text_descs(k, w, texts(ns@).subrange(0, j as int)),
                decreases ns@.len() - j,
            {
                let ghost before = descs_view(out@);
                let word = string_of_range(cs.as_slice(), p, q);
                let num = copy_string(&ns[j]);
                let d = match k {
                    UnitKind::Header => ExecDesc::Header(word, num),
                    _ => ExecDesc::Item(word, num),
                };
                let ghost dv = desc_view(d);
                out.push(d);
                j = j + 1;
                proof {
                    assert(descs_view(out@) =~= before.push(dv));
                    assert(texts(ns@)[j - 1] == ns@[j - 1]@);
                    assert(text_descs(k, w, texts(ns@).subrange(0, j as int)) =~= text_descs(
                        k,
                        w,
                        texts(ns@).subrange(0, j - 1),
                    ).push(dv));
                }
            }
            assert(texts(ns@).subrange(0, j as int) =~= texts(ns@));
            Ok(entry_end_at(cs, e))
        },
    }
}

/// Adds the described steps to a new path, in order; the first step that cannot be added
/// gives the error.
fn build_steps(descs: &Vec<ExecDesc>) -> (r: Result<TargetPath, ParserError>)
    ensures
        match first_refused_from(descs_view(descs@), 0) {
            Some(i) => r matches Err(e) && step_error(descs_view(descs@)[i], e),
            None => r matches Ok(tp) && steps_built(descs_view(descs@), tp@),
        },
{
    let ghost dv = descs_view(descs@);
    let mut tp = TargetPath::new();
    let mut i: usize = 0;
    while i < descs.len()
        invariant
            dv == descs_view(descs@),
            i <= descs@.len(),
            first_refused_from(dv, 0) == first_refused_from(dv, i as int),
            tp@.len() == i,
            forall|j: int| 0 <= j < i ==> step_built(#[trigger] dv[j], tp@[j]),
        decreases descs@.len() - i,
    {
        let ghost before = tp@;
        assert(dv[i as int] == desc_view(descs@[i as int]));
        match &descs[i] {
            ExecDesc::Header(w, n) => {
                match tp.add_header(w.as_str(), n.as_str()) {
                    Ok(()) => {},
                    Err(e) => {
                        return Err(e);
                    },
                }
            },
            ExecDesc::Item(w, n) => {
                match tp.add_item(n.as_str(), w.as_str()) {
                    Ok(()) => {},
                    Err(e) => {
                        return Err(e);
                    },
                }
            },
            ExecDesc::Indent(v) => {
                tp.add_indent(*v as u32);
            },
        }
        proof {
            assert forall|j: int| 0 <= j < i implies step_built(#[trigger] dv[j], tp@[j]) by {
                assert(tp@.subrange(0, before.len() as int)[j] == before[j]);
            }
        }
        i = i + 1;
    }
    Ok(tp)
}

/// A sequence of units of a kind at `p`: where it ends and the path of its steps.
fn unit_sequence_from(cs: &Vec<char>, p: usize, k: UnitKind, voc: &NumberVocabulary) -> (r: Result<(usize, TargetPath), PathStop>)
    requires
        p <= cs@.len(),
        numbers_expandable(cs@, *voc),
    ensures
        match unit_seq_at(cs@, p as int, k, *voc) {
            Ok((e, ds)) => r matches Ok((e2, tp)) && e2 == e && steps_built(ds, tp@),
            Err(f) => r matches Err(st) && stop_agrees(st, f),
        },
        r matches Ok((e, _)) ==> p < e <= cs@.len(),
        r matches Err(st) ==> stop_in(st, cs@.len()),
{
    let mut out: Vec<ExecDesc> = Vec::new();
    let e = match entry_from(cs, p, k, voc, &mut out) {
        Ok(e) => e,
        Err(x) => {
            return Err(x);
        },
    };
    let ghost first = descs_view(out@);
    proof {
        assert(descs_view(Seq::<ExecDesc>::empty()) =~= Seq::<StepDesc>::empty());
        assert(Seq::<StepDesc>::empty() + entry_at(cs@, p as int, k, *voc)->Ok_0.1 =~= first);
    }
    let mut pos = e;
    loop
        invariant
            p < e <= pos <= cs@.len(),
            numbers_expandable(cs@, *voc),
            entries_from(cs@, e as int, k, *voc, first) == entries_from(cs@, pos as int, k, *voc, descs_view(out@)),
        ensures
            p < e <= pos <= cs@.len(),
            entries_from(cs@, e as int, k, *voc, first) == (pos as int, descs_view(out@)),
        decreases cs@.len() - pos,
    {
        let ghost before = descs_view(out@);
        match entry_from(cs, pos, k, voc, &mut out) {
            Ok(e2) => {
                proof {
                    let ds = entry_at(cs@, pos as int, k, *voc)->Ok_0.1;
                    assert(entries_from(cs@, pos as int, k, *voc, before) == entries_from(cs@, e2 as int, k, *voc, before + ds));
                }
                pos = e2;
            },
            Err(_) => {
                assert(entries_from(cs@, pos as int, k, *voc, before) == (pos as int, before));
                break;
            },
        }
    }
    match build_steps(&out) {
        Ok(tp) => Ok((pos, tp)),
        Err(err) => Err(PathStop::Refused(err)),
    }
}

/// The error a reader's reason stands for on the text `cs`.
pub(crate) fn stop_error(cs: &Vec<char>, st: PathStop) -> (r: ParserError)
    requires
        stop_in(st, cs@.len()),
    ensures
        forall|f: PathFail| stop_agrees(st, f) ==> path_error(cs@, f, r),
{
    match st {
        PathStop::At(p, code) => ParserError::NomError { input: string_of_range(cs.as_slice(), p, cs.len()), code },
        PathStop::IndentTokens(p) => ParserError::IndentQueueTokensError(string_of_range(cs.as_slice(), p, cs.len())),
        PathStop::Refused(e) => e,
    }
}

/// A sequence of units of a kind at the start of `s`: the rest and the path.
fn unit_sequence<'a>(s: &'a str, k: UnitKind, voc: &NumberVocabulary) -> (r: Result<(&'a str, TargetPath), ParserError>)
    requires
        numbers_expandable(s@, *voc),
    ensures
        match unit_seq_at(s@, 0, k, *voc) {
            Ok((e, ds)) => r matches Ok((rest, tp)) && rest@ == s@.subrange(e, s@.len() as int) && steps_built(
                ds,
                tp@,
            ),
            Err(f) => r matches Err(err) && path_error(s@, f, err),
        },
{
    let cs = chars_of(s);
    match unit_sequence_from(&cs, 0, k, voc) {
        Ok((e, tp)) => Ok((s.substring_char(e, cs.len()), tp)),
        Err(st) => Err(stop_error(&cs, st)),
    }
}

/// `статьями 9^1 и 9^2`: one or more entries of a header word (`статья`, `глава` in their
/// forms, case aside), at least one space and numbers (a sequence, else one number), each
/// then followed by `, `, `и ` or spaces; a header step is added for each number in turn,
/// and the first that cannot be added gives the error.
pub fn header_sequence<'a>(s: &'a str, voc: &NumberVocabulary) -> (r: Result<(&'a str, TargetPath), ParserError>)
    requires
        numbers_expandable(s@, *voc),
    ensures
        match unit_seq_at(s@, 0, UnitKind::Header, *voc) {
            Ok((e, ds)) => r matches Ok((rest, tp)) && rest@ == s@.subrange(e, s@.len() as int) && steps_built(
                ds,
                tp@,
            ),
            Err(f) => r matches Err(err) && path_error(s@, f, err),
        },
{
    unit_sequence(s, UnitKind::Header, voc)
}

/// `части 10, 11, 13 - 17`: as `header_sequence`, with the words of numbered units
/// (`пункт`, `подпункт`, `часть` in their forms), whose numbers may also be paragraph
/// words; a unit step is added for each number.
pub fn item_sequence<'a>(s: &'a str, voc: &NumberVocabulary) -> (r: Result<(&'a str, TargetPath), ParserError>)
    requires
        numbers_expandable(s@, *voc),
    ensures
        match unit_seq_at(s@, 0, UnitKind::Item, *voc) {
            Ok((e, ds)) => r matches Ok((rest, tp)) && rest@ == s@.subrange(e, s@.len() as int) && steps_built(
                ds,
                tp@,
            ),
            Err(f) => r matches Err(err) && path_error(s@, f, err),
        },
{
    unit_sequence(s, UnitKind::Item, voc)
}

/// `абзацами седьмым - десятым`: entries of a paragraph word (`абзац` in its forms) and
/// paragraph ordinals; a paragraph step is added for each number.
pub fn indent_sequence<'a>(s: &'a str, voc: &NumberVocabulary) -> (r: Result<(&'a str, TargetPath), ParserError>)
    requires
        numbers_expandable(s@, *voc),
    ensures
        match unit_seq_at(s@, 0, UnitKind::Indent, *voc) {
            Ok((e, ds)) => r matches Ok((rest, tp)) && rest@ == s@.subrange(e, s@.len() as int) && steps_built(
                ds,
                tp@,
            ),
            Err(f) => r matches Err(err) && path_error(s@, f, err),
        },
{
    unit_sequence(s, UnitKind::Indent, voc)
}

/// One part of a path at `p`: a header sequence, else a unit sequence, else a paragraph
/// sequence.
pub open spec fn path_part_at(s: Seq<char>, p: int, voc: NumberVocabulary) -> Result<(int, Seq<StepDesc>), PathFail> {
    match unit_seq_at(s, p, UnitKind::Header, voc) {
        Ok(x) => Ok(x),
        Err(_) => match unit_seq_at(s, p, UnitKind::Item, voc) {
            Ok(x) => Ok(x),
            Err(_) => unit_seq_at(s, p, UnitKind::Indent, voc),
        },
    }
}

/// The parts of a path read from `p`, after `acc`.
pub open spec fn parts_from(s: Seq<char>, p: int, voc: NumberVocabulary, acc: Seq<Seq<StepDesc>>) -> (
    int,
    Seq<Seq<StepDesc>>,
)
    decreases s.len() - p,
{
    match path_part_at(s, p, voc) {
        Ok((e, ds)) => if p < e <= s.len() {
            parts_from(s, e, voc, acc.push(ds))
        } else {
            (p, acc)
        },
        Err(_) => (p, acc),
    }
}

/// A path at `p`: one or more parts; where it ends and the steps of each part.
pub open spec fn paths_at(s: Seq<char>, p: int, voc: NumberVocabulary) -> Result<(int, Seq<Seq<StepDesc>>), PathFail> {
    match path_part_at(s, p, voc) {
        Err(f) => Err(f),
        Ok((e, ds)) => Ok(parts_from(s, e, voc, seq![ds])),
    }
}

/// Each built path holds the steps its part asks for.
pub open spec fn parts_built(parts: Seq<Seq<StepDesc>>, built: Seq<TargetPath>) -> bool {
    parts.len() == built.len() && forall|i: int| 0 <= i < parts.len() ==> steps_built(#[trigger] parts[i], built[i]@)
}

/// `tp` joins paths built for the parts and sorts their steps: it holds the same steps,
/// and is sorted where the order of steps is a strict weak order on them.
pub open spec fn joins_parts(parts: Seq<Seq<StepDesc>>, tp: Seq<ChangePath>) -> bool {
    exists|built: Seq<TargetPath>|
        #[trigger] parts_built(parts, built) && tp.to_multiset() == joined_paths(built).to_multiset() && (weak_order_on(
            joined_paths(built),
        ) ==> sorted(tp))
}

/// One part of a path at `p`.
fn path_part_from(cs: &Vec<char>, p: usize, voc: &NumberVocabulary) -> (r: Result<(usize, TargetPath), PathStop>)
    requires
        p <= cs@.len(),
        numbers_expandable(cs@, *voc),
    ensures
        match path_part_at(cs@, p as int, *voc) {
            Ok((e, ds)) => r matches Ok((e2, tp)) && e2 == e && steps_built(ds, tp@),
            Err(f) => r matches Err(st) && stop_agrees(st, f),
        },
        r matches Ok((e, _)) ==> p < e <= cs@.len(),
        r matches Err(st) ==> stop_in(st, cs@.len()),
{
    match unit_sequence_from(cs, p, UnitKind::Header, voc) {
        Ok(x) => Ok(x),
        Err(_) => match unit_sequence_from(cs, p, UnitKind::Item, voc) {
            Ok(x) => Ok(x),
            Err(_) => unit_sequence_from(cs, p, UnitKind::Indent, voc),
        },
    }
}

/// A path at `p`: where it ends and the joined, sorted path.
pub(crate) fn paths_from(cs: &Vec<char>, p: usize, voc: &NumberVocabulary) -> (r: Result<(usize, TargetPath), PathStop>)
    requires
        p <= cs@.len(),
        numbers_expandable(cs@, *voc),
    ensures
        match paths_at(cs@, p as int, *voc) {
            Ok((e, parts)) => r matches Ok((e2, tp)) && e2 == e && joins_parts(parts, tp@),
            Err(f) => r matches Err(st) && stop_agrees(st, f),
        },
        r matches Ok((e, _)) ==> p < e <= cs@.len(),
        r matches Err(st) ==> stop_in(st, cs@.len()),
{
    let (e, first) = match path_part_from(cs, p, voc) {
        Ok(x) => x,
        Err(x) => {
            return Err(x);
        },
    };
    let ghost ds0 = path_part_at(cs@, p as int, *voc)->Ok_0.1;
    let mut built: Vec<TargetPath> = Vec::new();
    built.push(first);
    let ghost mut parts: Seq<Seq<StepDesc>> = seq![ds0];
    let mut pos = e;
    loop
        invariant
            p < e <= pos <= cs@.len(),
            numbers_expandable(cs@, *voc),
            parts_from(cs@, e as int, *voc, seq![ds0]) == parts_from(cs@, pos as int, *voc, parts),
            parts_built(parts, built@),
        ensures
            p < e <= pos <= cs@.len(),
            parts_from(cs@, e as int, *voc, seq![ds0]) == (pos as int, parts),
            parts_built(parts, built@),
        decreases cs@.len() - pos,
    {
        match path_part_from(cs, pos, voc) {
            Ok((e2, tp)) => {
                let ghost ds = path_part_at(cs@, pos as int, *voc)->Ok_0.1;
                proof {
                    assert(parts_from(cs@, pos as int, *voc, parts) == parts_from(cs@, e2 as int, *voc, parts.push(ds)));
                }
                let ghost old_built = built@;
                built.push(tp);
                proof {
                    let np = parts.push(ds);
                    assert forall|i: int| 0 <= i < np.len() implies steps_built(#[trigger] np[i], built@[i]@) by {
                        if i < parts.len() {
                            assert(np[i] == parts[i]);
                            assert(built@[i] == old_built[i]);
                        }
                    }
                    parts = np;
                }
                pos = e2;
            },
            Err(_) => {
                break;
            },
        }
    }
    let ghost bs = built@;
    let tp = TargetPath::flatten(built);
    assert(parts_built(parts, bs));
    Ok((pos, tp))
}

/// `подпункте 1 пункте 3 статьи 2^2`: one or more parts, each a header, unit or paragraph
/// sequence (tried in that order); the steps of all parts are joined into one path and
/// sorted from the largest unit down. Where no part can be read, the error is that of
/// the paragraph sequence.
pub fn paths<'a>(s: &'a str, voc: &NumberVocabulary) -> (r: Result<(&'a str, TargetPath), ParserError>)
    requires
        numbers_expandable(s@, *voc),
    ensures
        match paths_at(s@, 0, *voc) {
            Ok((e, parts)) => r matches Ok((rest, tp)) && rest@ == s@.subrange(e, s@.len() as int) && joins_parts(
                parts,
                tp@,
            ),
            Err(f) => r matches Err(err) && path_error(s@, f, err),
        },
{
    let cs = chars_of(s);
    match paths_from(&cs, 0, voc) {
        Ok((e, tp)) => Ok((s.substring_char(e, cs.len()), tp)),
        Err(st) => Err(stop_error(&cs, st)),
    }
}

/// The steps around the path of `1) в статье 2^2:`: at least one space, `в`, at least
/// one space.
pub open spec fn before_path() -> Seq<Step> {
    seq![Step::Space1, Step::Tag("в"@), Step::Space1]
}

/// The steps after the path: `:` and the end of the line.
pub open spec fn after_path() -> Seq<Step> {
    seq![Step::Tag(":"@), Step::End]
}

/// A line that only names a place: a number, `в`, a path, `:` and nothing more; where it
/// ends and the parts of the path.
pub open spec fn only_path_at(s: Seq<char>, voc: NumberVocabulary) -> Result<(int, Seq<Seq<StepDesc>>), PathFail> {
    match parse_parts(s, 0, NumberIndex::Normal, seq![]) {
        Err(p) => Err(PathFail::Code(p, ErrorCode::Digit)),
        Ok((p1, _)) => match run_steps(s, p1, before_path()) {
            Err((f, c)) => Err(PathFail::Code(f, c)),
            Ok(p2) => match paths_at(s, p2, voc) {
                Err(f) => Err(f),
                Ok((e, parts)) => match run_steps(s, e, after_path()) {
                    Err((f, c)) => Err(PathFail::Code(f, c)),
                    Ok(e2) => Ok((e2, parts)),
                },
            },
        },
    }
}

/// A line that only names a place, from the start of `cs`.
fn only_path_from(cs: &Vec<char>, voc: &NumberVocabulary) -> (r: Result<(usize, TargetPath), PathStop>)
    requires
        numbers_expandable(cs@, *voc),
    ensures
        match only_path_at(cs@, *voc) {
            Ok((e, parts)) => r matches Ok((e2, tp)) && e2 == e && joins_parts(parts, tp@),
            Err(f) => r matches Err(st) && stop_agrees(st, f),
        },
        r matches Ok((e, _)) ==> e <= cs@.len(),
        r matches Err(st) ==> stop_in(st, cs@.len()),
{
    proof {
        lemma_error_position(cs@, 0, NumberIndex::Normal, seq![]);
        assert(acc_parts(None) =~= Seq::<crate::objects::number::NumberPart>::empty());
    }
    let p1 = match complex_number_parser(cs, 0, NumberIndex::Normal, None) {
        Ok((p1, _)) => p1,
        Err(p) => {
            return Err(PathStop::At(p, ErrorCode::Digit));
        },
    };
    let before = vec![ExecStep::Space1, ExecStep::Tag("в"), ExecStep::Space1];
    assert(steps_view(before@) =~= before_path());
    let p2 = match run_steps_at(cs, p1, &before) {
        Ok(p2) => p2,
        Err((f, c)) => {
            return Err(PathStop::At(f, c));
        },
    };
    let (e, tp) = match paths_from(cs, p2, voc) {
        Ok(x) => x,
        Err(st) => {
            return Err(st);
        },
    };
    let after = vec![ExecStep::Tag(":"), ExecStep::End];
    assert(steps_view(after@) =~= after_path());
    match run_steps_at(cs, e, &after) {
        Ok(e2) => Ok((e2, tp)),
        Err((f, c)) => Err(PathStop::At(f, c)),
    }
}

/// `1) в статье 2^2:`: a number, at least one space, `в`, at least one space, a path,
/// `:` and the end of the line; the rest (empty) and the path.
pub fn only_path_definition<'a>(s: &'a str, voc: &NumberVocabulary) -> (r: Result<(&'a str, TargetPath), ParserError>)
    requires
        numbers_expandable(s@, *voc),
    ensures
        match only_path_at(s@, *voc) {
            Ok((e, parts)) => r matches Ok((rest, tp)) && rest@ == s@.subrange(e, s@.len() as int) && joins_parts(
                parts,
                tp@,
            ),
            Err(f) => r matches Err(err) && path_error(s@, f, err),
        },
{
    let cs = chars_of(s);
    match only_path_from(&cs, voc) {
        Ok((e, tp)) => Ok((s.substring_char(e, cs.len()), tp)),
        Err(st) => Err(stop_error(&cs, st)),
    }
}

/// A piece of a directive grammar: fixed steps, a path, or a number.
pub ghost enum Piece {
    Steps(Seq<Step>),
    Path,
    Num,
}

/// A sequence of pieces from `p`: where it ends and the parts of each path read, in
/// order; or why it fails.
pub open spec fn pieces_at(s: Seq<char>, p: int, ps: Seq<Piece>, voc: NumberVocabulary) -> Result<
    (int, Seq<Seq<Seq<StepDesc>>>),
    PathFail,
>
    decreases ps.len(),
{
    if ps.len() == 0 {
        Ok((p, seq![]))
    } else {
        match ps[0] {
            Piece::Steps(st) => match run_steps(s, p, st) {
                Err((f, c)) => Err(PathFail::Code(f, c)),
                Ok(q) => pieces_at(s, q, ps.drop_first(), voc),
            },
            Piece::Num => match parse_parts(s, p, NumberIndex::Normal, seq![]) {
                Err(f) => Err(PathFail::Code(f, ErrorCode::Digit)),
                Ok((q, _)) => pieces_at(s, q, ps.drop_first(), voc),
            },
            Piece::Path => match paths_at(s, p, voc) {
                Err(f) => Err(f),
                Ok((q, parts)) => match pieces_at(s, q, ps.drop_first(), voc) {
                    Err(f) => Err(f),
                    Ok((e, rest)) => Ok((e, seq![parts] + rest)),
                },
            },
        }
    }
}

/// Each path is joined from its parts.
pub open spec fn all_joined(partss: Seq<Seq<Seq<StepDesc>>>, tps: Seq<TargetPath>) -> bool {
    partss.len() == tps.len() && forall|k: int| 0 <= k < partss.len() ==> joins_parts(#[trigger] partss[k], tps[k]@)
}

/// A piece of a directive grammar, in executable form.
pub enum ExecPiece {
    Steps(Vec<ExecStep>),
    Path,
    Num,
}

/// The piece an executable piece stands for.
pub open spec fn piece_view(x: ExecPiece) -> Piece {
    match x {
        ExecPiece::Steps(v) => Piece::Steps(steps_view(v@)),
        ExecPiece::Path => Piece::Path,
        ExecPiece::Num => Piece::Num,
    }
}

/// The pieces a list stands for.
pub open spec fn pieces_view(v: Seq<ExecPiece>) -> Seq<Piece> {
    v.map_values(|x: ExecPiece| piece_view(x))
}

/// Reads the pieces from the `i`-th on, from `p`.
pub(crate) fn pieces_from(cs: &Vec<char>, p: usize, ps: &Vec<ExecPiece>, i: usize, voc: &NumberVocabulary) -> (r: Result<
    (usize, Vec<TargetPath>),
    PathStop,
>)
    requires
        p <= cs@.len(),
        i <= ps@.len(),
        numbers_expandable(cs@, *voc),
    ensures
        match pieces_at(cs@, p as int, pieces_view(ps@).subrange(i as int, ps@.len() as int), *voc) {
            Ok((e, partss)) => r matches Ok((e2, tps)) && e2 == e && all_joined(partss, tps@),
            Err(f) => r matches Err(st) && stop_agrees(st, f),
        },
        r matches Ok((e, _)) ==> p <= e <= cs@.len(),
        r matches Err(st) ==> stop_in(st, cs@.len()),
    decreases ps@.len() - i,
{
    let ghost rest = pieces_view(ps@).subrange(i as int, ps@.len() as int);
    if i == ps.len() {
        assert(rest.len() == 0);
        let v: Vec<TargetPath> = Vec::new();
        assert(all_joined(seq![], v@));
        return Ok((p, v));
    }
    assert(rest[0] == piece_view(ps@[i as int]));
    assert(rest.drop_first() =~= pieces_view(ps@).subrange(i + 1, ps@.len() as int));
    match &ps[i] {
        ExecPiece::Steps(st) => match run_steps_at(cs, p, st) {
            Err((f, c)) => Err(PathStop::At(f, c)),
            Ok(q) => pieces_from(cs, q, ps, i + 1, voc),
        },
        ExecPiece::Num => {
            proof {
                lemma_error_position(cs@, p as int, NumberIndex::Normal, seq![]);
                assert(acc_parts(None) =~= Seq::<crate::objects::number::NumberPart>::empty());
            }
            match complex_number_parser(cs, p, NumberIndex::Normal, None) {
                Err(f) => Err(PathStop::At(f, ErrorCode::Digit)),
                Ok((q, _)) => pieces_from(cs, q, ps, i + 1, voc),
            }
        },
        ExecPiece::Path => match paths_from(cs, p, voc) {
            Err(x) => Err(x),
            Ok((q, tp)) => match pieces_from(cs, q, ps, i + 1, voc) {
                Err(x) => Err(x),
                Ok((e, tps)) => {
                    let ghost parts = paths_at(cs@, p as int, *voc)->Ok_0.1;
                    let ghost later = pieces_at(cs@, q as int, rest.drop_first(), *voc)->Ok_0.1;
                    let mut out = tps;
                    let ghost before = out@;
                    out.insert(0, tp);
                    proof {
                        let all = seq![parts] + later;
                        assert forall|k: int| 0 <= k < all.len() implies joins_parts(#[trigger] all[k], out@[k]@) by {
                            if k > 0 {
                                assert(all[k] == later[k - 1]);
                                assert(out@[k] == before[k - 1]);
                            }
                        }
                    }
                    Ok((e, out))
                },
            },
        },
    }
}

/// The number of path pieces.
pub open spec fn path_count(ps: Seq<Piece>) -> nat
    decreases ps.len(),
{
    if ps.len() == 0 {
        0
    } else {
        path_count(ps.drop_first()) + if ps[0] is Path {
            1nat
        } else {
            0nat
        }
    }
}

/// A read sequence of pieces gives one path for each path piece.
pub proof fn lemma_paths_read(s: Seq<char>, p: int, ps: Seq<Piece>, voc: NumberVocabulary)
    ensures
        pieces_at(s, p, ps, voc) matches Ok((_, partss)) ==> partss.len() == path_count(ps),
    decreases ps.len(),
{
    if ps.len() > 0 {
        match ps[0] {
            Piece::Steps(st) => match run_steps(s, p, st) {
                Ok(q) => lemma_paths_read(s, q, ps.drop_first(), voc),
                Err(_) => {},
            },
            Piece::Num => match parse_parts(s, p, NumberIndex::Normal, seq![]) {
                Ok((q, _)) => lemma_paths_read(s, q, ps.drop_first(), voc),
                Err(_) => {},
            },
            Piece::Path => match paths_at(s, p, voc) {
                Ok((q, _)) => lemma_paths_read(s, q, ps.drop_first(), voc),
                Err(_) => {},
            },
        }
    }
}

/// Reads a whole sequence of pieces from the start of `cs`.
pub(crate) fn run_pieces(cs: &Vec<char>, ps: &Vec<ExecPiece>, voc: &NumberVocabulary) -> (r: Result<(usize, Vec<TargetPath>), PathStop>)
    requires
        numbers_expandable(cs@, *voc),
    ensures
        match pieces_at(cs@, 0, pieces_view(ps@), *voc) {
            Ok((e, partss)) => r matches Ok((e2, tps)) && e2 == e && all_joined(partss, tps@) && tps@.len()
                == path_count(pieces_view(ps@)),
            Err(f) => r matches Err(st) && stop_agrees(st, f),
        },
        r matches Ok((e, _)) ==> e <= cs@.len(),
        r matches Err(st) ==> stop_in(st, cs@.len()),
{
    assert(pieces_view(ps@).subrange(0, ps@.len() as int) =~= pieces_view(ps@));
    proof {
        lemma_paths_read(cs@, 0, pieces_view(ps@), *voc);
    }
    pieces_from(cs, 0, ps, 0, voc)
}

/// Two lists of steps, one after the other.
pub(crate) fn steps_then(a: Vec<ExecStep>, b: Vec<ExecStep>) -> (r: Vec<ExecStep>)
    ensures
        steps_view(r@) == steps_view(a@) + steps_view(b@),
{
    let mut a = a;
    let mut b = b;
    let ghost va = steps_view(a@);
    let ghost vb = steps_view(b@);
    a.append(&mut b);
    assert(steps_view(a@) =~= va + vb);
    a
}

/// A result at the start of a text that ends at a position and covers a span, read as
/// the rest of the text and the covered text, or the error.
pub open spec fn span_read(s: Seq<char>, q: Result<(int, (int, int)), PathFail>, r: Result<(&str, &str), ParserError>) -> bool {
    match q {
        Ok((e, (a, b))) => r matches Ok((rest, t)) && rest@ == s.subrange(e, s.len() as int) && t@ == s.subrange(a, b),
        Err(f) => r matches Err(err) && path_error(s, f, err),
    }
}

/// A list of numbers read at the start of a text, as the rest and the numbers, or the
/// error.
pub open spec fn values_read(s: Seq<char>, q: Result<(int, Seq<nat>), PathFail>, r: Result<(&str, Vec<usize>), ParserError>) -> bool {
    match q {
        Ok((e, vs)) => r matches Ok((rest, v)) && rest@ == s.subrange(e, s.len() as int) && usizes(v@) == vs,
        Err(f) => r matches Err(err) && path_error(s, f, err),
    }
}

/// `, `, `и ` or ` - ` (each also with no-break spaces) at the start of `s`: the rest and
/// the separator.
pub fn separate_tags<'a>(s: &'a str) -> (r: Result<(&'a str, &'a str), ParserError>)
    ensures
        span_read(s@, match separator_at(s@, 0) {
            Ok((e, _)) => Ok((e, (0, e))),
            Err((f, c)) => Err(PathFail::Code(f, c)),
        }, r),
{
    let cs = chars_of(s);
    match separator_from(&cs, 0) {
        Ok((e, _)) => Ok((s.substring_char(e, cs.len()), s.substring_char(0, e))),
        Err((f, c)) => {
            assert(stop_agrees(PathStop::At(f, c), PathFail::Code(f as int, c)));
            Err(stop_error(&cs, PathStop::At(f, c)))
        },
    }
}

/// The dashes of a range, ` - ` or with no-break spaces.
pub open spec fn range_dashes() -> Seq<Seq<char>> {
    seq![" - "@, "\u{a0}-\u{a0}"@]
}

/// A dash of a range at the start of `s`: the rest and the dash.
pub fn separate_range_tags<'a>(s: &'a str) -> (r: Result<(&'a str, &'a str), ParserError>)
    ensures
        span_read(s@, match first_tag(s@, 0, range_dashes(), false) {
            Some(k) => Ok((range_dashes()[k].len() as int, (0, range_dashes()[k].len() as int))),
            None => Err(PathFail::Code(0, ErrorCode::Tag)),
        }, r),
{
    let cs = chars_of(s);
    let ds = vec![" - ", "\u{a0}-\u{a0}"];
    assert(words_view(ds@) =~= range_dashes());
    match first_tag_at(&cs, 0, &ds, false) {
        Some(k) => {
            proof {
                lemma_first_tag_found(cs@, 0, range_dashes(), false);
            }
            assert(range_dashes()[k as int] == ds@[k as int]@);
            let e = ds[k].unicode_len();
            Ok((s.substring_char(e, cs.len()), s.substring_char(0, e)))
        },
        None => {
            assert(stop_agrees(PathStop::At(0, ErrorCode::Tag), PathFail::Code(0, ErrorCode::Tag)));
            Err(stop_error(&cs, PathStop::At(0, ErrorCode::Tag)))
        },
    }
}

/// A number at the start of `s` (a quoted letter, or a run of number characters): the
/// rest and the number's text.
pub fn verify_number<'a>(s: &'a str, voc: &NumberVocabulary) -> (r: Result<(&'a str, &'a str), ParserError>)
    ensures
        span_read(s@, match verify_number_at(s@, 0, voc.number_chars@, voc.letters@) {
            Ok(x) => Ok(x),
            Err((f, c)) => Err(PathFail::Code(f, c)),
        }, r),
{
    let cs = chars_of(s);
    match verify_number_from(&cs, 0, voc) {
        Ok((e, (a, b))) => Ok((s.substring_char(e, cs.len()), s.substring_char(a, b))),
        Err((f, c)) => {
            assert(stop_agrees(PathStop::At(f, c), PathFail::Code(f as int, c)));
            Err(stop_error(&cs, PathStop::At(f, c)))
        },
    }
}

/// A paragraph word at the start of `s`: a run of letters longer than five bytes that the
/// vocabulary knows; the rest and the word. Otherwise the error names the text.
pub fn verify_indent_number<'a>(s: &'a str, voc: &NumberVocabulary) -> (r: Result<(&'a str, &'a str), ParserError>)
    ensures
        span_read(s@, match indent_word_at(s@, 0, *voc) {
            Ok((e, _)) => Ok((e, (0, e))),
            Err(f) => Err(f),
        }, r),
{
    let cs = chars_of(s);
    match indent_word_from(&cs, 0, voc) {
        Ok((e, _)) => Ok((s.substring_char(e, cs.len()), s.substring_char(0, e))),
        Err(st) => Err(stop_error(&cs, st)),
    }
}

/// `седьмым - десятым, одиннадцатым и двенадцатым`: pairs of paragraph words, each
/// giving the numbers from the first to the second.
pub fn indent_number_sequence<'a>(s: &'a str, voc: &NumberVocabulary) -> (r: Result<(&'a str, Vec<usize>), ParserError>)
    ensures
        values_read(s@, indent_sequence_at(s@, 0, *voc), r),
{
    let cs = chars_of(s);
    match indent_sequence_from(&cs, 0, voc) {
        Ok((e, v)) => Ok((s.substring_char(e, cs.len()), v)),
        Err(st) => Err(stop_error(&cs, st)),
    }
}

/// One paragraph word and any spaces: its number alone in a list.
pub fn indent_number<'a>(s: &'a str, voc: &NumberVocabulary) -> (r: Result<(&'a str, Vec<usize>), ParserError>)
    ensures
        values_read(s@, indent_single_at(s@, 0, *voc), r),
{
    let cs = chars_of(s);
    match indent_single_from(&cs, 0, voc) {
        Ok((e, v)) => Ok((s.substring_char(e, cs.len()), v)),
        Err(st) => Err(stop_error(&cs, st)),
    }
}

} // verus!
