//! The grammar of numbers: `1)`, `а)`, `22^2`, `1_1)`, `1-2^2-3:`.
//!
//! A number is one or more parts. A part is a lower-case Cyrillic letter standing alone
//! or a run of ASCII digits, optionally followed by one of `)`, `.`, `-`. A `^` before a
//! part writes it and the parts after it as superscript, a `_` as subscript. The number
//! ends before a space, a `:` or the end of the text.
use vstd::prelude::*;
use vstd::string::StrSliceExecFns;
use crate::error::{ErrorCode, ParserError};
use crate::objects::number::{Number, NumberIndex, NumberPart, lemma_parts_nonempty};
use crate::text::{chars_of, is_digit_char, digit_char, is_space_char, space_char, string_of_range};

verus! {

/// Lower-case Cyrillic letters, `а` to `я` and `ё`.
pub open spec fn is_cyrillic_lower(c: char) -> bool {
    ('а' <= c && c <= 'я') || c == 'ё'
}

/// Signs that may close a part: `)`, `.`, `-`.
pub open spec fn is_postfix_char(c: char) -> bool {
    c == ')' || c == '.' || c == '-'
}

/// Where the run of digits that starts at `pos` ends.
pub open spec fn digit_run_end(s: Seq<char>, pos: int) -> int
    decreases s.len() - pos,
{
    if 0 <= pos < s.len() && is_digit_char(s[pos]) {
        digit_run_end(s, pos + 1)
    } else {
        pos
    }
}

/// A digit run ends after its start and within the text.
pub proof fn lemma_digit_run_end(s: Seq<char>, pos: int)
    requires
        0 <= pos <= s.len(),
    ensures
        pos <= digit_run_end(s, pos) <= s.len(),
        forall|k: int| pos <= k < digit_run_end(s, pos) ==> is_digit_char(#[trigger] s[k]),
        digit_run_end(s, pos) < s.len() ==> !is_digit_char(s[digit_run_end(s, pos)]),
    decreases s.len() - pos,
{
    if pos < s.len() && is_digit_char(s[pos]) {
        lemma_digit_run_end(s, pos + 1);
    }
}

/// A letter part: one lower-case Cyrillic letter, followed by a digit, a space, `:`, a
/// closing sign or the end, so that a whole word is not taken for a number.
pub open spec fn alpha_token_end(s: Seq<char>, pos: int) -> Option<int> {
    if 0 <= pos < s.len() && is_cyrillic_lower(s[pos]) && (pos + 1 == s.len() || is_digit_char(
        s[pos + 1],
    ) || is_space_char(s[pos + 1]) || s[pos + 1] == ':' || is_postfix_char(s[pos + 1])) {
        Some(pos + 1)
    } else {
        None
    }
}

/// A digit part: a non-empty run of ASCII digits.
pub open spec fn digit_token_end(s: Seq<char>, pos: int) -> Option<int> {
    if 0 <= pos < s.len() && is_digit_char(s[pos]) {
        Some(digit_run_end(s, pos))
    } else {
        None
    }
}

/// Where the part that starts at `pos` ends: a letter part if there is one, else a digit
/// part.
pub open spec fn token_end(s: Seq<char>, pos: int) -> Option<int> {
    match alpha_token_end(s, pos) {
        Some(e) => Some(e),
        None => digit_token_end(s, pos),
    }
}

/// Whether the number ends at `pos`: at the end, before a space or before `:`.
pub open spec fn number_stops_at(s: Seq<char>, pos: int) -> bool {
    pos >= s.len() || is_space_char(s[pos]) || s[pos] == ':'
}

/// Reads the parts of a number from `pos`, after the parts in `acc`, writing new parts in
/// `index`. `Ok` holds where the number ends and all its parts; `Err` where no part could
/// be read.
pub open spec fn parse_parts(s: Seq<char>, pos: int, index: NumberIndex, acc: Seq<NumberPart>)
    -> Result<(int, Seq<NumberPart>), int>
    decreases s.len() - pos,
{
    if pos < 0 || pos > s.len() {
        Err(pos)
    } else if pos < s.len() && s[pos] == '^' {
        parse_parts(s, pos + 1, NumberIndex::Superscript, acc)
    } else if pos < s.len() && s[pos] == '_' {
        parse_parts(s, pos + 1, NumberIndex::Subscript, acc)
    } else {
        match token_end(s, pos) {
            None => Err(pos),
            Some(end) => {
                proof {
                    lemma_digit_run_end(s, pos);
                }
                let has_postfix = end < s.len() && is_postfix_char(s[end]);
                let after = if has_postfix {
                    end + 1
                } else {
                    end
                };
                let part = NumberPart {
                    number: s.subrange(pos, end),
                    index,
                    postfix: if has_postfix {
                        Some(seq![s[end]])
                    } else {
                        None
                    },
                };
                if number_stops_at(s, after) {
                    Ok((after, acc.push(part)))
                } else {
                    parse_parts(s, after, index, acc.push(part))
                }
            },
        }
    }
}

/// The parts already read, held as an optional number.
pub open spec fn acc_parts(input: Option<Number>) -> Seq<NumberPart> {
    match input {
        Some(n) => n@,
        None => seq![],
    }
}

/// Where the digit run starting at `pos` ends.
fn digit_run(cs: &Vec<char>, pos: usize) -> (r: usize)
    requires
        pos <= cs@.len(),
    ensures
        r == digit_run_end(cs@, pos as int),
{
    proof {
        lemma_digit_run_end(cs@, pos as int);
    }
    let mut i = pos;
    while i < cs.len() && digit_char(cs[i])
        invariant
            pos <= i <= cs@.len(),
            digit_run_end(cs@, i as int) == digit_run_end(cs@, pos as int),
        decreases cs@.len() - i,
    {
        i = i + 1;
    }
    i
}

/// Whether `c` is a lower-case Cyrillic letter.
fn cyrillic_lower(c: char) -> (r: bool)
    ensures
        r == is_cyrillic_lower(c),
{
    ('а' <= c && c <= 'я') || c == 'ё'
}

/// Whether `c` is one of `)`, `.`, `-`.
fn postfix_char(c: char) -> (r: bool)
    ensures
        r == is_postfix_char(c),
{
    c == ')' || c == '.' || c == '-'
}

/// Where a letter part starting at `pos` ends.
fn alpha_token(cs: &Vec<char>, pos: usize) -> (r: Option<usize>)
    requires
        pos <= cs@.len(),
    ensures
        r matches Some(e) ==> alpha_token_end(cs@, pos as int) == Some(e as int),
        r is None ==> alpha_token_end(cs@, pos as int) is None,
{
    if pos < cs.len() && cyrillic_lower(cs[pos]) {
        let n = pos + 1;
        if n == cs.len() || digit_char(cs[n]) || space_char(cs[n]) || cs[n] == ':' || postfix_char(
            cs[n],
        ) {
            return Some(n);
        }
    }
    None
}

/// Where a digit part starting at `pos` ends.
fn digit_token(cs: &Vec<char>, pos: usize) -> (r: Option<usize>)
    requires
        pos <= cs@.len(),
    ensures
        r matches Some(e) ==> digit_token_end(cs@, pos as int) == Some(e as int),
        r is None ==> digit_token_end(cs@, pos as int) is None,
{
    if pos < cs.len() && digit_char(cs[pos]) {
        Some(digit_run(cs, pos))
    } else {
        None
    }
}

/// Reads the parts of a number from `pos`, appending them to `input`.
pub(crate) fn complex_number_parser(cs: &Vec<char>, pos: usize, index: NumberIndex, input: Option<Number>)
    -> (r: Result<(usize, Number), usize>)
    requires
        pos <= cs@.len(),
    ensures
        match parse_parts(cs@, pos as int, index, acc_parts(input)) {
            Ok((p, parts)) => r matches Ok((q, n)) && q == p && n@ == parts,
            Err(p) => r matches Err(q) && q == p,
        },
    decreases cs@.len() - pos,
{
    if pos < cs.len() && cs[pos] == '^' {
        return complex_number_parser(cs, pos + 1, NumberIndex::Superscript, input);
    }
    if pos < cs.len() && cs[pos] == '_' {
        return complex_number_parser(cs, pos + 1, NumberIndex::Subscript, input);
    }
    let end = match alpha_token(cs, pos) {
        Some(e) => e,
        None => match digit_token(cs, pos) {
            Some(e) => e,
            None => {
                return Err(pos);
            },
        },
    };
    proof {
        lemma_digit_run_end(cs@, pos as int);
    }
    let has_postfix = end < cs.len() && postfix_char(cs[end]);
    let mut remains = end;
    let postfix = if has_postfix {
        remains = end + 1;
        Some(string_of_range(cs.as_slice(), end, end + 1))
    } else {
        None
    };
    let new_num = Number {
        number: string_of_range(cs.as_slice(), pos, end),
        number_index: index,
        postfix,
        next: None,
    };
    let ghost part = NumberPart {
        number: cs@.subrange(pos as int, end as int),
        index,
        postfix: if has_postfix {
            Some(seq![cs@[end as int]])
        } else {
            None
        },
    };
    proof {
        if has_postfix {
            assert(cs@.subrange(end as int, end + 1) =~= seq![cs@[end as int]]);
        }
        assert(new_num@ =~= seq![part]);
    }
    let ghost acc = acc_parts(input);
    let joined = match input {
        Some(mut n) => {
            n.apply(new_num);
            n
        },
        None => new_num,
    };
    assert(joined@ =~= acc.push(part));
    let stops = remains >= cs.len() || space_char(cs[remains]) || cs[remains] == ':';
    if stops {
        Ok((remains, joined))
    } else {
        complex_number_parser(cs, remains, index, Some(joined))
    }
}

impl Number {
    /// Reads a number at the start of `s`. On success gives the rest of the text and the
    /// number; where no part can be read, the error names the text left at that point.
    pub fn parse(s: &str) -> (r: Result<(&str, Number), ParserError>)
        ensures
            match parse_parts(s@, 0, NumberIndex::Normal, seq![]) {
                Ok((p, parts)) => r matches Ok((rest, n)) && rest@ == s@.subrange(
                    p,
                    s@.len() as int,
                ) && n@ == parts,
                Err(p) => r matches Err(ParserError::NomError { input, code }) && input@
                    == s@.subrange(p, s@.len() as int) && code == ErrorCode::Digit,
            },
    {
        let cs = chars_of(s);
        proof {
            lemma_error_position(s@, 0, NumberIndex::Normal, seq![]);
        }
        match complex_number_parser(&cs, 0, NumberIndex::Normal, None) {
            Ok((p, n)) => {
                let rest = s.substring_char(p, cs.len());
                Ok((rest, n))
            },
            Err(p) => {
                proof {
                    let q = parse_parts(s@, 0, NumberIndex::Normal, seq![]);
                    assert(q is Err);
                    lemma_error_position(s@, 0, NumberIndex::Normal, seq![]);
                }
                let input = string_of_range(cs.as_slice(), p, cs.len());
                Err(ParserError::NomError { input, code: ErrorCode::Digit })
            },
        }
    }

    /// Reads a text that starts with a number, as `str::parse::<Number>` does: the rest of
    /// the text is left unread.
    pub fn from_text(s: &str) -> (r: Result<Number, ParserError>)
        ensures
            match parse_parts(s@, 0, NumberIndex::Normal, seq![]) {
                Ok((p, parts)) => r matches Ok(n) && n@ == parts,
                Err(p) => r matches Err(ParserError::NomError { input, code }) && input@
                    == s@.subrange(p, s@.len() as int) && code == ErrorCode::Digit,
            },
    {
        match Number::parse(s) {
            Ok((_, n)) => Ok(n),
            Err(e) => Err(e),
        }
    }
}

impl std::str::FromStr for Number {
    type Err = ParserError;

    fn from_str(s: &str) -> (r: Result<Self, Self::Err>)
        ensures
            match parse_parts(s@, 0, NumberIndex::Normal, seq![]) {
                Ok((p, parts)) => r matches Ok(n) && n@ == parts,
                Err(p) => r matches Err(ParserError::NomError { input, code }) && input@
                    == s@.subrange(p, s@.len() as int) && code == ErrorCode::Digit,
            },
    {
        Number::from_text(s)
    }
}

/// An error of the number grammar always stands within the text.
pub proof fn lemma_error_position(s: Seq<char>, pos: int, index: NumberIndex, acc: Seq<NumberPart>)
    requires
        0 <= pos <= s.len(),
    ensures
        parse_parts(s, pos, index, acc) matches Err(p) ==> pos <= p <= s.len(),
        parse_parts(s, pos, index, acc) matches Ok((p, parts)) ==> pos < p <= s.len()
            && parts.len() > acc.len(),
    decreases s.len() - pos,
{
    lemma_digit_run_end(s, pos);
    if pos < s.len() && (s[pos] == '^' || s[pos] == '_') {
        let ix = if s[pos] == '^' {
            NumberIndex::Superscript
        } else {
            NumberIndex::Subscript
        };
        lemma_error_position(s, pos + 1, ix, acc);
    } else {
        match token_end(s, pos) {
            None => {},
            Some(end) => {
                let has_postfix = end < s.len() && is_postfix_char(s[end]);
                let after = if has_postfix {
                    end + 1
                } else {
                    end
                };
                let part = NumberPart {
                    number: s.subrange(pos, end),
                    index,
                    postfix: if has_postfix {
                        Some(seq![s[end]])
                    } else {
                        None
                    },
                };
                if !number_stops_at(s, after) {
                    lemma_error_position(s, after, index, acc.push(part));
                }
            },
        }
    }
}

/// Reads one lower-case Cyrillic letter that stands alone, as in `а)`.
pub fn is_alpha_number(s: &str) -> (r: Result<(&str, &str), ParserError>)
    ensures
        match alpha_token_end(s@, 0) {
            Some(e) => r matches Ok((rest, item)) && rest@ == s@.subrange(e, s@.len() as int)
                && item@ == s@.subrange(0, e),
            None => r is Err,
        },
{
    let cs = chars_of(s);
    match alpha_token(&cs, 0) {
        Some(e) => Ok((s.substring_char(e, cs.len()), s.substring_char(0, e))),
        None => Err(ParserError::NomError { input: string_of_range(cs.as_slice(), 0, cs.len()), code: ErrorCode::Tag }),
    }
}

/// Reads a run of ASCII digits.
pub fn is_digit_number(s: &str) -> (r: Result<(&str, &str), ParserError>)
    ensures
        match digit_token_end(s@, 0) {
            Some(e) => r matches Ok((rest, item)) && rest@ == s@.subrange(e, s@.len() as int)
                && item@ == s@.subrange(0, e),
            None => r matches Err(ParserError::NomError { input, code }) && input@ == s@
                && code == ErrorCode::Digit,
        },
{
    let cs = chars_of(s);
    proof {
        lemma_digit_run_end(s@, 0);
    }
    match digit_token(&cs, 0) {
        Some(e) => Ok((s.substring_char(e, cs.len()), s.substring_char(0, e))),
        None => {
            let input = string_of_range(cs.as_slice(), 0, cs.len());
            assert(cs@.subrange(0, cs@.len() as int) =~= s@);
            Err(ParserError::NomError { input, code: ErrorCode::Digit })
        },
    }
}

} // verus!
