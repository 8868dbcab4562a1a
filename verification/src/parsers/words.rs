//! The word operations of a directive: `слова "…" заменить словами "…"`, `после слов
//! "…" дополнить словами "…"`, `слово "…" исключить`, `дополнить предложением
//! следующего содержания: "…"`.
//!
//! Each piece reads from a position of the text and gives where it ends and what it read,
//! or where and why it failed, as the grammar combinators `tag`, `alt`, `many1` and
//! `permutation` of a parser-combinator library do: `alt` keeps the failure of its last
//! branch, `many1` the failure of its first item.
use vstd::prelude::*;
use crate::change_action::{ActionView, ChangeAction, actions_view, lemma_actions_view_push, lemma_actions_view_concat};
use crate::error::{ErrorCode, ParserError};
use crate::parsers::chars::{
    ExecStep, Step, first_tag, first_tag_at, has_tag, lemma_first_tag_found, pos_result, run_steps, run_steps_at,
    space_end, spaces_end, steps_view, tag_at, words_view,
};
use crate::parsers::tags::next_content_grammar;
use crate::objects::number::NumberIndex;
use crate::objects::number_parser::{complex_number_parser, lemma_error_position, parse_parts};
use crate::text::{chars_of, string_of_range};
pub use crate::parsers::word_directives::words_operations;

verus! {

/// What follows quoted words: a replacement, an addition or an exclusion.
#[derive(Debug, Clone, Copy, PartialEq, Eq, Structural)]
pub enum LocalOperation {
    Replace,
    Apply,
    Exclude,
}

/// `после ` at `p`, skipped where it stands.
pub open spec fn after_prefix_end(s: Seq<char>, p: int) -> int {
    if has_tag(s, p, "после "@) {
        p + "после "@.len()
    } else {
        p
    }
}

/// The forms of the word `слово` that open a quoted text, in the order they are tried.
pub open spec fn word_forms() -> Seq<Seq<char>> {
    seq!["слово"@, "слова"@, "слов"@]
}

/// `(после )? слово|слова|слов` between spaces: where it ends, and where the form of
/// `слово` starts and ends.
pub open spec fn searched_words_end(s: Seq<char>, p: int) -> Result<(int, (int, int)), (int, ErrorCode)> {
    let p2 = after_prefix_end(s, space_end(s, p));
    match first_tag(s, p2, word_forms(), false) {
        Some(k) => Ok((space_end(s, p2 + word_forms()[k].len()), (p2, p2 + word_forms()[k].len()))),
        None => Err((p2, ErrorCode::Tag)),
    }
}

/// The first `"` at or after `p`.
pub open spec fn quote_from(s: Seq<char>, p: int) -> Option<int>
    decreases s.len() - p,
{
    if p < 0 || p >= s.len() {
        None
    } else if s[p] == '"' {
        Some(p)
    } else {
        quote_from(s, p + 1)
    }
}

/// A quoted text at `p`: an opening quote, the text up to the next quote, that quote.
/// The three pieces are tried in any order, each once, the first that fits going first;
/// so a text that does not open with a quote is read where a quote closes it and another
/// quote follows at once.
pub open spec fn quoted_text_at(s: Seq<char>, p: int) -> Result<(int, Seq<char>), (int, ErrorCode)> {
    if 0 <= p < s.len() && s[p] == '"' {
        match quote_from(s, p + 1) {
            Some(k) => Ok((k + 1, s.subrange(p + 1, k))),
            None => Err((p + 1, ErrorCode::Tag)),
        }
    } else {
        match quote_from(s, p) {
            Some(k) => if k + 1 < s.len() && s[k + 1] == '"' {
                Ok((k + 2, s.subrange(p, k)))
            } else {
                Err((k + 1, ErrorCode::Tag))
            },
            None => Err((p, ErrorCode::Tag)),
        }
    }
}

/// `исключить` after spaces, then `;`, `,`, the end or spaces.
pub open spec fn exclude_end(s: Seq<char>, p: int) -> Result<int, (int, ErrorCode)> {
    let p1 = space_end(s, p);
    if !has_tag(s, p1, "исключить"@) {
        Err((p1, ErrorCode::Tag))
    } else {
        let p2 = p1 + "исключить"@.len();
        if p2 < s.len() && (s[p2] == ';' || s[p2] == ',') {
            Ok(p2 + 1)
        } else if p2 == s.len() {
            Ok(p2)
        } else if space_end(s, p2) > p2 {
            Ok(space_end(s, p2))
        } else {
            Err((p2, ErrorCode::Space))
        }
    }
}

/// `<verb> словами|словом` between spaces.
pub open spec fn verb_words_grammar(verb: Seq<char>) -> Seq<Step> {
    seq![Step::Tag(verb), Step::Space1, Step::OneOf(seq!["словами"@, "словом"@]), Step::Spaces]
}

/// `<verb> словами|словом` after spaces.
pub open spec fn verb_words_end(s: Seq<char>, p: int, verb: Seq<char>) -> Result<int, (int, ErrorCode)> {
    run_steps(s, space_end(s, p), verb_words_grammar(verb))
}

/// `дополнить словами`, else `заменить словами`, else `исключить`.
pub open spec fn all_operations_at(s: Seq<char>, p: int) -> Result<(int, LocalOperation), (int, ErrorCode)> {
    match verb_words_end(s, p, "дополнить"@) {
        Ok(e) => Ok((e, LocalOperation::Apply)),
        Err(_) => match verb_words_end(s, p, "заменить"@) {
            Ok(e) => Ok((e, LocalOperation::Replace)),
            Err(_) => match exclude_end(s, p) {
                Ok(e) => Ok((e, LocalOperation::Exclude)),
                Err(x) => Err(x),
            },
        },
    }
}

/// `, ` or `и ` after an item of a list, else any spaces.
pub open spec fn list_sep_end(s: Seq<char>, p: int) -> int {
    if has_tag(s, p, ", "@) {
        p + ", "@.len()
    } else if has_tag(s, p, "и "@) {
        p + "и "@.len()
    } else {
        space_end(s, p)
    }
}

/// `, `, `и `, `;` or `.` after a word operation, else any spaces.
pub open spec fn operation_sep_end(s: Seq<char>, p: int) -> int {
    if has_tag(s, p, ", "@) {
        p + ", "@.len()
    } else if has_tag(s, p, "и "@) {
        p + "и "@.len()
    } else if 0 <= p < s.len() && (s[p] == ';' || s[p] == '.') {
        p + 1
    } else {
        space_end(s, p)
    }
}

/// `, `, `и ` or `;` after added words, else any spaces.
pub open spec fn added_sep_end(s: Seq<char>, p: int) -> int {
    if has_tag(s, p, ", "@) {
        p + ", "@.len()
    } else if has_tag(s, p, "и "@) {
        p + "и "@.len()
    } else if 0 <= p < s.len() && s[p] == ';' {
        p + 1
    } else {
        space_end(s, p)
    }
}

/// One excluded text: `слово "…"` and what separates it from the next.
pub open spec fn exclude_item_at(s: Seq<char>, p: int) -> Result<(int, Seq<char>), (int, ErrorCode)> {
    match searched_words_end(s, p) {
        Err(x) => Err(x),
        Ok((p1, _)) => match quoted_text_at(s, p1) {
            Err(x) => Err(x),
            Ok((p2, q)) => Ok((list_sep_end(s, space_end(s, p2)), q)),
        },
    }
}

/// The excluded texts after `acc`, read from `p` as long as one can be read (each one
/// read moves forward).
pub open spec fn exclude_items_from(s: Seq<char>, p: int, acc: Seq<Seq<char>>) -> (int, Seq<Seq<char>>)
    decreases s.len() - p,
{
    match exclude_item_at(s, p) {
        Ok((e, q)) => if p < e <= s.len() {
            exclude_items_from(s, e, acc.push(q))
        } else {
            (p, acc)
        },
        Err(_) => (p, acc),
    }
}

/// An exclusion of each text.
pub open spec fn exclusions(qs: Seq<Seq<char>>) -> Seq<ActionView> {
    qs.map_values(|q: Seq<char>| ActionView::ExcludeWords(q))
}

/// `слово "…" (и|,) слова "…" … исключить`: one exclusion of words for each quoted text.
pub open spec fn exclude_words_at(s: Seq<char>, p: int) -> Result<(int, Seq<ActionView>), (int, ErrorCode)> {
    match exclude_item_at(s, p) {
        Err(x) => Err(x),
        Ok((e, q)) => {
            let (e2, qs) = exclude_items_from(s, e, seq![q]);
            match exclude_end(s, e2) {
                Err(x) => Err(x),
                Ok(e3) => Ok((e3, exclusions(qs))),
            }
        },
    }
}

/// `дополнить предложением|предложениями следующего содержания: ` before the quoted
/// sentence.
pub open spec fn sentence_grammar() -> Seq<Step> {
    seq![Step::Tag("дополнить"@), Step::Space1, Step::OneOf(seq!["предложениями"@, "предложением"@]), Step::Space1]
        + next_content_grammar(false) + seq![Step::Space1]
}

/// `дополнить предложением следующего содержания: "…"`: the sentence to add.
pub open spec fn add_sentence_at(s: Seq<char>, p: int) -> Result<(int, Seq<ActionView>), (int, ErrorCode)> {
    match run_steps(s, space_end(s, p), sentence_grammar()) {
        Err(x) => Err(x),
        Ok(e) => match quoted_text_at(s, e) {
            Err(x) => Err(x),
            Ok((e2, t)) => Ok((e2, seq![ActionView::ApplySentence(t)])),
        },
    }
}

/// One change of words: `слова "…"`, an operation, `"…"`, and what separates it from the
/// next.
pub open spec fn word_change_item_at(s: Seq<char>, p: int) -> Result<
    (int, (Seq<char>, LocalOperation, Seq<char>)),
    (int, ErrorCode),
> {
    match searched_words_end(s, p) {
        Err(x) => Err(x),
        Ok((p1, _)) => match quoted_text_at(s, p1) {
            Err(x) => Err(x),
            Ok((p2, from)) => match all_operations_at(s, p2) {
                Err(x) => Err(x),
                Ok((p3, op)) => match quoted_text_at(s, p3) {
                    Err(x) => Err(x),
                    Ok((p4, to)) => Ok((operation_sep_end(s, space_end(s, p4)), (from, op, to))),
                },
            },
        },
    }
}

/// The changes of words after `acc`, read from `p` as long as one can be read.
pub open spec fn word_change_items_from(
    s: Seq<char>,
    p: int,
    acc: Seq<(Seq<char>, LocalOperation, Seq<char>)>,
) -> (int, Seq<(Seq<char>, LocalOperation, Seq<char>)>)
    decreases s.len() - p,
{
    match word_change_item_at(s, p) {
        Ok((e, it)) => if p < e <= s.len() {
            word_change_items_from(s, e, acc.push(it))
        } else {
            (p, acc)
        },
        Err(_) => (p, acc),
    }
}

/// The operation of one change of words: an addition after the first words, a
/// replacement of them, or none where the words are followed by `исключить`.
pub open spec fn word_change_actions(items: Seq<(Seq<char>, LocalOperation, Seq<char>)>) -> Seq<ActionView>
    decreases items.len(),
{
    if items.len() == 0 {
        seq![]
    } else {
        let before = word_change_actions(items.drop_last());
        let (from, op, to) = items.last();
        match op {
            LocalOperation::Apply => before.push(ActionView::AddWords { after: Some(from), words: to }),
            LocalOperation::Replace => before.push(ActionView::ReplaceWords { old_words: from, new_words: to }),
            LocalOperation::Exclude => before,
        }
    }
}

/// `слова "…" заменить словами "…", после слов "…" дополнить словами "…"`: the
/// replacements and additions of words.
pub open spec fn add_or_replace_words_at(s: Seq<char>, p: int) -> Result<(int, Seq<ActionView>), (int, ErrorCode)> {
    match word_change_item_at(s, p) {
        Err(x) => Err(x),
        Ok((e, it)) => {
            let (e2, items) = word_change_items_from(s, e, seq![it]);
            Ok((e2, word_change_actions(items)))
        },
    }
}

/// `дополнить словами "…"`: words to add at the end.
pub open spec fn add_words_1_at(s: Seq<char>, p: int) -> Result<(int, Seq<ActionView>), (int, ErrorCode)> {
    match verb_words_end(s, p, "дополнить"@) {
        Err(x) => Err(x),
        Ok(p1) => match quoted_text_at(s, p1) {
            Err(x) => Err(x),
            Ok((p2, t)) => Ok((added_sep_end(s, p2), seq![ActionView::AddWords { after: None, words: t }])),
        },
    }
}

/// One group of word operations: changes of words, else words to add, else exclusions,
/// else a sentence to add.
pub open spec fn word_operation_at(s: Seq<char>, p: int) -> Result<(int, Seq<ActionView>), (int, ErrorCode)> {
    match add_or_replace_words_at(s, p) {
        Ok(x) => Ok(x),
        Err(_) => match add_words_1_at(s, p) {
            Ok(x) => Ok(x),
            Err(_) => match exclude_words_at(s, p) {
                Ok(x) => Ok(x),
                Err(_) => add_sentence_at(s, p),
            },
        },
    }
}

/// The groups of word operations after `acc`, read from `p` as long as one can be read.
pub open spec fn word_operations_from(s: Seq<char>, p: int, acc: Seq<ActionView>) -> (int, Seq<ActionView>)
    decreases s.len() - p,
{
    match word_operation_at(s, p) {
        Ok((e, v)) => if p < e <= s.len() {
            word_operations_from(s, e, acc + v)
        } else {
            (p, acc)
        },
        Err(_) => (p, acc),
    }
}

/// One or more groups of word operations, their operations one after the other.
pub open spec fn word_operations_at(s: Seq<char>, p: int) -> Result<(int, Seq<ActionView>), (int, ErrorCode)> {
    match word_operation_at(s, p) {
        Err(x) => Err(x),
        Ok((e, v)) => Ok(word_operations_from(s, e, v)),
    }
}

/// A result of a grammar piece on a whole text, read as the rest of the text and the
/// operations, or the error with the text left where it failed.
pub open spec fn actions_read(
    s: Seq<char>,
    q: Result<(int, Seq<ActionView>), (int, ErrorCode)>,
    r: Result<(&str, Vec<ChangeAction>), ParserError>,
) -> bool {
    match q {
        Ok((e, acts)) => r matches Ok((rest, v)) && rest@ == s.subrange(e, s.len() as int) && actions_view(v@)
            == acts,
        Err((f, code)) => r matches Err(ParserError::NomError { input, code: c }) && input@ == s.subrange(
            f,
            s.len() as int,
        ) && c == code,
    }
}

/// `<номер> наименование <changes of words>`: the changes of words of a header's name.
pub open spec fn change_name_at(s: Seq<char>) -> Result<(int, Seq<ActionView>), (int, ErrorCode)> {
    match parse_parts(s, 0, NumberIndex::Normal, seq![]) {
        Err(p) => Err((p, ErrorCode::Digit)),
        Ok((p, _)) => match run_steps(s, p, seq![Step::Space1, Step::Tag("наименование"@), Step::Space1]) {
            Err(x) => Err(x),
            Ok(q) => match add_or_replace_words_at(s, q) {
                Err(x) => Err(x),
                Ok((e, acts)) => Ok((e, seq![ActionView::HeaderNameOperations(acts)])),
            },
        },
    }
}

/// A position as an integer, with a failure.
pub open spec fn pair_result<T>(r: Result<(usize, T), (usize, ErrorCode)>) -> Result<(int, T), (int, ErrorCode)> {
    match r {
        Ok((e, v)) => Ok((e as int, v)),
        Err((f, code)) => Err((f as int, code)),
    }
}

/// Positions as integers: an end and a span, or a failure.
pub open spec fn span_result(r: Result<(usize, (usize, usize)), (usize, ErrorCode)>) -> Result<(int, (int, int)), (int, ErrorCode)> {
    match r {
        Ok((e, (a, b))) => Ok((e as int, (a as int, b as int))),
        Err((f, code)) => Err((f as int, code)),
    }
}

/// The quoted texts stay within the text.
proof fn lemma_quote_from(s: Seq<char>, p: int)
    requires
        0 <= p,
    ensures
        quote_from(s, p) matches Some(k) ==> p <= k < s.len() && s[k] == '"',
    decreases s.len() - p,
{
    if p < s.len() && s[p] != '"' {
        lemma_quote_from(s, p + 1);
    }
}

/// The first `"` at or after `p`.
fn quote_at(cs: &Vec<char>, p: usize) -> (r: Option<usize>)
    requires
        p <= cs@.len(),
    ensures
        r matches Some(k) ==> quote_from(cs@, p as int) == Some(k as int),
        r is None ==> quote_from(cs@, p as int) is None,
{
    let mut k = p;
    while k < cs.len()
        invariant
            p <= k <= cs@.len(),
            quote_from(cs@, p as int) == quote_from(cs@, k as int),
        decreases cs@.len() - k,
    {
        if cs[k] == '"' {
            return Some(k);
        }
        k = k + 1;
    }
    None
}

/// A quoted text at `p`: where it ends, and where the text between the quotes starts and
/// ends.
pub(crate) fn quoted_at(cs: &Vec<char>, p: usize) -> (r: Result<(usize, usize, usize), (usize, ErrorCode)>)
    requires
        p <= cs@.len(),
    ensures
        match quoted_text_at(cs@, p as int) {
            Ok((e, t)) => r matches Ok((e2, a, b)) && e2 == e && p <= a <= b <= cs@.len() && cs@.subrange(
                a as int,
                b as int,
            ) == t,
            Err((f, code)) => r matches Err((f2, c)) && f2 == f && c == code,
        },
        r matches Ok((e, _, _)) ==> p + 2 <= e <= cs@.len(),
        r matches Err((f, _)) ==> p <= f <= cs@.len(),
{
    proof {
        lemma_quote_from(cs@, p as int);
        lemma_quote_from(cs@, p + 1);
    }
    if p < cs.len() && cs[p] == '"' {
        match quote_at(cs, p + 1) {
            Some(k) => Ok((k + 1, p + 1, k)),
            None => Err((p + 1, ErrorCode::Tag)),
        }
    } else {
        match quote_at(cs, p) {
            Some(k) => {
                if k + 1 < cs.len() && cs[k + 1] == '"' {
                    Ok((k + 2, p, k))
                } else {
                    Err((k + 1, ErrorCode::Tag))
                }
            },
            None => Err((p, ErrorCode::Tag)),
        }
    }
}

/// `(после )? слово|слова|слов` between spaces: where it ends, and where the form of
/// `слово` starts and ends.
fn searched_words_at(cs: &Vec<char>, p: usize) -> (r: Result<(usize, (usize, usize)), (usize, ErrorCode)>)
    requires
        p <= cs@.len(),
    ensures
        span_result(r) == searched_words_end(cs@, p as int),
        r matches Ok((e, (a, b))) ==> p <= a <= b <= e <= cs@.len(),
        r matches Err((f, _)) ==> p <= f <= cs@.len(),
{
    let n = cs.len();
    let p1 = spaces_end(cs, p);
    let p2 = if tag_at(cs, p1, "после ") {
        p1 + "после ".unicode_len()
    } else {
        p1
    };
    let mut words: Vec<&'static str> = Vec::new();
    words.push("слово");
    words.push("слова");
    words.push("слов");
    assert(words_view(words@) =~= word_forms());
    match first_tag_at(cs, p2, &words, false) {
        Some(k) => {
            proof {
                lemma_first_tag_found(cs@, p2 as int, word_forms(), false);
            }
            assert(word_forms()[k as int] == words@[k as int]@);
            let b = p2 + words[k].unicode_len();
            let e = spaces_end(cs, b);
            Ok((e, (p2, b)))
        },
        None => Err((p2, ErrorCode::Tag)),
    }
}

/// `исключить` after spaces, then `;`, `,`, the end or spaces.
pub(crate) fn exclude_at(cs: &Vec<char>, p: usize) -> (r: Result<usize, (usize, ErrorCode)>)
    requires
        p <= cs@.len(),
    ensures
        pos_result(r) == exclude_end(cs@, p as int),
        r matches Ok(e) ==> p <= e <= cs@.len(),
        r matches Err((f, _)) ==> p <= f <= cs@.len(),
{
    let n = cs.len();
    let p1 = spaces_end(cs, p);
    if !tag_at(cs, p1, "исключить") {
        return Err((p1, ErrorCode::Tag));
    }
    let p2 = p1 + "исключить".unicode_len();
    if p2 < cs.len() && (cs[p2] == ';' || cs[p2] == ',') {
        Ok(p2 + 1)
    } else if p2 == cs.len() {
        Ok(p2)
    } else {
        let p3 = spaces_end(cs, p2);
        if p3 > p2 {
            Ok(p3)
        } else {
            Err((p2, ErrorCode::Space))
        }
    }
}

/// `<verb> словами|словом` after spaces.
fn verb_words_at(cs: &Vec<char>, p: usize, verb: &'static str) -> (r: Result<usize, (usize, ErrorCode)>)
    requires
        p <= cs@.len(),
    ensures
        pos_result(r) == verb_words_end(cs@, p as int, verb@),
        r matches Ok(e) ==> p <= e <= cs@.len(),
        r matches Err((f, _)) ==> p <= f <= cs@.len(),
{
    let p1 = spaces_end(cs, p);
    let mut forms: Vec<&'static str> = Vec::new();
    forms.push("словами");
    forms.push("словом");
    assert(words_view(forms@) =~= seq!["словами"@, "словом"@]);
    let mut steps: Vec<ExecStep> = Vec::new();
    steps.push(ExecStep::Tag(verb));
    steps.push(ExecStep::Space1);
    steps.push(ExecStep::OneOf(forms));
    steps.push(ExecStep::Spaces);
    assert(steps_view(steps@) =~= verb_words_grammar(verb@));
    run_steps_at(cs, p1, &steps)
}

/// `дополнить словами`, else `заменить словами`, else `исключить`.
fn all_operations_from(cs: &Vec<char>, p: usize) -> (r: Result<(usize, LocalOperation), (usize, ErrorCode)>)
    requires
        p <= cs@.len(),
    ensures
        pair_result(r) == all_operations_at(cs@, p as int),
        r matches Ok((e, _)) ==> p <= e <= cs@.len(),
        r matches Err((f, _)) ==> p <= f <= cs@.len(),
{
    match verb_words_at(cs, p, "дополнить") {
        Ok(e) => Ok((e, LocalOperation::Apply)),
        Err(_) => match verb_words_at(cs, p, "заменить") {
            Ok(e) => Ok((e, LocalOperation::Replace)),
            Err(_) => match exclude_at(cs, p) {
                Ok(e) => Ok((e, LocalOperation::Exclude)),
                Err(x) => Err(x),
            },
        },
    }
}

/// `, ` or `и ` after an item of a list, else any spaces.
fn list_sep_at(cs: &Vec<char>, p: usize) -> (r: usize)
    requires
        p <= cs@.len(),
    ensures
        r == list_sep_end(cs@, p as int),
        p <= r <= cs@.len(),
{
    let n = cs.len();
    if tag_at(cs, p, ", ") {
        p + ", ".unicode_len()
    } else if tag_at(cs, p, "и ") {
        p + "и ".unicode_len()
    } else {
        spaces_end(cs, p)
    }
}

/// `, `, `и `, `;` or `.` after a word operation, else any spaces.
fn operation_sep_at(cs: &Vec<char>, p: usize) -> (r: usize)
    requires
        p <= cs@.len(),
    ensures
        r == operation_sep_end(cs@, p as int),
        p <= r <= cs@.len(),
{
    let n = cs.len();
    if tag_at(cs, p, ", ") {
        p + ", ".unicode_len()
    } else if tag_at(cs, p, "и ") {
        p + "и ".unicode_len()
    } else if p < n && (cs[p] == ';' || cs[p] == '.') {
        p + 1
    } else {
        spaces_end(cs, p)
    }
}

/// `, `, `и ` or `;` after added words, else any spaces.
fn added_sep_at(cs: &Vec<char>, p: usize) -> (r: usize)
    requires
        p <= cs@.len(),
    ensures
        r == added_sep_end(cs@, p as int),
        p <= r <= cs@.len(),
{
    let n = cs.len();
    if tag_at(cs, p, ", ") {
        p + ", ".unicode_len()
    } else if tag_at(cs, p, "и ") {
        p + "и ".unicode_len()
    } else if p < n && cs[p] == ';' {
        p + 1
    } else {
        spaces_end(cs, p)
    }
}

/// One excluded text: where the item ends, and where its text starts and ends.
fn exclude_item_from(cs: &Vec<char>, p: usize) -> (r: Result<(usize, (usize, usize)), (usize, ErrorCode)>)
    requires
        p <= cs@.len(),
    ensures
        match exclude_item_at(cs@, p as int) {
            Ok((e, q)) => r matches Ok((e2, (a, b))) && e2 == e && a <= b <= cs@.len() && cs@.subrange(
                a as int,
                b as int,
            ) == q,
            Err((f, code)) => r matches Err((f2, c)) && f2 == f && c == code,
        },
        r matches Ok((e, _)) ==> p + 2 <= e <= cs@.len(),
        r matches Err((f, _)) ==> p <= f <= cs@.len(),
{
    match searched_words_at(cs, p) {
        Err(x) => Err(x),
        Ok((p1, _)) => match quoted_at(cs, p1) {
            Err(x) => Err(x),
            Ok((p2, a, b)) => {
                let p3 = spaces_end(cs, p2);
                Ok((list_sep_at(cs, p3), (a, b)))
            },
        },
    }
}

/// An exclusion of the words between `a` and `b`.
fn exclusion(cs: &Vec<char>, a: usize, b: usize) -> (r: ChangeAction)
    requires
        a <= b <= cs@.len(),
    ensures
        r@ == ActionView::ExcludeWords(cs@.subrange(a as int, b as int)),
{
    ChangeAction::ExcludeWords(string_of_range(cs.as_slice(), a, b))
}

/// `слово "…" (и|,) слова "…" … исключить`.
fn exclude_words_from(cs: &Vec<char>, p: usize) -> (r: Result<(usize, Vec<ChangeAction>), (usize, ErrorCode)>)
    requires
        p <= cs@.len(),
    ensures
        match exclude_words_at(cs@, p as int) {
            Ok((e, acts)) => r matches Ok((e2, v)) && e2 == e && actions_view(v@) == acts,
            Err((f, code)) => r matches Err((f2, c)) && f2 == f && c == code,
        },
        r matches Ok((e, _)) ==> p < e <= cs@.len(),
        r matches Err((f, _)) ==> p <= f <= cs@.len(),
{
    match exclude_item_from(cs, p) {
        Err(x) => Err(x),
        Ok((e, (a, b))) => {
            let mut acts: Vec<ChangeAction> = Vec::new();
            let first = exclusion(cs, a, b);
            acts.push(first);
            let ghost qs0 = seq![cs@.subrange(a as int, b as int)];
            let ghost mut qs = qs0;
            proof {
                lemma_actions_view_push(Seq::<ChangeAction>::empty(), first);
                assert(Seq::<ChangeAction>::empty().push(first) =~= acts@);
                assert(exclusions(qs0) =~= seq![first@]);
            }
            let mut pos = e;
            loop
                invariant
                    e <= pos <= cs@.len(),
                    exclude_items_from(cs@, e as int, qs0) == exclude_items_from(cs@, pos as int, qs),
                    actions_view(acts@) == exclusions(qs),
                ensures
                    e <= pos <= cs@.len(),
                    exclude_items_from(cs@, e as int, qs0) == (pos as int, qs),
                    actions_view(acts@) == exclusions(qs),
                decreases cs@.len() - pos,
            {
                match exclude_item_from(cs, pos) {
                    Ok((e2, (a2, b2))) => {
                        let next = exclusion(cs, a2, b2);
                        let ghost before = acts@;
                        acts.push(next);
                        proof {
                            lemma_actions_view_push(before, next);
                            assert(exclusions(qs.push(cs@.subrange(a2 as int, b2 as int))) =~= exclusions(qs).push(next@));
                            qs = qs.push(cs@.subrange(a2 as int, b2 as int));
                        }
                        pos = e2;
                    },
                    Err(_) => {
                        break;
                    },
                }
            }
            assert(exclude_item_at(cs@, p as int) == Ok::<(int, Seq<char>), (int, ErrorCode)>((e as int, qs0[0])));
            assert(seq![qs0[0]] == qs0);
            match exclude_at(cs, pos) {
                Err(x) => Err(x),
                Ok(e3) => Ok((e3, acts)),
            }
        },
    }
}

/// A failure of a grammar on a whole text, with the text left where it failed.
fn nom_error(cs: &Vec<char>, f: usize, code: ErrorCode) -> (r: ParserError)
    requires
        f <= cs@.len(),
    ensures
        r matches ParserError::NomError { input, code: c } && input@ == cs@.subrange(f as int, cs@.len() as int)
            && c == code,
{
    ParserError::NomError { input: string_of_range(cs.as_slice(), f, cs.len()), code }
}

/// `слово "…" (и|,) слова "…" … исключить`: one exclusion of words for each quoted
/// text, and the rest of the text.
pub fn exclude_words(s: &str) -> (r: Result<(&str, Vec<ChangeAction>), ParserError>)
    ensures
        actions_read(s@, exclude_words_at(s@, 0), r),
{
    let cs = chars_of(s);
    match exclude_words_from(&cs, 0) {
        Ok((e, v)) => Ok((s.substring_char(e, cs.len()), v)),
        Err((f, code)) => Err(nom_error(&cs, f, code)),
    }
}

/// The steps before the quoted sentence to add.
fn sentence_steps() -> (r: Vec<ExecStep>)
    ensures
        steps_view(r@) == sentence_grammar(),
{
    let mut forms: Vec<&'static str> = Vec::new();
    forms.push("предложениями");
    forms.push("предложением");
    assert(words_view(forms@) =~= seq!["предложениями"@, "предложением"@]);
    let mut v: Vec<ExecStep> = Vec::new();
    v.push(ExecStep::Tag("дополнить"));
    v.push(ExecStep::Space1);
    v.push(ExecStep::OneOf(forms));
    v.push(ExecStep::Space1);
    v.push(ExecStep::Tag("следующего"));
    v.push(ExecStep::Space1);
    v.push(ExecStep::Tag("содержания"));
    v.push(ExecStep::Tag(":"));
    v.push(ExecStep::Space1);
    assert(steps_view(v@) =~= sentence_grammar());
    v
}

/// `дополнить предложением следующего содержания: "…"`.
fn add_sentence_from(cs: &Vec<char>, p: usize) -> (r: Result<(usize, Vec<ChangeAction>), (usize, ErrorCode)>)
    requires
        p <= cs@.len(),
    ensures
        match add_sentence_at(cs@, p as int) {
            Ok((e, acts)) => r matches Ok((e2, v)) && e2 == e && actions_view(v@) == acts,
            Err((f, code)) => r matches Err((f2, c)) && f2 == f && c == code,
        },
        r matches Ok((e, _)) ==> p < e <= cs@.len(),
        r matches Err((f, _)) ==> p <= f <= cs@.len(),
{
    let p1 = spaces_end(cs, p);
    let steps = sentence_steps();
    match run_steps_at(cs, p1, &steps) {
        Err(x) => Err(x),
        Ok(e) => match quoted_at(cs, e) {
            Err(x) => Err(x),
            Ok((e2, a, b)) => {
                let action = ChangeAction::ApplySentence(string_of_range(cs.as_slice(), a, b));
                let mut v: Vec<ChangeAction> = Vec::new();
                v.push(action);
                proof {
                    lemma_actions_view_push(Seq::<ChangeAction>::empty(), action);
                    assert(Seq::<ChangeAction>::empty().push(action) =~= v@);
                }
                Ok((e2, v))
            },
        },
    }
}

/// One change of words: where it ends, the first words, the operation and the second
/// words.
fn word_change_item_from(cs: &Vec<char>, p: usize) -> (r: Result<
    (usize, ((usize, usize), LocalOperation, (usize, usize))),
    (usize, ErrorCode),
>)
    requires
        p <= cs@.len(),
    ensures
        match word_change_item_at(cs@, p as int) {
            Ok((e, (from, op, to))) => r matches Ok((e2, ((a, b), op2, (c, d)))) && e2 == e && a <= b <= cs@.len()
                && c <= d <= cs@.len() && cs@.subrange(a as int, b as int) == from && op2 == op && cs@.subrange(
                c as int,
                d as int,
            ) == to,
            Err((f, code)) => r matches Err((f2, c)) && f2 == f && c == code,
        },
        r matches Ok((e, _)) ==> p + 4 <= e <= cs@.len(),
        r matches Err((f, _)) ==> p <= f <= cs@.len(),
{
    match searched_words_at(cs, p) {
        Err(x) => Err(x),
        Ok((p1, _)) => match quoted_at(cs, p1) {
            Err(x) => Err(x),
            Ok((p2, a, b)) => match all_operations_from(cs, p2) {
                Err(x) => Err(x),
                Ok((p3, op)) => match quoted_at(cs, p3) {
                    Err(x) => Err(x),
                    Ok((p4, c, d)) => {
                        let p5 = spaces_end(cs, p4);
                        Ok((operation_sep_at(cs, p5), ((a, b), op, (c, d))))
                    },
                },
            },
        },
    }
}

/// The operation of one change of words, if it has one.
fn word_change_action(cs: &Vec<char>, from: (usize, usize), op: LocalOperation, to: (usize, usize)) -> (r: Option<ChangeAction>)
    requires
        from.0 <= from.1 <= cs@.len(),
        to.0 <= to.1 <= cs@.len(),
    ensures
        word_change_actions(seq![(cs@.subrange(from.0 as int, from.1 as int), op, cs@.subrange(to.0 as int, to.1 as int))])
            == match r {
            Some(a) => seq![a@],
            None => Seq::<ActionView>::empty(),
        },
{
    let ghost items = seq![(cs@.subrange(from.0 as int, from.1 as int), op, cs@.subrange(to.0 as int, to.1 as int))];
    assert(items.drop_last() =~= Seq::<(Seq<char>, LocalOperation, Seq<char>)>::empty());
    let r = match op {
        LocalOperation::Apply => Some(ChangeAction::AddWords {
            after: Some(string_of_range(cs.as_slice(), from.0, from.1)),
            words: string_of_range(cs.as_slice(), to.0, to.1),
        }),
        LocalOperation::Replace => Some(ChangeAction::ReplaceWords {
            old_words: string_of_range(cs.as_slice(), from.0, from.1),
            new_words: string_of_range(cs.as_slice(), to.0, to.1),
        }),
        LocalOperation::Exclude => None,
    };
    proof {
        reveal_with_fuel(word_change_actions, 2);
        if r is Some {
            assert(word_change_actions(items) =~= seq![r->0@]);
        } else {
            assert(word_change_actions(items) =~= Seq::<ActionView>::empty());
        }
    }
    r
}

/// The actions of changes of words, one item more.
proof fn lemma_word_change_actions_push(
    items: Seq<(Seq<char>, LocalOperation, Seq<char>)>,
    it: (Seq<char>, LocalOperation, Seq<char>),
)
    ensures
        word_change_actions(items.push(it)) == word_change_actions(items) + word_change_actions(seq![it]),
{
    assert(items.push(it).drop_last() =~= items);
    assert(seq![it].drop_last() =~= Seq::<(Seq<char>, LocalOperation, Seq<char>)>::empty());
    assert(word_change_actions(items) + Seq::<ActionView>::empty() =~= word_change_actions(items));
    let (from, op, to) = it;
    match op {
        LocalOperation::Apply => {
            let a = ActionView::AddWords { after: Some(from), words: to };
            reveal_with_fuel(word_change_actions, 2);
            assert(word_change_actions(seq![it]) =~= seq![a]);
            assert(word_change_actions(items) + seq![a] =~= word_change_actions(items).push(a));
        },
        LocalOperation::Replace => {
            let a = ActionView::ReplaceWords { old_words: from, new_words: to };
            reveal_with_fuel(word_change_actions, 2);
            assert(word_change_actions(seq![it]) =~= seq![a]);
            assert(word_change_actions(items) + seq![a] =~= word_change_actions(items).push(a));
        },
        LocalOperation::Exclude => {
            reveal_with_fuel(word_change_actions, 2);
            assert(word_change_actions(seq![it]) =~= Seq::<ActionView>::empty());
        },
    }
}

/// Adds the operation of one change of words to a list.
fn push_word_change(
    acts: &mut Vec<ChangeAction>,
    cs: &Vec<char>,
    from: (usize, usize),
    op: LocalOperation,
    to: (usize, usize),
    Ghost(items): Ghost<Seq<(Seq<char>, LocalOperation, Seq<char>)>>,
)
    requires
        from.0 <= from.1 <= cs@.len(),
        to.0 <= to.1 <= cs@.len(),
        actions_view(old(acts)@) == word_change_actions(items),
    ensures
        actions_view(final(acts)@) == word_change_actions(
            items.push((cs@.subrange(from.0 as int, from.1 as int), op, cs@.subrange(to.0 as int, to.1 as int))),
        ),
{
    let ghost it = (cs@.subrange(from.0 as int, from.1 as int), op, cs@.subrange(to.0 as int, to.1 as int));
    proof {
        lemma_word_change_actions_push(items, it);
    }
    match word_change_action(cs, from, op, to) {
        Some(a) => {
            let ghost before = acts@;
            acts.push(a);
            proof {
                lemma_actions_view_push(before, a);
            }
        },
        None => {
            assert(word_change_actions(items) + Seq::<ActionView>::empty() =~= word_change_actions(items));
        },
    }
}

/// `слова "…" заменить словами "…", после слов "…" дополнить словами "…"`.
fn add_or_replace_words_from(cs: &Vec<char>, p: usize) -> (r: Result<(usize, Vec<ChangeAction>), (usize, ErrorCode)>)
    requires
        p <= cs@.len(),
    ensures
        match add_or_replace_words_at(cs@, p as int) {
            Ok((e, acts)) => r matches Ok((e2, v)) && e2 == e && actions_view(v@) == acts,
            Err((f, code)) => r matches Err((f2, c)) && f2 == f && c == code,
        },
        r matches Ok((e, _)) ==> p < e <= cs@.len(),
        r matches Err((f, _)) ==> p <= f <= cs@.len(),
{
    match word_change_item_from(cs, p) {
        Err(x) => Err(x),
        Ok((e, (from, op, to))) => {
            let ghost it0 = (cs@.subrange(from.0 as int, from.1 as int), op, cs@.subrange(to.0 as int, to.1 as int));
            let ghost items0 = seq![it0];
            let ghost mut items = items0;
            let mut acts: Vec<ChangeAction> = Vec::new();
            assert(actions_view(acts@) =~= word_change_actions(Seq::<(Seq<char>, LocalOperation, Seq<char>)>::empty()));
            push_word_change(&mut acts, cs, from, op, to, Ghost(Seq::<(Seq<char>, LocalOperation, Seq<char>)>::empty()));
            assert(Seq::<(Seq<char>, LocalOperation, Seq<char>)>::empty().push(it0) =~= items0);
            let mut pos = e;
            loop
                invariant
                    e <= pos <= cs@.len(),
                    word_change_items_from(cs@, e as int, items0) == word_change_items_from(cs@, pos as int, items),
                    actions_view(acts@) == word_change_actions(items),
                ensures
                    e <= pos <= cs@.len(),
                    word_change_items_from(cs@, e as int, items0) == (pos as int, items),
                    actions_view(acts@) == word_change_actions(items),
                decreases cs@.len() - pos,
            {
                match word_change_item_from(cs, pos) {
                    Ok((e2, (old2, op2, new2))) => {
                        push_word_change(&mut acts, cs, old2, op2, new2, Ghost(items));
                        proof {
                            items = items.push((cs@.subrange(old2.0 as int, old2.1 as int), op2, cs@.subrange(new2.0 as int, new2.1 as int)));
                        }
                        pos = e2;
                    },
                    Err(_) => {
                        break;
                    },
                }
            }
            assert(word_change_item_at(cs@, p as int) == Ok::<(int, (Seq<char>, LocalOperation, Seq<char>)), (int, ErrorCode)>((e as int, it0)));
            Ok((pos, acts))
        },
    }
}

/// `дополнить словами "…"`.
fn add_words_1_from(cs: &Vec<char>, p: usize) -> (r: Result<(usize, Vec<ChangeAction>), (usize, ErrorCode)>)
    requires
        p <= cs@.len(),
    ensures
        match add_words_1_at(cs@, p as int) {
            Ok((e, acts)) => r matches Ok((e2, v)) && e2 == e && actions_view(v@) == acts,
            Err((f, code)) => r matches Err((f2, c)) && f2 == f && c == code,
        },
        r matches Ok((e, _)) ==> p < e <= cs@.len(),
        r matches Err((f, _)) ==> p <= f <= cs@.len(),
{
    match verb_words_at(cs, p, "дополнить") {
        Err(x) => Err(x),
        Ok(p1) => match quoted_at(cs, p1) {
            Err(x) => Err(x),
            Ok((p2, a, b)) => {
                let action = ChangeAction::AddWords { after: None, words: string_of_range(cs.as_slice(), a, b) };
                let mut v: Vec<ChangeAction> = Vec::new();
                v.push(action);
                proof {
                    lemma_actions_view_push(Seq::<ChangeAction>::empty(), action);
                    assert(Seq::<ChangeAction>::empty().push(action) =~= v@);
                }
                Ok((added_sep_at(cs, p2), v))
            },
        },
    }
}

/// One group of word operations.
fn word_operation_from(cs: &Vec<char>, p: usize) -> (r: Result<(usize, Vec<ChangeAction>), (usize, ErrorCode)>)
    requires
        p <= cs@.len(),
    ensures
        match word_operation_at(cs@, p as int) {
            Ok((e, acts)) => r matches Ok((e2, v)) && e2 == e && actions_view(v@) == acts,
            Err((f, code)) => r matches Err((f2, c)) && f2 == f && c == code,
        },
        r matches Ok((e, _)) ==> p < e <= cs@.len(),
        r matches Err((f, _)) ==> p <= f <= cs@.len(),
{
    match add_or_replace_words_from(cs, p) {
        Ok(x) => Ok(x),
        Err(_) => match add_words_1_from(cs, p) {
            Ok(x) => Ok(x),
            Err(_) => match exclude_words_from(cs, p) {
                Ok(x) => Ok(x),
                Err(_) => add_sentence_from(cs, p),
            },
        },
    }
}

/// One or more groups of word operations.
pub(crate) fn word_operations_from_at(cs: &Vec<char>, p: usize) -> (r: Result<(usize, Vec<ChangeAction>), (usize, ErrorCode)>)
    requires
        p <= cs@.len(),
    ensures
        match word_operations_at(cs@, p as int) {
            Ok((e, acts)) => r matches Ok((e2, v)) && e2 == e && actions_view(v@) == acts,
            Err((f, code)) => r matches Err((f2, c)) && f2 == f && c == code,
        },
        r matches Ok((e, _)) ==> p < e <= cs@.len(),
        r matches Err((f, _)) ==> p <= f <= cs@.len(),
{
    match word_operation_from(cs, p) {
        Err(x) => Err(x),
        Ok((e, first)) => {
            let ghost v0 = actions_view(first@);
            let mut acts = first;
            let mut pos = e;
            loop
                invariant
                    e <= pos <= cs@.len(),
                    word_operations_from(cs@, e as int, v0) == word_operations_from(cs@, pos as int, actions_view(acts@)),
                ensures
                    e <= pos <= cs@.len(),
                    word_operations_from(cs@, e as int, v0) == (pos as int, actions_view(acts@)),
                decreases cs@.len() - pos,
            {
                match word_operation_from(cs, pos) {
                    Ok((e2, mut more)) => {
                        let ghost before = acts@;
                        let ghost added = more@;
                        acts.append(&mut more);
                        proof {
                            lemma_actions_view_concat(before, added);
                        }
                        pos = e2;
                    },
                    Err(_) => {
                        break;
                    },
                }
            }
            Ok((pos, acts))
        },
    }
}

/// `слова "…" заменить словами "…"` (and `после слов "…" дополнить словами "…"`), one
/// change after the other: the replacements and additions, and the rest of the text.
pub fn add_or_replace_words(s: &str) -> (r: Result<(&str, Vec<ChangeAction>), ParserError>)
    ensures
        actions_read(s@, add_or_replace_words_at(s@, 0), r),
{
    let cs = chars_of(s);
    match add_or_replace_words_from(&cs, 0) {
        Ok((e, v)) => Ok((s.substring_char(e, cs.len()), v)),
        Err((f, code)) => Err(nom_error(&cs, f, code)),
    }
}

/// `дополнить словами "…"`: the words to add at the end, and the rest of the text.
pub fn add_words_1(s: &str) -> (r: Result<(&str, Vec<ChangeAction>), ParserError>)
    ensures
        actions_read(s@, add_words_1_at(s@, 0), r),
{
    let cs = chars_of(s);
    match add_words_1_from(&cs, 0) {
        Ok((e, v)) => Ok((s.substring_char(e, cs.len()), v)),
        Err((f, code)) => Err(nom_error(&cs, f, code)),
    }
}

/// `дополнить предложением следующего содержания: "…"`: the sentence to add, and the
/// rest of the text.
pub fn add_sentence(s: &str) -> (r: Result<(&str, Vec<ChangeAction>), ParserError>)
    ensures
        actions_read(s@, add_sentence_at(s@, 0), r),
{
    let cs = chars_of(s);
    match add_sentence_from(&cs, 0) {
        Ok((e, v)) => Ok((s.substring_char(e, cs.len()), v)),
        Err((f, code)) => Err(nom_error(&cs, f, code)),
    }
}

/// Word operations of every kind, one group after the other: all their operations in
/// order, and the rest of the text.
pub fn change_or_add_or_exclude_words(s: &str) -> (r: Result<(&str, Vec<ChangeAction>), ParserError>)
    ensures
        actions_read(s@, word_operations_at(s@, 0), r),
{
    let cs = chars_of(s);
    match word_operations_from_at(&cs, 0) {
        Ok((e, v)) => Ok((s.substring_char(e, cs.len()), v)),
        Err((f, code)) => Err(nom_error(&cs, f, code)),
    }
}

/// A quoted text at the start of `s`: the rest of the text and the text between the
/// quotes.
pub fn quoted_text(s: &str) -> (r: Result<(&str, &str), ParserError>)
    ensures
        match quoted_text_at(s@, 0) {
            Ok((e, t)) => r matches Ok((rest, q)) && rest@ == s@.subrange(e, s@.len() as int) && q@ == t,
            Err((f, code)) => r matches Err(ParserError::NomError { input, code: c }) && input@ == s@.subrange(
                f,
                s@.len() as int,
            ) && c == code,
        },
{
    let cs = chars_of(s);
    match quoted_at(&cs, 0) {
        Ok((e, a, b)) => Ok((s.substring_char(e, cs.len()), s.substring_char(a, b))),
        Err((f, code)) => Err(nom_error(&cs, f, code)),
    }
}

/// `(после )? слово|слова|слов` between spaces at the start of `s`: the rest of the text
/// and the form of `слово`.
pub fn searched_words(s: &str) -> (r: Result<(&str, &str), ParserError>)
    ensures
        match searched_words_end(s@, 0) {
            Ok((e, (a, b))) => r matches Ok((rest, w)) && rest@ == s@.subrange(e, s@.len() as int) && w@
                == s@.subrange(a, b),
            Err((f, code)) => r matches Err(ParserError::NomError { input, code: c }) && input@ == s@.subrange(
                f,
                s@.len() as int,
            ) && c == code,
        },
{
    let cs = chars_of(s);
    match searched_words_at(&cs, 0) {
        Ok((e, (a, b))) => Ok((s.substring_char(e, cs.len()), s.substring_char(a, b))),
        Err((f, code)) => Err(nom_error(&cs, f, code)),
    }
}

/// `дополнить словами`, `заменить словами` or `исключить` at the start of `s`: the rest
/// of the text and the operation.
pub fn all_operations(s: &str) -> (r: Result<(&str, LocalOperation), ParserError>)
    ensures
        match all_operations_at(s@, 0) {
            Ok((e, op)) => r matches Ok((rest, o)) && rest@ == s@.subrange(e, s@.len() as int) && o == op,
            Err((f, code)) => r matches Err(ParserError::NomError { input, code: c }) && input@ == s@.subrange(
                f,
                s@.len() as int,
            ) && c == code,
        },
{
    let cs = chars_of(s);
    match all_operations_from(&cs, 0) {
        Ok((e, op)) => Ok((s.substring_char(e, cs.len()), op)),
        Err((f, code)) => Err(nom_error(&cs, f, code)),
    }
}

/// `а) наименование после слов "…" дополнить словом "…"`: the changes of words of a
/// header's name as one operation, and the rest of the text.
pub fn change_name(s: &str) -> (r: Result<(&str, Vec<ChangeAction>), ParserError>)
    ensures
        actions_read(s@, change_name_at(s@), r),
{
    let cs = chars_of(s);
    proof {
        lemma_error_position(s@, 0, NumberIndex::Normal, seq![]);
    }
    match complex_number_parser(&cs, 0, NumberIndex::Normal, None) {
        Err(p) => Err(nom_error(&cs, p, ErrorCode::Digit)),
        Ok((p, _)) => {
            let mut steps: Vec<ExecStep> = Vec::new();
            steps.push(ExecStep::Space1);
            steps.push(ExecStep::Tag("наименование"));
            steps.push(ExecStep::Space1);
            assert(steps_view(steps@) =~= seq![Step::Space1, Step::Tag("наименование"@), Step::Space1]);
            match run_steps_at(&cs, p, &steps) {
                Err((f, code)) => Err(nom_error(&cs, f, code)),
                Ok(q) => match add_or_replace_words_from(&cs, q) {
                    Err((f, code)) => Err(nom_error(&cs, f, code)),
                    Ok((e, acts)) => {
                        let ghost inner = actions_view(acts@);
                        let action = ChangeAction::HeaderNameOperations(acts);
                        assert(action@ == ActionView::HeaderNameOperations(inner));
                        let mut v: Vec<ChangeAction> = Vec::new();
                        v.push(action);
                        proof {
                            lemma_actions_view_push(Seq::<ChangeAction>::empty(), action);
                            assert(Seq::<ChangeAction>::empty().push(action) =~= v@);
                        }
                        Ok((s.substring_char(e, cs.len()), v))
                    },
                },
            }
        },
    }
}

} // verus!
