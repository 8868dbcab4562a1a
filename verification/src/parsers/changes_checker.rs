//! Whether a line is a change directive: the verdict drawn from what each directive
//! grammar made of the line.
use vstd::prelude::*;
use crate::objects::remain_tokens::RemainTokens;
use crate::error::{ErrorCode, ParserError};
use crate::objects::header_type::header_of_lowercase;
use crate::objects::item_type::item_of_lowercase;
use crate::objects::number::{NumberIndex, NumberPart};
use crate::objects::number_parser::{acc_parts, complex_number_parser, lemma_error_position, parse_parts};
use crate::parsers::chars::{first_tag, first_tag_at, lemma_first_tag_found, run_steps, run_steps_at, space_end, spaces_end, steps_view, words_view, ExecStep, Step};
use crate::parsers::path_plus_number::{
    numbers_expandable, only_path_at, only_path_definition, path_error, paths_at, paths_from, stop_agrees, stop_error, NumberVocabulary,
    PathFail, PathStop, StepDesc,
};
use crate::parsers::apply::{apply_all, apply_short_at, number_path_apply_path_pieces};
use crate::parsers::path_plus_number::pieces_at;
use crate::parsers::tags::{new_edition_grammar, new_edition_steps, next_content_grammar, next_content_steps};
use crate::parsers::path_plus_number::{steps_then, stop_in};
use crate::parsers::replace::{replace_all, replace_at};
use crate::parsers::word_directives::{sentence_ordinals_known, words_operations, words_operations_at};
use crate::text::{chars_of, lowercased};

verus! {

/// What one directive grammar made of a line.
#[derive(Debug)]
pub enum GrammarOutcome {
    /// The grammar read the line.
    Accepted,
    /// The grammar stopped; the text left where it stopped.
    Stopped(String),
    /// The grammar failed without saying where.
    Failed,
}

/// The texts left by the grammars that stopped, in order.
pub open spec fn stopped_rests(o: Seq<GrammarOutcome>) -> Seq<Seq<char>>
    decreases o.len(),
{
    if o.len() == 0 {
        seq![]
    } else {
        let r = stopped_rests(o.drop_last());
        match o.last() {
            GrammarOutcome::Stopped(s) => r.push(s@),
            _ => r,
        }
    }
}

/// Some grammar read the line.
pub open spec fn any_accepted(o: Seq<GrammarOutcome>) -> bool {
    exists|i: int| 0 <= i < o.len() && o[i] is Accepted
}

/// The length of a text in UTF-8 bytes, as `str::len` gives it.
pub open spec fn byte_len(s: Seq<char>) -> usize {
    vstd::utf8::encode_utf8(s).len() as usize
}

/// The first of the shortest texts (in bytes).
pub open spec fn shortest_first(v: Seq<Seq<char>>) -> Seq<char>
    decreases v.len(),
{
    if v.len() <= 1 {
        v[0]
    } else {
        let r = shortest_first(v.drop_last());
        if byte_len(v.last()) < byte_len(r) {
            v.last()
        } else {
            r
        }
    }
}

/// The number of plain spaces in a text.
pub open spec fn spaces_in(s: Seq<char>) -> nat
    decreases s.len(),
{
    if s.len() == 0 {
        0
    } else {
        spaces_in(s.drop_last()) + if s.last() == ' ' {
            1nat
        } else {
            0nat
        }
    }
}

/// The verdict on a line `s` from the outcomes of the grammars: accepted when some
/// grammar read it; otherwise refused, with the shortest text left by a grammar that
/// stopped when that text has at least two words fewer than the line, and with no text
/// when no grammar stopped with a rest.
pub fn new_checker_with(s: &str, outcomes: &Vec<GrammarOutcome>) -> (r: (bool, Option<RemainTokens>))
    ensures
        any_accepted(outcomes@) ==> r.0 && r.1 is None,
        !any_accepted(outcomes@) && stopped_rests(outcomes@).len() == 0 ==> !r.0 && r.1 is None,
        !any_accepted(outcomes@) && stopped_rests(outcomes@).len() > 0 ==> {
            let first = shortest_first(stopped_rests(outcomes@));
            &&& !r.0
            &&& if spaces_in(first) + 1 <= spaces_in(s@) - 1 {
                r.1 matches Some(t) && t.source() == s@ && t.remains() == first
            } else {
                r.1 is None
            }
        },
{
    let mut i: usize = 0;
    let mut best: Option<&String> = None;
    let mut best_len: usize = 0;
    while i < outcomes.len()
        invariant
            i <= outcomes@.len(),
            forall|k: int| 0 <= k < i ==> !(outcomes@[k] is Accepted),
            best is None <==> stopped_rests(outcomes@.subrange(0, i as int)).len() == 0,
            best matches Some(b) ==> b@ == shortest_first(stopped_rests(outcomes@.subrange(0, i as int)))
                && best_len == byte_len(b@),
        decreases outcomes@.len() - i,
    {
        proof {
            assert(outcomes@.subrange(0, i + 1).drop_last() =~= outcomes@.subrange(0, i as int));
        }
        match &outcomes[i] {
            GrammarOutcome::Accepted => {
                return (true, None);
            },
            GrammarOutcome::Stopped(rest) => {
                let n = rest.as_str().len();
                proof {
                    let pre = stopped_rests(outcomes@.subrange(0, i as int));
                    assert(stopped_rests(outcomes@.subrange(0, i + 1)) == pre.push(rest@));
                    assert(pre.push(rest@).drop_last() =~= pre);
                    assert(n == byte_len(rest@));
                }
                match best {
                    Some(_) => {
                        if n < best_len {
                            best = Some(rest);
                            best_len = n;
                        }
                    },
                    None => {
                        best = Some(rest);
                        best_len = n;
                    },
                }
            },
            GrammarOutcome::Failed => {},
        }
        i = i + 1;
    }
    assert(outcomes@.subrange(0, outcomes@.len() as int) =~= outcomes@);
    assert(!any_accepted(outcomes@));
    let first = match best {
        Some(b) => b,
        None => {
            return (false, None);
        },
    };
    let spaces_first = count_spaces(first.as_str());
    let spaces_line = count_spaces(s);
    if spaces_line >= 2 && spaces_first <= spaces_line - 2 {
        (false, Some(RemainTokens::new(s, first.as_str())))
    } else {
        (false, None)
    }
}

/// The number of plain spaces in a text.
fn count_spaces(s: &str) -> (r: usize)
    ensures
        r == spaces_in(s@),
        r <= s@.len(),
{
    let cs = crate::text::chars_of(s);
    let mut n: usize = 0;
    let mut i: usize = 0;
    while i < cs.len()
        invariant
            cs@ == s@,
            i <= cs@.len(),
            n == spaces_in(s@.subrange(0, i as int)),
            n <= i,
        decreases cs@.len() - i,
    {
        if cs[i] == ' ' {
            n = n + 1;
        }
        i = i + 1;
        assert(s@.subrange(0, i as int).drop_last() =~= s@.subrange(0, i - 1));
    }
    assert(s@.subrange(0, cs@.len() as int) =~= s@);
    n
}

/// The words after a number that mark a header's name.
pub open spec fn name_words() -> Seq<Seq<char>> {
    seq!["наименование"@, "в наименовании"@]
}

/// The words that may start a change of a name.
pub open spec fn name_change_words() -> Seq<Seq<char>> {
    seq!["после слов"@, "слова"@, "слово"@, "изложить"@]
}

/// A line about a header's name: a number, optionally the name words, then a path or a
/// word that starts a change, and any spaces; where it ends, or why it fails.
pub open spec fn item_name_at(s: Seq<char>, voc: NumberVocabulary) -> Result<int, PathFail> {
    match parse_parts(s, 0, NumberIndex::Normal, seq![]) {
        Err(p) => Err(PathFail::Code(p, ErrorCode::Digit)),
        Ok((p1, _)) => {
            let q = match run_steps(s, p1, seq![Step::Spaces, Step::OneOfNoCase(name_words())]) {
                Ok(q) => q,
                Err(_) => space_end(s, p1),
            };
            let q2 = space_end(s, q);
            match paths_at(s, q2, voc) {
                Ok((e, _)) => Ok(space_end(s, e)),
                Err(_) => match first_tag(s, q2, name_change_words(), false) {
                    Some(k) => Ok(space_end(s, q2 + name_change_words()[k].len())),
                    None => Err(PathFail::Code(q2, ErrorCode::Tag)),
                },
            }
        },
    }
}

/// A line about a header's name, at the start of `s`: the rest of the text.
pub fn item_name<'a>(s: &'a str, voc: &NumberVocabulary) -> (r: Result<(&'a str, &'a str), ParserError>)
    requires
        numbers_expandable(s@, *voc),
    ensures
        match item_name_at(s@, *voc) {
            Ok(e) => r matches Ok((rest, t)) && rest@ == s@.subrange(e, s@.len() as int) && t@.len() == 0,
            Err(f) => r matches Err(err) && path_error(s@, f, err),
        },
{
    let cs = chars_of(s);
    let n = cs.len();
    proof {
        lemma_error_position(cs@, 0, NumberIndex::Normal, seq![]);
        assert(acc_parts(None) =~= Seq::<NumberPart>::empty());
    }
    let p1 = match complex_number_parser(&cs, 0, NumberIndex::Normal, None) {
        Err(p) => {
            assert(stop_agrees(PathStop::At(p, ErrorCode::Digit), PathFail::Code(p as int, ErrorCode::Digit)));
            return Err(stop_error(&cs, PathStop::At(p, ErrorCode::Digit)));
        },
        Ok((p1, _)) => p1,
    };
    let names = vec!["наименование", "в наименовании"];
    assert(words_view(names@) =~= name_words());
    let steps = vec![ExecStep::Spaces, ExecStep::OneOfNoCase(names)];
    assert(steps_view(steps@) =~= seq![Step::Spaces, Step::OneOfNoCase(name_words())]);
    let q = match run_steps_at(&cs, p1, &steps) {
        Ok(q) => q,
        Err(_) => spaces_end(&cs, p1),
    };
    let q2 = spaces_end(&cs, q);
    let e = match paths_from(&cs, q2, voc) {
        Ok((e, _)) => spaces_end(&cs, e),
        Err(_) => {
            let ws = vec!["после слов", "слова", "слово", "изложить"];
            assert(words_view(ws@) =~= name_change_words());
            match first_tag_at(&cs, q2, &ws, false) {
                Some(k) => {
                    proof {
                        lemma_first_tag_found(cs@, q2 as int, name_change_words(), false);
                    }
                    assert(name_change_words()[k as int] == ws@[k as int]@);
                    spaces_end(&cs, q2 + ws[k].unicode_len())
                },
                None => {
                    assert(stop_agrees(PathStop::At(q2, ErrorCode::Tag), PathFail::Code(q2 as int, ErrorCode::Tag)));
                    return Err(stop_error(&cs, PathStop::At(q2, ErrorCode::Tag)));
                },
            }
        },
    };
    let empty = "";
    proof {
        reveal_strlit("");
    }
    Ok((s.substring_char(e, cs.len()), empty))
}

/// What a grammar made of a line, as the checker sees it.
pub ghost enum Verdict {
    Accepted,
    Stopped(Seq<char>),
    Failed,
}

/// The text a refused step leaves where its number could not be read, if the error
/// is of that kind.
pub open spec fn refused_rest(d: StepDesc) -> Option<Seq<char>> {
    match d {
        StepDesc::Header(w, n) => if header_of_lowercase(lowercased(w)) is None {
            None
        } else {
            match parse_parts(n, 0, NumberIndex::Normal, seq![]) {
                Err(p) => Some(n.subrange(p, n.len() as int)),
                Ok(_) => None,
            }
        },
        StepDesc::Item(_, n) => match parse_parts(n, 0, NumberIndex::Normal, seq![]) {
            Err(p) => Some(n.subrange(p, n.len() as int)),
            Ok(_) => None,
        },
        StepDesc::Indent(_) => None,
    }
}

/// The text a failure reports, where the failure is a refusal at a place of the text.
pub open spec fn fail_rest(s: Seq<char>, f: PathFail) -> Option<Seq<char>> {
    match f {
        PathFail::Code(p, _) => Some(s.subrange(p, s.len() as int)),
        PathFail::IndentTokens(_) => None,
        PathFail::Refused(d) => refused_rest(d),
    }
}

/// The verdict of one grammar's result on `s`.
#[verifier::opaque]
pub open spec fn verdict_of(s: Seq<char>, r: Result<int, PathFail>) -> Verdict {
    match r {
        Ok(_) => Verdict::Accepted,
        Err(f) => match fail_rest(s, f) {
            Some(t) => Verdict::Stopped(t),
            None => Verdict::Failed,
        },
    }
}

/// Where a result ends, or its failure.
pub open spec fn ends<T>(r: Result<(int, T), PathFail>) -> Result<int, PathFail> {
    match r {
        Ok((e, _)) => Ok(e),
        Err(f) => Err(f),
    }
}

/// The directive that adds units, in its short forms and then its long form.
pub open spec fn apply_all_at(s: Seq<char>, voc: NumberVocabulary) -> Result<int, PathFail> {
    match apply_short_at(s, voc) {
        Ok((e, _)) => Ok(e),
        Err(_) => ends(pieces_at(s, 0, number_path_apply_path_pieces(), voc)),
    }
}

/// The verdicts of the grammars on a line, in the order they are tried: a place alone,
/// an addition, word operations, a new edition, a header's name.
#[verifier::opaque]
pub open spec fn checker_verdicts(s: Seq<char>, voc: NumberVocabulary) -> Seq<Verdict> {
    seq![
        verdict_of(s, ends(only_path_at(s, voc))),
        verdict_of(s, apply_all_at(s, voc)),
        verdict_of(s, ends(words_operations_at(s, voc))),
        verdict_of(s, ends(replace_at(s, voc))),
        verdict_of(s, item_name_at(s, voc)),
    ]
}

/// The verdict an outcome stands for.
pub open spec fn outcome_verdict(o: GrammarOutcome) -> Verdict {
    match o {
        GrammarOutcome::Accepted => Verdict::Accepted,
        GrammarOutcome::Stopped(t) => Verdict::Stopped(t@),
        GrammarOutcome::Failed => Verdict::Failed,
    }
}

/// Some grammar read the line.
pub open spec fn some_accepted(v: Seq<Verdict>) -> bool {
    exists|i: int| 0 <= i < v.len() && v[i] is Accepted
}

/// The texts left by the grammars that stopped, in order.
pub open spec fn stopped_texts(v: Seq<Verdict>) -> Seq<Seq<char>>
    decreases v.len(),
{
    if v.len() == 0 {
        seq![]
    } else {
        let r = stopped_texts(v.drop_last());
        match v.last() {
            Verdict::Stopped(t) => r.push(t),
            _ => r,
        }
    }
}

/// The texts of the stopped outcomes are those of their verdicts.
proof fn lemma_stopped_texts(o: Seq<GrammarOutcome>)
    ensures
        stopped_rests(o) == stopped_texts(o.map_values(|x: GrammarOutcome| outcome_verdict(x))),
    decreases o.len(),
{
    if o.len() > 0 {
        lemma_stopped_texts(o.drop_last());
        assert(o.drop_last().map_values(|x: GrammarOutcome| outcome_verdict(x)) =~= o.map_values(
            |x: GrammarOutcome| outcome_verdict(x),
        ).drop_last());
    }
}

/// The outcome of a grammar's result: read, stopped at a place (with the text left
/// there), or failed otherwise.
fn outcome_of<T>(r: &Result<T, ParserError>) -> (o: GrammarOutcome)
    ensures
        r is Ok ==> o is Accepted,
        r matches Err(e) ==> match e {
            ParserError::NomError { input, .. } => o matches GrammarOutcome::Stopped(t) && t@ == input@,
            _ => o is Failed,
        },
{
    match r {
        Ok(_) => GrammarOutcome::Accepted,
        Err(ParserError::NomError { input, .. }) => {
            let c = chars_of(input.as_str());
            GrammarOutcome::Stopped(crate::text::string_of_range(c.as_slice(), 0, c.len()))
        },
        Err(_) => GrammarOutcome::Failed,
    }
}

/// The error of a grammar on `s` gives the outcome its failure stands for.
proof fn lemma_failure_outcome(s: Seq<char>, f: PathFail, e: ParserError, o: GrammarOutcome)
    requires
        path_error(s, f, e),
        match e {
            ParserError::NomError { input, .. } => o matches GrammarOutcome::Stopped(t) && t@ == input@,
            _ => o is Failed,
        },
    ensures
        outcome_verdict(o) == verdict_of(s, Err(f)),
{
    reveal(verdict_of);
}

/// The outcome of the grammar of a place alone.
fn only_path_outcome(s: &str, voc: &NumberVocabulary) -> (o: GrammarOutcome)
    requires
        numbers_expandable(s@, *voc),
    ensures
        outcome_verdict(o) == verdict_of(s@, ends(only_path_at(s@, *voc))),
{
    let r = only_path_definition(s, voc);
    let o = outcome_of(&r);
    proof {
        reveal(verdict_of);
        match only_path_at(s@, *voc) {
            Ok(_) => {},
            Err(f) => lemma_failure_outcome(s@, f, r->Err_0, o),
        }
    }
    o
}

/// The outcome of the grammar of an addition.
fn apply_outcome(s: &str, voc: &NumberVocabulary) -> (o: GrammarOutcome)
    requires
        numbers_expandable(s@, *voc),
    ensures
        outcome_verdict(o) == verdict_of(s@, apply_all_at(s@, *voc)),
{
    let r = apply_all(s, voc);
    let o = outcome_of(&r);
    proof {
        reveal(verdict_of);
        match apply_short_at(s@, *voc) {
            Ok(_) => {},
            Err(_) => match pieces_at(s@, 0, number_path_apply_path_pieces(), *voc) {
                Ok(_) => {},
                Err(f) => lemma_failure_outcome(s@, f, r->Err_0, o),
            },
        }
    }
    o
}

/// The outcome of the grammar of word operations.
fn words_outcome(s: &str, voc: &NumberVocabulary) -> (o: GrammarOutcome)
    requires
        numbers_expandable(s@, *voc),
        sentence_ordinals_known(*voc),
    ensures
        outcome_verdict(o) == verdict_of(s@, ends(words_operations_at(s@, *voc))),
{
    let r = words_operations(s, voc);
    let o = outcome_of(&r);
    proof {
        reveal(verdict_of);
        match words_operations_at(s@, *voc) {
            Ok(_) => {},
            Err(f) => lemma_failure_outcome(s@, f, r->Err_0, o),
        }
    }
    o
}

/// The outcome of the grammar of a new edition.
fn replace_outcome(s: &str, voc: &NumberVocabulary) -> (o: GrammarOutcome)
    requires
        numbers_expandable(s@, *voc),
    ensures
        outcome_verdict(o) == verdict_of(s@, ends(replace_at(s@, *voc))),
{
    let r = replace_all(s, voc);
    let o = outcome_of(&r);
    proof {
        reveal(verdict_of);
        match replace_at(s@, *voc) {
            Ok(_) => {},
            Err(f) => lemma_failure_outcome(s@, f, r->Err_0, o),
        }
    }
    o
}

/// The outcome of the grammar of a header's name.
fn item_name_outcome(s: &str, voc: &NumberVocabulary) -> (o: GrammarOutcome)
    requires
        numbers_expandable(s@, *voc),
    ensures
        outcome_verdict(o) == verdict_of(s@, item_name_at(s@, *voc)),
{
    let r = item_name(s, voc);
    let o = outcome_of(&r);
    proof {
        reveal(verdict_of);
        match item_name_at(s@, *voc) {
            Ok(_) => {},
            Err(f) => lemma_failure_outcome(s@, f, r->Err_0, o),
        }
    }
    o
}

/// The outcomes of the grammars stand for the verdicts on the line.
proof fn lemma_verdicts_link(s: Seq<char>, voc: NumberVocabulary, o: Seq<GrammarOutcome>)
    requires
        o.len() == 5,
        outcome_verdict(o[0]) == verdict_of(s, ends(only_path_at(s, voc))),
        outcome_verdict(o[1]) == verdict_of(s, apply_all_at(s, voc)),
        outcome_verdict(o[2]) == verdict_of(s, ends(words_operations_at(s, voc))),
        outcome_verdict(o[3]) == verdict_of(s, ends(replace_at(s, voc))),
        outcome_verdict(o[4]) == verdict_of(s, item_name_at(s, voc)),
    ensures
        stopped_rests(o) == stopped_texts(checker_verdicts(s, voc)),
        any_accepted(o) <==> some_accepted(checker_verdicts(s, voc)),
{
    reveal(checker_verdicts);
    let v = checker_verdicts(s, voc);
    let mv = o.map_values(|x: GrammarOutcome| outcome_verdict(x));
    assert(mv =~= v);
    lemma_stopped_texts(o);
    if some_accepted(v) {
        let i = choose|i: int| 0 <= i < v.len() && v[i] is Accepted;
        assert(mv[i] == outcome_verdict(o[i]));
    }
    if any_accepted(o) {
        let i = choose|i: int| 0 <= i < o.len() && o[i] is Accepted;
        assert(mv[i] == outcome_verdict(o[i]));
    }
}

/// Whether a line is a change directive: the grammars of a place alone, an addition,
/// word operations, a new edition and a header's name are tried in turn; the line is
/// accepted when one reads it; otherwise refused, with the shortest text left by a
/// grammar that stopped at a place of the line when it has at least two words fewer
/// than the line, and with no text when no grammar stopped so.
pub fn new_checker(s: &str, voc: &NumberVocabulary) -> (r: (bool, Option<RemainTokens>))
    requires
        numbers_expandable(s@, *voc),
        sentence_ordinals_known(*voc),
    ensures
        some_accepted(checker_verdicts(s@, *voc)) ==> r.0 && r.1 is None,
        !some_accepted(checker_verdicts(s@, *voc)) && stopped_texts(checker_verdicts(s@, *voc)).len() == 0 ==> !r.0
            && r.1 is None,
        !some_accepted(checker_verdicts(s@, *voc)) && stopped_texts(checker_verdicts(s@, *voc)).len() > 0 ==> {
            let first = shortest_first(stopped_texts(checker_verdicts(s@, *voc)));
            &&& !r.0
            &&& if spaces_in(first) + 1 <= spaces_in(s@) - 1 {
                r.1 matches Some(t) && t.source() == s@ && t.remains() == first
            } else {
                r.1 is None
            }
        },
{
    let o1 = only_path_outcome(s, voc);
    let o2 = apply_outcome(s, voc);
    let o3 = words_outcome(s, voc);
    let o4 = replace_outcome(s, voc);
    let o5 = item_name_outcome(s, voc);
    let outcomes = vec![o1, o2, o3, o4, o5];
    proof {
        lemma_verdicts_link(s@, *voc, outcomes@);
    }
    new_checker_with(s, &outcomes)
}

/// Whether a line is a change directive.
pub fn check_if_change(s: &str, voc: &NumberVocabulary) -> (r: bool)
    requires
        numbers_expandable(s@, *voc),
        sentence_ordinals_known(*voc),
    ensures
        r == some_accepted(checker_verdicts(s@, *voc)),
{
    let (accepted, _) = new_checker(s, voc);
    accepted
}

/// ` в ` (case aside) between spaces, else any spaces.
pub open spec fn in_word_end(s: Seq<char>, p: int) -> int {
    match run_steps(s, p, seq![Step::Spaces, Step::OneOfNoCase(seq!["в"@]), Step::Space1]) {
        Ok(q) => q,
        Err(_) => space_end(s, p),
    }
}

/// A path after ` в ` or spaces, from `p`.
pub open spec fn item_path_at(s: Seq<char>, p: int, voc: NumberVocabulary) -> Result<int, PathFail> {
    ends(paths_at(s, in_word_end(s, p), voc))
}

/// A number and then a path, else a path alone.
pub open spec fn item_path2_at(s: Seq<char>, voc: NumberVocabulary) -> Result<int, PathFail> {
    match parse_parts(s, 0, NumberIndex::Normal, seq![]) {
        Ok((p1, _)) => match item_path_at(s, p1, voc) {
            Ok(e) => Ok(e),
            Err(_) => item_path_at(s, 0, voc),
        },
        Err(_) => item_path_at(s, 0, voc),
    }
}

/// The words that may follow `дополнить` in a line that adds.
pub open spec fn apply_words() -> Seq<Seq<char>> {
    seq!["новыми"@, "новым"@, "словом"@, "словами"@]
}

/// `дополнить`, a space, an optional word of `apply_words`, then a path or `абзацем
/// следующего содержания:`, from `p`.
pub open spec fn check_apply_at(s: Seq<char>, p: int, voc: NumberVocabulary) -> Result<int, PathFail> {
    match run_steps(s, p, seq![Step::Spaces, Step::Tag("дополнить"@), Step::Space1]) {
        Err((f, c)) => Err(PathFail::Code(f, c)),
        Ok(q) => {
            let q1 = match first_tag(s, q, apply_words(), true) {
                Some(k) => q + apply_words()[k].len(),
                None => space_end(s, q),
            };
            let q2 = space_end(s, q1);
            match paths_at(s, q2, voc) {
                Ok((e, _)) => Ok(e),
                Err(_) => match run_steps(s, q2, seq![Step::Tag("абзацем"@), Step::Space1] + next_content_grammar(true)) {
                    Ok(e) => Ok(e),
                    Err((f, c)) => Err(PathFail::Code(f, c)),
                },
            }
        },
    }
}

/// A number, then a path and `дополнить` (`k` = 0), a path alone (1), or `дополнить` (2).
pub open spec fn number_form_at(s: Seq<char>, k: int, voc: NumberVocabulary) -> Result<int, PathFail> {
    match parse_parts(s, 0, NumberIndex::Normal, seq![]) {
        Err(p) => Err(PathFail::Code(p, ErrorCode::Digit)),
        Ok((p1, _)) => if k == 2 {
            check_apply_at(s, p1, voc)
        } else {
            match paths_at(s, p1, voc) {
                Err(f) => Err(f),
                Ok((e, _)) => if k == 0 {
                    check_apply_at(s, e, voc)
                } else {
                    Ok(e)
                },
            }
        },
    }
}

/// A path, then `считать` and a path (`k` = 3), `дополнить` (4), or a new edition (5).
pub open spec fn path_form_at(s: Seq<char>, k: int, voc: NumberVocabulary) -> Result<int, PathFail> {
    match paths_at(s, 0, voc) {
        Err(f) => Err(f),
        Ok((e, _)) => if k == 3 {
            match run_steps(s, e, seq![Step::Tag("считать"@), Step::Space1]) {
                Err((f, c)) => Err(PathFail::Code(f, c)),
                Ok(q) => ends(paths_at(s, q, voc)),
            }
        } else if k == 4 {
            check_apply_at(s, e, voc)
        } else {
            match run_steps(s, e, new_edition_grammar(true)) {
                Err((f, c)) => Err(PathFail::Code(f, c)),
                Ok(q) => Ok(q),
            }
        },
    }
}

/// The forms of an addition or a new edition that the checker knows, in order.
#[verifier::opaque]
pub open spec fn apply2_form_at(s: Seq<char>, k: int, voc: NumberVocabulary) -> Result<int, PathFail> {
    if k <= 2 {
        number_form_at(s, k, voc)
    } else if k <= 5 {
        path_form_at(s, k, voc)
    } else {
        check_apply_at(s, 0, voc)
    }
}

/// The first of the forms from `k` on that reads the line, or the failure of the last.
pub open spec fn apply2_from(s: Seq<char>, k: int, voc: NumberVocabulary) -> Result<int, PathFail>
    decreases 6 - k,
{
    if k >= 6 || k < 0 {
        apply2_form_at(s, 6, voc)
    } else {
        match apply2_form_at(s, k, voc) {
            Ok(e) => Ok(e),
            Err(_) => apply2_from(s, k + 1, voc),
        }
    }
}

/// What the checker reads of a line: a path, else an addition or a new edition, else a
/// header's name (whose failure is the error).
pub open spec fn check_result_at(s: Seq<char>, voc: NumberVocabulary) -> Result<int, PathFail> {
    match item_path2_at(s, voc) {
        Ok(e) => Ok(e),
        Err(_) => match apply2_from(s, 0, voc) {
            Ok(e) => Ok(e),
            Err(_) => item_name_at(s, voc),
        },
    }
}

/// ` в ` between spaces, else any spaces, from `p`.
fn in_word_from(cs: &Vec<char>, p: usize) -> (r: usize)
    requires
        p <= cs@.len(),
    ensures
        r == in_word_end(cs@, p as int),
        r <= cs@.len(),
{
    let v = vec!["в"];
    assert(words_view(v@) =~= seq!["в"@]);
    let steps = vec![ExecStep::Spaces, ExecStep::OneOfNoCase(v), ExecStep::Space1];
    assert(steps_view(steps@) =~= seq![Step::Spaces, Step::OneOfNoCase(seq!["в"@]), Step::Space1]);
    match run_steps_at(cs, p, &steps) {
        Ok(q) => q,
        Err(_) => spaces_end(cs, p),
    }
}

/// A path after ` в ` or spaces, from `p`.
fn item_path_from(cs: &Vec<char>, p: usize, voc: &NumberVocabulary) -> (r: Result<usize, PathStop>)
    requires
        p <= cs@.len(),
        numbers_expandable(cs@, *voc),
    ensures
        match item_path_at(cs@, p as int, *voc) {
            Ok(e) => r matches Ok(e2) && e2 == e,
            Err(f) => r matches Err(st) && stop_agrees(st, f),
        },
        r matches Ok(e) ==> e <= cs@.len(),
        r matches Err(st) ==> stop_in(st, cs@.len()),
{
    let q = in_word_from(cs, p);
    match paths_from(cs, q, voc) {
        Ok((e, _)) => Ok(e),
        Err(x) => Err(x),
    }
}

/// A number where the line starts with one.
fn number_end(cs: &Vec<char>) -> (r: Result<usize, usize>)
    ensures
        match parse_parts(cs@, 0, NumberIndex::Normal, seq![]) {
            Ok((p, _)) => r matches Ok(q) && q == p,
            Err(p) => r matches Err(q) && q == p,
        },
        r matches Ok(q) ==> q <= cs@.len(),
        r matches Err(q) ==> q <= cs@.len(),
{
    proof {
        lemma_error_position(cs@, 0, NumberIndex::Normal, seq![]);
        assert(acc_parts(None) =~= Seq::<NumberPart>::empty());
    }
    match complex_number_parser(cs, 0, NumberIndex::Normal, None) {
        Ok((p, _)) => Ok(p),
        Err(p) => Err(p),
    }
}

/// `дополнить` and what may follow it, from `p`.
fn check_apply_from(cs: &Vec<char>, p: usize, voc: &NumberVocabulary) -> (r: Result<usize, PathStop>)
    requires
        p <= cs@.len(),
        numbers_expandable(cs@, *voc),
    ensures
        match check_apply_at(cs@, p as int, *voc) {
            Ok(e) => r matches Ok(e2) && e2 == e,
            Err(f) => r matches Err(st) && stop_agrees(st, f),
        },
        r matches Ok(e) ==> e <= cs@.len(),
        r matches Err(st) ==> stop_in(st, cs@.len()),
{
    let n = cs.len();
    let head = vec![ExecStep::Spaces, ExecStep::Tag("дополнить"), ExecStep::Space1];
    assert(steps_view(head@) =~= seq![Step::Spaces, Step::Tag("дополнить"@), Step::Space1]);
    let q = match run_steps_at(cs, p, &head) {
        Err((f, c)) => {
            return Err(PathStop::At(f, c));
        },
        Ok(q) => q,
    };
    let ws = vec!["новыми", "новым", "словом", "словами"];
    assert(words_view(ws@) =~= apply_words());
    let q1 = match first_tag_at(cs, q, &ws, true) {
        Some(k) => {
            proof {
                lemma_first_tag_found(cs@, q as int, apply_words(), true);
            }
            assert(apply_words()[k as int] == ws@[k as int]@);
            q + ws[k].unicode_len()
        },
        None => spaces_end(cs, q),
    };
    let q2 = spaces_end(cs, q1);
    match paths_from(cs, q2, voc) {
        Ok((e, _)) => Ok(e),
        Err(_) => {
            let mid = vec![ExecStep::Tag("абзацем"), ExecStep::Space1];
            assert(steps_view(mid@) =~= seq![Step::Tag("абзацем"@), Step::Space1]);
            let steps = steps_then(mid, next_content_steps(true));
            match run_steps_at(cs, q2, &steps) {
                Ok(e) => Ok(e),
                Err((f, c)) => Err(PathStop::At(f, c)),
            }
        },
    }
}

/// A number, then a path and `дополнить`, a path alone, or `дополнить`.
fn number_form_from(cs: &Vec<char>, k: usize, voc: &NumberVocabulary) -> (r: Result<usize, PathStop>)
    requires
        k <= 2,
        numbers_expandable(cs@, *voc),
    ensures
        match number_form_at(cs@, k as int, *voc) {
            Ok(e) => r matches Ok(e2) && e2 == e,
            Err(f) => r matches Err(st) && stop_agrees(st, f),
        },
        r matches Ok(e) ==> e <= cs@.len(),
        r matches Err(st) ==> stop_in(st, cs@.len()),
{
    let p1 = match number_end(cs) {
        Err(p) => {
            return Err(PathStop::At(p, ErrorCode::Digit));
        },
        Ok(p1) => p1,
    };
    if k == 2 {
        return check_apply_from(cs, p1, voc);
    }
    let e = match paths_from(cs, p1, voc) {
        Err(x) => {
            return Err(x);
        },
        Ok((e, _)) => e,
    };
    if k == 0 {
        check_apply_from(cs, e, voc)
    } else {
        Ok(e)
    }
}

/// A path, then `считать` and a path, `дополнить`, or a new edition.
#[verifier::rlimit(40)]
fn path_form_from(cs: &Vec<char>, k: usize, voc: &NumberVocabulary) -> (r: Result<usize, PathStop>)
    requires
        3 <= k <= 5,
        numbers_expandable(cs@, *voc),
    ensures
        match path_form_at(cs@, k as int, *voc) {
            Ok(e) => r matches Ok(e2) && e2 == e,
            Err(f) => r matches Err(st) && stop_agrees(st, f),
        },
        r matches Ok(e) ==> e <= cs@.len(),
        r matches Err(st) ==> stop_in(st, cs@.len()),
{
    let e = match paths_from(cs, 0, voc) {
        Err(x) => {
            return Err(x);
        },
        Ok((e, _)) => e,
    };
    if k == 3 {
        let mid = vec![ExecStep::Tag("считать"), ExecStep::Space1];
        assert(steps_view(mid@) =~= seq![Step::Tag("считать"@), Step::Space1]);
        match run_steps_at(cs, e, &mid) {
            Err((f, c)) => Err(PathStop::At(f, c)),
            Ok(q) => match paths_from(cs, q, voc) {
                Ok((e2, _)) => Ok(e2),
                Err(x) => Err(x),
            },
        }
    } else if k == 4 {
        check_apply_from(cs, e, voc)
    } else {
        let steps = new_edition_steps(true);
        match run_steps_at(cs, e, &steps) {
            Err((f, c)) => Err(PathStop::At(f, c)),
            Ok(q) => Ok(q),
        }
    }
}

/// The `k`-th form of an addition or new edition.
fn apply2_form_from(cs: &Vec<char>, k: usize, voc: &NumberVocabulary) -> (r: Result<usize, PathStop>)
    requires
        k <= 6,
        numbers_expandable(cs@, *voc),
    ensures
        match apply2_form_at(cs@, k as int, *voc) {
            Ok(e) => r matches Ok(e2) && e2 == e,
            Err(f) => r matches Err(st) && stop_agrees(st, f),
        },
        r matches Ok(e) ==> e <= cs@.len(),
        r matches Err(st) ==> stop_in(st, cs@.len()),
{
    reveal(apply2_form_at);
    if k <= 2 {
        number_form_from(cs, k, voc)
    } else if k <= 5 {
        path_form_from(cs, k, voc)
    } else {
        check_apply_from(cs, 0, voc)
    }
}

/// The forms of an addition or a new edition, tried in turn.
fn apply2_run(cs: &Vec<char>, voc: &NumberVocabulary) -> (r: Result<usize, PathStop>)
    requires
        numbers_expandable(cs@, *voc),
    ensures
        match apply2_from(cs@, 0, *voc) {
            Ok(e) => r matches Ok(e2) && e2 == e,
            Err(_) => r is Err,
        },
        r matches Ok(e) ==> e <= cs@.len(),
{
    let mut k: usize = 0;
    while k < 6
        invariant
            k <= 6,
            numbers_expandable(cs@, *voc),
            apply2_from(cs@, 0, *voc) == apply2_from(cs@, k as int, *voc),
        decreases 6 - k,
    {
        match apply2_form_from(cs, k, voc) {
            Ok(e) => {
                return Ok(e);
            },
            Err(_) => {},
        }
        k = k + 1;
    }
    apply2_form_from(cs, 6, voc)
}

/// What the checker reads of a line: a path (after a number, or alone), else one of the
/// forms of an addition or a new edition, else a header's name, whose failure is the
/// error; the rest of the line.
pub fn check_if_change_result<'a>(s: &'a str, voc: &NumberVocabulary) -> (r: Result<(&'a str, &'a str), ParserError>)
    requires
        numbers_expandable(s@, *voc),
    ensures
        match check_result_at(s@, *voc) {
            Ok(e) => r matches Ok((rest, t)) && rest@ == s@.subrange(e, s@.len() as int) && t@.len() == 0,
            Err(f) => r matches Err(err) && path_error(s@, f, err),
        },
{
    let cs = chars_of(s);
    let empty = "";
    proof {
        reveal_strlit("");
    }
    let first = match number_end(&cs) {
        Ok(p1) => match item_path_from(&cs, p1, voc) {
            Ok(e) => Ok(e),
            Err(_) => item_path_from(&cs, 0, voc),
        },
        Err(_) => item_path_from(&cs, 0, voc),
    };
    if let Ok(e) = first {
        return Ok((s.substring_char(e, cs.len()), empty));
    }
    match apply2_run(&cs, voc) {
        Ok(e) => {
            return Ok((s.substring_char(e, cs.len()), empty));
        },
        Err(_) => {},
    }
    item_name(s, voc)
}

} // verus!
