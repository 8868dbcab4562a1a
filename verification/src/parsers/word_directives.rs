//! Directives on words, sentences and whole units of a place: `1. в статье 5 слова "…"
//! заменить словами "…"`, `2) пункт 3 признать утратившим силу;`, `3) часть 12
//! исключить`, `4) в статье 7 первое предложение изложить в следующей редакции: "…";`.
use vstd::prelude::*;
use crate::change_action::{ActionView, ChangeAction, actions_view, lemma_actions_view_push};
use crate::change_path::{numbers_of, ChangePath, TargetPath};
use crate::error::{ErrorCode, ParserError};
use crate::objects::number::{Number, NumberIndex, NumberPart};
use crate::objects::number_parser::{acc_parts, complex_number_parser, lemma_error_position, parse_parts};
use crate::parsers::chars::{first_tag, first_tag_at, lemma_first_tag_found, run_steps, run_steps_at, steps_view, words_view, ExecStep, Step};
use crate::parsers::path_plus_number::{
    indent_value_from, indent_value_of, joins_parts, numbers_expandable, path_error, paths_at, paths_from, stop_agrees, stop_error, stop_in,
    NumberVocabulary, PathFail, PathStop, StepDesc,
};
use crate::parsers::tags::{lost_power_grammar, lost_power_steps, new_edition_grammar, new_edition_steps};
use crate::parsers::words::{
    change_name, change_name_at, exclude_at, exclude_end, quoted_at, quoted_text_at, word_operations_at, word_operations_from_at,
};
use crate::text::chars_of;

verus! {

/// What a word directive read: a path and operations, operations alone, or the units of
/// a path that lose force or are excluded.
pub ghost enum WordsRead {
    Paths(Seq<Seq<StepDesc>>, Seq<ActionView>),
    Plain(Seq<ActionView>),
    LostPower(Seq<Seq<StepDesc>>),
    Exclude(Seq<Seq<StepDesc>>),
}

/// ` в ` or at least one space after a number.
pub open spec fn in_prefix_end(s: Seq<char>, p: int) -> Result<int, (int, ErrorCode)> {
    match run_steps(s, p, seq![Step::Space1, Step::Tag("в"@), Step::Space1]) {
        Ok(q) => Ok(q),
        Err(_) => run_steps(s, p, seq![Step::Space1]),
    }
}

/// A number at the start and then at least one space, or ` в `.
pub open spec fn number_lead(s: Seq<char>, in_prefix: bool) -> Result<int, PathFail> {
    match parse_parts(s, 0, NumberIndex::Normal, seq![]) {
        Err(p) => Err(PathFail::Code(p, ErrorCode::Digit)),
        Ok((p1, _)) => match if in_prefix {
            in_prefix_end(s, p1)
        } else {
            run_steps(s, p1, seq![Step::Space1])
        } {
            Err((f, c)) => Err(PathFail::Code(f, c)),
            Ok(q) => Ok(q),
        },
    }
}

/// A path from `q` and then word operations.
pub open spec fn path_words_at(s: Seq<char>, q: int, voc: NumberVocabulary) -> Result<(int, WordsRead), PathFail> {
    match paths_at(s, q, voc) {
        Err(f) => Err(f),
        Ok((e, parts)) => match word_operations_at(s, e) {
            Err((f, c)) => Err(PathFail::Code(f, c)),
            Ok((e2, acts)) => Ok((e2, WordsRead::Paths(parts, acts))),
        },
    }
}

/// The ordinal words of sentences, in the order tried.
pub open spec fn sentence_ordinals() -> Seq<Seq<char>> {
    seq![
        "первое"@,
        "второе"@,
        "третье"@,
        "четвёртое"@,
        "пятое"@,
        "шестое"@,
        "седьмое"@,
        "восьмое"@,
        "девятое"@,
        "десятое"@,
        "одиннадцатое"@,
        "двенадцатое"@,
        "тринадцатое"@,
        "четырнадцатое"@,
        "пятнадцатое"@,
        "шестнадцатое"@,
    ]
}

/// The vocabulary gives each sentence ordinal a number.
pub open spec fn sentence_ordinals_known(voc: NumberVocabulary) -> bool {
    forall|k: int| 0 <= k < sentence_ordinals().len() ==> (#[trigger] indent_value_from(voc.indent_numbers@, sentence_ordinals()[k], 0)) is Some
}

/// What follows the ordinal of a sentence: `предложение изложить в следующей редакции:`
/// between spaces.
pub open spec fn sentence_edition_grammar() -> Seq<Step> {
    seq![Step::Space1, Step::Tag("предложение"@), Step::Space1] + new_edition_grammar(false) + seq![Step::Space1]
}

/// A sentence in a new edition after a path at `e`: the ordinal, the edition words, the
/// quoted text and `;`.
pub open spec fn sentence_at(s: Seq<char>, e: int, voc: NumberVocabulary) -> Result<(int, (nat, Seq<char>)), PathFail> {
    match first_tag(s, e, sentence_ordinals(), false) {
        None => Err(PathFail::Code(e, ErrorCode::Tag)),
        Some(k) => match run_steps(s, e + sentence_ordinals()[k].len(), sentence_edition_grammar()) {
            Err((f, c)) => Err(PathFail::Code(f, c)),
            Ok(q) => match quoted_text_at(s, q) {
                Err((f, c)) => Err(PathFail::Code(f, c)),
                Ok((q2, text)) => match run_steps(s, q2, seq![Step::Tag(";"@)]) {
                    Err((f, c)) => Err(PathFail::Code(f, c)),
                    Ok(q3) => Ok((q3, (indent_value_from(voc.indent_numbers@, sentence_ordinals()[k], 0)->0, text))),
                },
            },
        },
    }
}

/// A number, ` в ` or a space, a path and word operations.
pub open spec fn number_path_words_at(s: Seq<char>, voc: NumberVocabulary) -> Result<(int, WordsRead), PathFail> {
    match number_lead(s, true) {
        Err(f) => Err(f),
        Ok(q) => path_words_at(s, q, voc),
    }
}

/// `в`, a space, a path and word operations.
pub open spec fn in_path_words_at(s: Seq<char>, voc: NumberVocabulary) -> Result<(int, WordsRead), PathFail> {
    match run_steps(s, 0, seq![Step::Tag("в"@), Step::Space1]) {
        Err((f, c)) => Err(PathFail::Code(f, c)),
        Ok(q) => path_words_at(s, q, voc),
    }
}

/// A number, a space and word operations.
pub open spec fn number_words_at(s: Seq<char>) -> Result<(int, WordsRead), PathFail> {
    match number_lead(s, false) {
        Err(f) => Err(f),
        Ok(q) => match word_operations_at(s, q) {
            Err((f, c)) => Err(PathFail::Code(f, c)),
            Ok((e, acts)) => Ok((e, WordsRead::Plain(acts))),
        },
    }
}

/// A number, then ` в ` (where `in_prefix`) or a space, and a path.
pub open spec fn lead_path_at(s: Seq<char>, in_prefix: bool, voc: NumberVocabulary) -> Result<(int, Seq<Seq<StepDesc>>), PathFail> {
    match number_lead(s, in_prefix) {
        Err(f) => Err(f),
        Ok(q) => paths_at(s, q, voc),
    }
}

/// A number, a space and a path that loses force (`lost`) or is excluded.
pub open spec fn units_at(s: Seq<char>, lost: bool, voc: NumberVocabulary) -> Result<(int, WordsRead), PathFail> {
    match lead_path_at(s, false, voc) {
        Err(f) => Err(f),
        Ok((e, parts)) => if lost {
            match run_steps(s, e, lost_power_grammar()) {
                Err((f, c)) => Err(PathFail::Code(f, c)),
                Ok(e2) => Ok((e2, WordsRead::LostPower(parts))),
            }
        } else {
            match exclude_end(s, e) {
                Err((f, c)) => Err(PathFail::Code(f, c)),
                Ok(e2) => Ok((e2, WordsRead::Exclude(parts))),
            }
        },
    }
}

/// A number, ` в ` or a space, a path and a sentence in a new edition.
pub open spec fn sentence_form_at(s: Seq<char>, voc: NumberVocabulary) -> Result<(int, WordsRead), PathFail> {
    match lead_path_at(s, true, voc) {
        Err(f) => Err(f),
        Ok((e, parts)) => match sentence_at(s, e, voc) {
            Err(f) => Err(f),
            Ok((e2, (n, text))) => Ok((
                e2,
                WordsRead::Paths(parts, seq![ActionView::ReplaceSentence { number: n as u32, text }]),
            )),
        },
    }
}

/// The forms tried before a header's name, in order.
#[verifier::opaque]
pub open spec fn words_form_at(s: Seq<char>, k: int, voc: NumberVocabulary) -> Result<(int, WordsRead), PathFail> {
    if k == 0 {
        number_path_words_at(s, voc)
    } else if k == 1 {
        in_path_words_at(s, voc)
    } else if k == 2 {
        number_words_at(s)
    } else if k == 3 {
        path_words_at(s, 0, voc)
    } else if k == 4 {
        units_at(s, true, voc)
    } else if k == 5 {
        units_at(s, false, voc)
    } else {
        sentence_form_at(s, voc)
    }
}

/// The first of the forms from `k` on that reads the line.
pub open spec fn words_forms_from(s: Seq<char>, k: int, voc: NumberVocabulary) -> Option<(int, WordsRead)>
    decreases 7 - k,
{
    if k < 0 || k >= 7 {
        None
    } else {
        match words_form_at(s, k, voc) {
            Ok(x) => Some(x),
            Err(_) => words_forms_from(s, k + 1, voc),
        }
    }
}

/// A word directive: the first form that reads the line; else the changes of words of a
/// header's name, whose failure is the error.
pub open spec fn words_operations_at(s: Seq<char>, voc: NumberVocabulary) -> Result<(int, WordsRead), PathFail> {
    match words_forms_from(s, 0, voc) {
        Some(x) => Ok(x),
        None => match change_name_at(s) {
            Ok((e, acts)) => Ok((e, WordsRead::Plain(acts))),
            Err((f, c)) => Err(PathFail::Code(f, c)),
        },
    }
}

/// Operations that each name a number of a path.
pub open spec fn number_actions(ns: Seq<Number>, lost: bool) -> Seq<ActionView> {
    ns.map_values(|n: Number| if lost { ActionView::LostPower(n) } else { ActionView::Exclude(n) })
}

/// The path and operations a directive gives for what it read.
pub open spec fn words_given(w: WordsRead, tp: Seq<ChangePath>, acts: Seq<ActionView>) -> bool {
    match w {
        WordsRead::Paths(parts, av) => joins_parts(parts, tp) && acts == av,
        WordsRead::Plain(av) => tp.len() == 0 && acts == av,
        WordsRead::LostPower(parts) => tp.len() == 0 && exists|t: Seq<ChangePath>|
            joins_parts(parts, t) && acts == #[trigger] number_actions(numbers_of(t), true),
        WordsRead::Exclude(parts) => tp.len() == 0 && exists|t: Seq<ChangePath>|
            joins_parts(parts, t) && acts == #[trigger] number_actions(numbers_of(t), false),
    }
}

/// A number at the start and then at least one space, or ` в `.
fn lead_from(cs: &Vec<char>, in_prefix: bool) -> (r: Result<usize, PathStop>)
    ensures
        match number_lead(cs@, in_prefix) {
            Ok(q) => r matches Ok(q2) && q2 == q,
            Err(f) => r matches Err(st) && stop_agrees(st, f),
        },
        r matches Ok(q) ==> q <= cs@.len(),
        r matches Err(st) ==> stop_in(st, cs@.len()),
{
    proof {
        lemma_error_position(cs@, 0, NumberIndex::Normal, seq![]);
        assert(acc_parts(None) =~= Seq::<NumberPart>::empty());
    }
    let p1 = match complex_number_parser(cs, 0, NumberIndex::Normal, None) {
        Err(p) => {
            return Err(PathStop::At(p, ErrorCode::Digit));
        },
        Ok((p1, _)) => p1,
    };
    let sp = vec![ExecStep::Space1];
    assert(steps_view(sp@) =~= seq![Step::Space1]);
    let r = if in_prefix {
        let pre = vec![ExecStep::Space1, ExecStep::Tag("в"), ExecStep::Space1];
        assert(steps_view(pre@) =~= seq![Step::Space1, Step::Tag("в"@), Step::Space1]);
        match run_steps_at(cs, p1, &pre) {
            Ok(q) => Ok(q),
            Err(_) => run_steps_at(cs, p1, &sp),
        }
    } else {
        run_steps_at(cs, p1, &sp)
    };
    match r {
        Ok(q) => Ok(q),
        Err((f, c)) => Err(PathStop::At(f, c)),
    }
}

/// A path from `q` and then word operations.
fn path_words_from(cs: &Vec<char>, q: usize, voc: &NumberVocabulary) -> (r: Result<(usize, TargetPath, Vec<ChangeAction>), PathStop>)
    requires
        q <= cs@.len(),
        numbers_expandable(cs@, *voc),
    ensures
        match path_words_at(cs@, q as int, *voc) {
            Ok((e, w)) => r matches Ok((e2, tp, acts)) && e2 == e && words_given(w, tp@, actions_view(acts@)),
            Err(f) => r matches Err(st) && stop_agrees(st, f),
        },
        r matches Ok((e, _, _)) ==> e <= cs@.len(),
        r matches Err(st) ==> stop_in(st, cs@.len()),
{
    let (e, tp) = match paths_from(cs, q, voc) {
        Err(x) => {
            return Err(x);
        },
        Ok(x) => x,
    };
    match word_operations_from_at(cs, e) {
        Err((f, c)) => Err(PathStop::At(f, c)),
        Ok((e2, acts)) => Ok((e2, tp, acts)),
    }
}

/// The operations naming each number of a path.
fn number_actions_of(tp: &TargetPath, lost: bool) -> (r: Vec<ChangeAction>)
    ensures
        actions_view(r@) == number_actions(numbers_of(tp@), lost),
{
    let ns = tp.get_numbers();
    let mut out: Vec<ChangeAction> = Vec::new();
    let mut i: usize = 0;
    while i < ns.len()
        invariant
            i <= ns@.len(),
            ns@ == numbers_of(tp@),
            actions_view(out@) == number_actions(ns@.subrange(0, i as int), lost),
        decreases ns@.len() - i,
    {
        let n = ns[i].duplicate();
        let a = if lost {
            ChangeAction::LostPower(n)
        } else {
            ChangeAction::Exclude(n)
        };
        proof {
            lemma_actions_view_push(out@, a);
        }
        let ghost before = out@;
        out.push(a);
        i = i + 1;
        assert(number_actions(ns@.subrange(0, i as int), lost) =~= number_actions(ns@.subrange(0, i - 1), lost).push(
            if lost { ActionView::LostPower(ns@[i - 1]) } else { ActionView::Exclude(ns@[i - 1]) },
        ));
    }
    assert(ns@.subrange(0, i as int) =~= ns@);
    out
}

/// The ordinal words of sentences, in the order tried.
fn sentence_ordinal_list() -> (r: Vec<&'static str>)
    ensures
        words_view(r@) == sentence_ordinals(),
{
    let v = vec![
        "первое",
        "второе",
        "третье",
        "четвёртое",
        "пятое",
        "шестое",
        "седьмое",
        "восьмое",
        "девятое",
        "десятое",
        "одиннадцатое",
        "двенадцатое",
        "тринадцатое",
        "четырнадцатое",
        "пятнадцатое",
        "шестнадцатое",
    ];
    assert(words_view(v@) =~= sentence_ordinals());
    v
}

/// A sentence in a new edition after a path at `e`.
fn sentence_from(cs: &Vec<char>, e: usize, voc: &NumberVocabulary) -> (r: Result<(usize, ChangeAction), PathStop>)
    requires
        e <= cs@.len(),
        sentence_ordinals_known(*voc),
    ensures
        match sentence_at(cs@, e as int, *voc) {
            Ok((q, (n, text))) => r matches Ok((q2, a)) && q2 == q && a@ == ActionView::ReplaceSentence {
                number: n as u32,
                text,
            },
            Err(f) => r matches Err(st) && stop_agrees(st, f),
        },
        r matches Ok((q, _)) ==> q <= cs@.len(),
        r matches Err(st) ==> stop_in(st, cs@.len()),
{
    let n = cs.len();
    let ws = sentence_ordinal_list();
    let k = match first_tag_at(cs, e, &ws, false) {
        None => {
            return Err(PathStop::At(e, ErrorCode::Tag));
        },
        Some(k) => k,
    };
    proof {
        lemma_first_tag_found(cs@, e as int, sentence_ordinals(), false);
    }
    assert(sentence_ordinals()[k as int] == ws@[k as int]@);
    let w_end = e + ws[k].unicode_len();
    assert(cs@.subrange(e as int, w_end as int) == sentence_ordinals()[k as int]);
    let mut steps = vec![ExecStep::Space1, ExecStep::Tag("предложение"), ExecStep::Space1];
    let ghost head = steps_view(steps@);
    assert(head =~= seq![Step::Space1, Step::Tag("предложение"@), Step::Space1]);
    let mut mid = new_edition_steps(false);
    steps.append(&mut mid);
    steps.push(ExecStep::Space1);
    assert(steps_view(steps@) =~= sentence_edition_grammar());
    let q = match run_steps_at(cs, w_end, &steps) {
        Err((f, c)) => {
            return Err(PathStop::At(f, c));
        },
        Ok(q) => q,
    };
    let (q2, a, b) = match quoted_at(cs, q) {
        Err((f, c)) => {
            return Err(PathStop::At(f, c));
        },
        Ok(x) => x,
    };
    let semi = vec![ExecStep::Tag(";")];
    assert(steps_view(semi@) =~= seq![Step::Tag(";"@)]);
    let q3 = match run_steps_at(cs, q2, &semi) {
        Err((f, c)) => {
            return Err(PathStop::At(f, c));
        },
        Ok(q3) => q3,
    };
    assert(indent_value_from(voc.indent_numbers@, sentence_ordinals()[k as int], 0) is Some);
    let number = match indent_value_of(voc, cs, e, w_end) {
        Some(v) => v,
        None => {
            assert(false);
            0
        },
    };
    let text = crate::text::string_of_range(cs.as_slice(), a, b);
    Ok((q3, ChangeAction::ReplaceSentence { number: number as u32, text }))
}

/// The forms of a word directive that read a path and then word operations.
fn form_path_words(cs: &Vec<char>, k: usize, voc: &NumberVocabulary) -> (r: Result<(usize, TargetPath, Vec<ChangeAction>), PathStop>)
    requires
        k == 0 || k == 1 || k == 3,
        numbers_expandable(cs@, *voc),
    ensures
        match (if k == 0 {
            number_path_words_at(cs@, *voc)
        } else if k == 1 {
            in_path_words_at(cs@, *voc)
        } else {
            path_words_at(cs@, 0, *voc)
        }) {
            Ok((e, w)) => r matches Ok((e2, tp, acts)) && e2 == e && words_given(w, tp@, actions_view(acts@)),
            Err(f) => r matches Err(st) && stop_agrees(st, f),
        },
        r matches Ok((e, _, _)) ==> e <= cs@.len(),
{
    if k == 0 {
        match lead_from(cs, true) {
            Err(x) => Err(x),
            Ok(q) => path_words_from(cs, q, voc),
        }
    } else if k == 1 {
        let pre = vec![ExecStep::Tag("в"), ExecStep::Space1];
        assert(steps_view(pre@) =~= seq![Step::Tag("в"@), Step::Space1]);
        match run_steps_at(cs, 0, &pre) {
            Err((f, c)) => Err(PathStop::At(f, c)),
            Ok(q) => path_words_from(cs, q, voc),
        }
    } else {
        path_words_from(cs, 0, voc)
    }
}

/// A number, then word operations.
fn form_number_words(cs: &Vec<char>, voc: &NumberVocabulary) -> (r: Result<(usize, TargetPath, Vec<ChangeAction>), PathStop>)
    ensures
        match number_words_at(cs@) {
            Ok((e, w)) => r matches Ok((e2, tp, acts)) && e2 == e && words_given(w, tp@, actions_view(acts@)),
            Err(f) => r matches Err(st) && stop_agrees(st, f),
        },
        r matches Ok((e, _, _)) ==> e <= cs@.len(),
{
    match lead_from(cs, false) {
        Err(x) => Err(x),
        Ok(q) => match word_operations_from_at(cs, q) {
            Err((f, c)) => Err(PathStop::At(f, c)),
            Ok((e, acts)) => Ok((e, TargetPath::new(), acts)),
        },
    }
}

/// A number, then ` в ` (where `in_prefix`) or a space, and a path.
fn lead_path_from(cs: &Vec<char>, in_prefix: bool, voc: &NumberVocabulary) -> (r: Result<(usize, TargetPath), PathStop>)
    requires
        numbers_expandable(cs@, *voc),
    ensures
        match lead_path_at(cs@, in_prefix, *voc) {
            Ok((e, parts)) => r matches Ok((e2, tp)) && e2 == e && joins_parts(parts, tp@),
            Err(f) => r matches Err(st) && stop_agrees(st, f),
        },
        r matches Ok((e, _)) ==> e <= cs@.len(),
        r matches Err(st) ==> stop_in(st, cs@.len()),
{
    match lead_from(cs, in_prefix) {
        Err(x) => Err(x),
        Ok(q) => paths_from(cs, q, voc),
    }
}

/// The operations of the units of a path are what a unit directive gives.
proof fn lemma_units_given(parts: Seq<Seq<StepDesc>>, tp: Seq<ChangePath>, empty: Seq<ChangePath>, acts: Seq<ActionView>, lost: bool)
    requires
        joins_parts(parts, tp),
        acts == number_actions(numbers_of(tp), lost),
        empty.len() == 0,
    ensures
        words_given(if lost { WordsRead::LostPower(parts) } else { WordsRead::Exclude(parts) }, empty, acts),
{
    if lost {
        assert(acts == number_actions(numbers_of(tp), true));
    } else {
        assert(acts == number_actions(numbers_of(tp), false));
    }
}

/// A number and a path that loses force (`lost`) or is excluded.
#[verifier::rlimit(30)]
fn form_units(cs: &Vec<char>, lost: bool, voc: &NumberVocabulary) -> (r: Result<(usize, TargetPath, Vec<ChangeAction>), PathStop>)
    requires
        numbers_expandable(cs@, *voc),
    ensures
        match units_at(cs@, lost, *voc) {
            Ok((e, w)) => r matches Ok((e2, tp, acts)) && e2 == e && words_given(w, tp@, actions_view(acts@)),
            Err(f) => r matches Err(st) && stop_agrees(st, f),
        },
        r matches Ok((e, _, _)) ==> e <= cs@.len(),
{
    let (e, tp) = match lead_path_from(cs, false, voc) {
        Err(x) => {
            return Err(x);
        },
        Ok(x) => x,
    };
    let end = if lost {
        let steps = lost_power_steps();
        run_steps_at(cs, e, &steps)
    } else {
        exclude_at(cs, e)
    };
    match end {
        Err((f, c)) => Err(PathStop::At(f, c)),
        Ok(e2) => {
            let acts = number_actions_of(&tp, lost);
            let ghost parts = lead_path_at(cs@, false, *voc)->Ok_0.1;
            let empty = TargetPath::new();
            proof {
                lemma_units_given(parts, tp@, empty@, actions_view(acts@), lost);
            }
            Ok((e2, empty, acts))
        },
    }
}

/// A number, a path and a sentence in a new edition.
fn form_sentence(cs: &Vec<char>, voc: &NumberVocabulary) -> (r: Result<(usize, TargetPath, Vec<ChangeAction>), PathStop>)
    requires
        numbers_expandable(cs@, *voc),
        sentence_ordinals_known(*voc),
    ensures
        match sentence_form_at(cs@, *voc) {
            Ok((e, w)) => r matches Ok((e2, tp, acts)) && e2 == e && words_given(w, tp@, actions_view(acts@)),
            Err(f) => r matches Err(st) && stop_agrees(st, f),
        },
        r matches Ok((e, _, _)) ==> e <= cs@.len(),
{
    let (e, tp) = match lead_path_from(cs, true, voc) {
        Err(x) => {
            return Err(x);
        },
        Ok(x) => x,
    };
    let (e2, a) = match sentence_from(cs, e, voc) {
        Err(x) => {
            return Err(x);
        },
        Ok(x) => x,
    };
    let mut acts: Vec<ChangeAction> = Vec::new();
    proof {
        lemma_actions_view_push(acts@, a);
        assert(actions_view(Seq::<ChangeAction>::empty()) =~= Seq::<ActionView>::empty());
    }
    acts.push(a);
    Ok((e2, tp, acts))
}

/// The `k`-th form of a word directive.
fn words_form_from(cs: &Vec<char>, k: usize, voc: &NumberVocabulary) -> (r: Result<(usize, TargetPath, Vec<ChangeAction>), PathStop>)
    requires
        k < 7,
        numbers_expandable(cs@, *voc),
        sentence_ordinals_known(*voc),
    ensures
        match words_form_at(cs@, k as int, *voc) {
            Ok((e, w)) => r matches Ok((e2, tp, acts)) && e2 == e && words_given(w, tp@, actions_view(acts@)),
            Err(f) => r matches Err(st) && stop_agrees(st, f),
        },
        r matches Ok((e, _, _)) ==> e <= cs@.len(),
{
    reveal(words_form_at);
    if k == 0 || k == 1 || k == 3 {
        form_path_words(cs, k, voc)
    } else if k == 2 {
        form_number_words(cs, voc)
    } else if k == 4 {
        form_units(cs, true, voc)
    } else if k == 5 {
        form_units(cs, false, voc)
    } else {
        form_sentence(cs, voc)
    }
}

/// `1. в статье 5 слова "…" заменить словами "…"` and the other word directives, tried
/// in order: a number and a path (after ` в ` or a space) then word operations; `в`, a
/// path and word operations; a number and word operations; a path and word operations;
/// a number and a path that loses force (each of its numbers named); a number and a path
/// excluded (likewise); a number, a path and a sentence in a new edition; else the
/// changes of words of a header's name, whose failure is the error.
pub fn words_operations<'a>(s: &'a str, voc: &NumberVocabulary) -> (r: Result<(&'a str, (TargetPath, Vec<ChangeAction>)), ParserError>)
    requires
        numbers_expandable(s@, *voc),
        sentence_ordinals_known(*voc),
    ensures
        match words_operations_at(s@, *voc) {
            Ok((e, w)) => r matches Ok((rest, (tp, acts))) && rest@ == s@.subrange(e, s@.len() as int) && words_given(
                w,
                tp@,
                actions_view(acts@),
            ),
            Err(f) => r matches Err(err) && path_error(s@, f, err),
        },
{
    let cs = chars_of(s);
    let mut k: usize = 0;
    while k < 7
        invariant
            cs@ == s@,
            k <= 7,
            numbers_expandable(cs@, *voc),
            sentence_ordinals_known(*voc),
            words_forms_from(s@, 0, *voc) == words_forms_from(s@, k as int, *voc),
        decreases 7 - k,
    {
        match words_form_from(&cs, k, voc) {
            Ok((e, tp, acts)) => {
                return Ok((s.substring_char(e, cs.len()), (tp, acts)));
            },
            Err(_) => {},
        }
        k = k + 1;
    }
    match change_name(s) {
        Ok((rest, acts)) => Ok((rest, (TargetPath::new(), acts))),
        Err(e) => Err(e),
    }
}

} // verus!
