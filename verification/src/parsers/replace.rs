//! `наименование изложить в следующей редакции:`: a header's name in a new edition.
use vstd::prelude::*;
use crate::change_path::TargetPath;
use crate::error::ParserError;
use crate::parsers::chars::{ExecStep, Step, grammar_result, run_grammar, steps_view};
use crate::parsers::tags::{new_edition_grammar, new_edition_steps, rest_of};
use crate::parsers::path_plus_number::{
    joins_parts, numbers_expandable, path_error, pieces_at, pieces_from, pieces_view, steps_then, stop_agrees,
    stop_error, stop_in, ExecPiece, NumberVocabulary, Piece, PathFail, PathStop, StepDesc,
};
use crate::objects::number::{NumberIndex, NumberPart};
use crate::objects::number_parser::{acc_parts, complex_number_parser, lemma_error_position, parse_parts};
use crate::parsers::chars::{run_steps, run_steps_at};
use crate::text::chars_of;

verus! {

/// `наименование`, spaces, `изложить (его) в следующей редакции:` and the end of the
/// line.
pub open spec fn replace_name_grammar() -> Seq<Step> {
    seq![Step::Tag("наименование"@), Step::Space1] + new_edition_grammar(true)
}

/// `наименование изложить в следующей редакции:`: the rest of the text and an empty
/// path, the name being that of the enclosing header.
pub fn replace_name(s: &str) -> (r: Result<(&str, TargetPath), ParserError>)
    ensures
        grammar_result(s@, replace_name_grammar(), rest_of(r)),
        r matches Ok((_, p)) ==> p@.len() == 0,
{
    let mut steps: Vec<ExecStep> = Vec::new();
    steps.push(ExecStep::Tag("наименование"));
    steps.push(ExecStep::Space1);
    let mut tail = new_edition_steps(true);
    let ghost head = steps_view(steps@);
    let ghost tail_view = steps_view(tail@);
    steps.append(&mut tail);
    assert(steps_view(steps@) =~= head + tail_view);
    assert(steps_view(steps@) =~= replace_name_grammar());
    match run_grammar(s, &steps) {
        Ok(rest) => Ok((rest, TargetPath::new())),
        Err(e) => Err(e),
    }
}

/// A path in a new edition: a path, `изложить (его) в следующей редакции:` and the end.
pub open spec fn new_path_pieces() -> Seq<Piece> {
    seq![Piece::Path, Piece::Steps(new_edition_grammar(true))]
}

/// `абзац восьмой считать абзацем девятым и изложить его в следующей редакции:`.
pub open spec fn renumber_pieces() -> Seq<Piece> {
    seq![
        Piece::Path,
        Piece::Steps(seq![Step::Tag("считать"@), Step::Space1]),
        Piece::Path,
        Piece::Steps(new_edition_grammar(true)),
    ]
}

/// `наименование изложить в следующей редакции:`.
pub open spec fn name_pieces() -> Seq<Piece> {
    seq![Piece::Steps(replace_name_grammar())]
}

/// Where the directive starts: after a number and at least one space, if the line starts
/// so; else at the start.
pub open spec fn replace_start(s: Seq<char>) -> int {
    match parse_parts(s, 0, NumberIndex::Normal, seq![]) {
        Ok((p1, _)) => match run_steps(s, p1, seq![Step::Space1]) {
            Ok(q) => q,
            Err(_) => 0,
        },
        Err(_) => 0,
    }
}

/// The forms of a new edition, tried in order from the start: a path, a renumbered path,
/// a header's name.
pub open spec fn replace_at(s: Seq<char>, voc: NumberVocabulary) -> Result<(int, Seq<Seq<Seq<StepDesc>>>), PathFail> {
    let q = replace_start(s);
    match pieces_at(s, q, new_path_pieces(), voc) {
        Ok(x) => Ok(x),
        Err(_) => match pieces_at(s, q, renumber_pieces(), voc) {
            Ok(x) => Ok(x),
            Err(_) => pieces_at(s, q, name_pieces(), voc),
        },
    }
}

fn replace_forms() -> (r: Vec<Vec<ExecPiece>>)
    ensures
        r@.len() == 3,
        pieces_view(r@[0]@) == new_path_pieces(),
        pieces_view(r@[1]@) == renumber_pieces(),
        pieces_view(r@[2]@) == name_pieces(),
{
    let first = vec![ExecPiece::Path, ExecPiece::Steps(new_edition_steps(true))];
    assert(pieces_view(first@) =~= new_path_pieces());
    let mid = vec![ExecStep::Tag("считать"), ExecStep::Space1];
    assert(steps_view(mid@) =~= seq![Step::Tag("считать"@), Step::Space1]);
    let second = vec![ExecPiece::Path, ExecPiece::Steps(mid), ExecPiece::Path, ExecPiece::Steps(new_edition_steps(true))];
    assert(pieces_view(second@) =~= renumber_pieces());
    let head = vec![ExecStep::Tag("наименование"), ExecStep::Space1];
    assert(steps_view(head@) =~= seq![Step::Tag("наименование"@), Step::Space1]);
    let third = vec![ExecPiece::Steps(steps_then(head, new_edition_steps(true)))];
    assert(pieces_view(third@) =~= name_pieces());
    vec![first, second, third]
}

/// Where the directive starts in `cs`.
fn replace_start_at(cs: &Vec<char>) -> (r: usize)
    ensures
        r == replace_start(cs@),
        r <= cs@.len(),
{
    proof {
        lemma_error_position(cs@, 0, NumberIndex::Normal, seq![]);
        assert(acc_parts(None) =~= Seq::<NumberPart>::empty());
    }
    let sp = vec![ExecStep::Space1];
    assert(steps_view(sp@) =~= seq![Step::Space1]);
    match complex_number_parser(cs, 0, NumberIndex::Normal, None) {
        Ok((p1, _)) => match run_steps_at(cs, p1, &sp) {
            Ok(q) => q,
            Err(_) => 0,
        },
        Err(_) => 0,
    }
}

/// Reads a form from `q`: where it ends and its first path, or an empty path.
fn first_path_of(cs: &Vec<char>, q: usize, form: &Vec<ExecPiece>, voc: &NumberVocabulary) -> (r: Result<(usize, TargetPath), PathStop>)
    requires
        q <= cs@.len(),
        numbers_expandable(cs@, *voc),
    ensures
        match pieces_at(cs@, q as int, pieces_view(form@), *voc) {
            Ok((e, partss)) => r matches Ok((e2, tp)) && e2 == e && (partss.len() == 0 ==> tp@.len() == 0) && (
            partss.len() > 0 ==> joins_parts(partss[0], tp@)),
            Err(f) => r matches Err(st) && stop_agrees(st, f),
        },
        r matches Ok((e, _)) ==> e <= cs@.len(),
        r matches Err(st) ==> stop_in(st, cs@.len()),
{
    let ghost ps = pieces_view(form@);
    assert(ps.subrange(0, ps.len() as int) =~= ps);
    match pieces_from(cs, q, form, 0, voc) {
        Ok((e, tps)) => {
            let mut tps = tps;
            let tp = if tps.len() > 0 {
                tps.remove(0)
            } else {
                TargetPath::new()
            };
            Ok((e, tp))
        },
        Err(st) => Err(st),
    }
}

/// `абзацы пятый и шестой изложить в следующей редакции:` and its other forms, after an
/// optional number: the path of the changed units (the first path where a unit is
/// renumbered; empty for a header's name).
pub fn replace_all<'a>(s: &'a str, voc: &NumberVocabulary) -> (r: Result<(&'a str, TargetPath), ParserError>)
    requires
        numbers_expandable(s@, *voc),
    ensures
        match replace_at(s@, *voc) {
            Ok((e, partss)) => r matches Ok((rest, tp)) && rest@ == s@.subrange(e, s@.len() as int) && (partss.len()
                == 0 ==> tp@.len() == 0) && (partss.len() > 0 ==> joins_parts(partss[0], tp@)),
            Err(f) => r matches Err(err) && path_error(s@, f, err),
        },
{
    let cs = chars_of(s);
    let q = replace_start_at(&cs);
    let forms = replace_forms();
    match first_path_of(&cs, q, &forms[0], voc) {
        Ok((e, tp)) => {
            return Ok((s.substring_char(e, cs.len()), tp));
        },
        Err(_) => {},
    }
    match first_path_of(&cs, q, &forms[1], voc) {
        Ok((e, tp)) => {
            return Ok((s.substring_char(e, cs.len()), tp));
        },
        Err(_) => {},
    }
    match first_path_of(&cs, q, &forms[2], voc) {
        Ok((e, tp)) => Ok((s.substring_char(e, cs.len()), tp)),
        Err(st) => Err(stop_error(&cs, st)),
    }
}

} // verus!
