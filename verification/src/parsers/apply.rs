//! `дополнить пунктом 7 следующего содержания:`: directives that add units.
use vstd::prelude::*;
use crate::change_path::TargetPath;
use crate::error::ParserError;
use crate::parsers::chars::{ExecStep, Step, steps_view};
use crate::parsers::tags::{apply_grammar, apply_steps, next_content_grammar, next_content_steps};
use crate::parsers::path_plus_number::{
    joins_parts, numbers_expandable, path_count, path_error, pieces_at, pieces_view, run_pieces, steps_then,
    stop_error, ExecPiece, NumberVocabulary, Piece, PathFail, StepDesc,
};
use crate::text::chars_of;

verus! {

/// `дополнить пунктом 7 следующего содержания:`.
pub open spec fn apply_items_pieces() -> Seq<Piece> {
    seq![Piece::Steps(apply_grammar()), Piece::Path, Piece::Steps(next_content_grammar(true))]
}

/// `дополнить абзацем следующего содержания:`.
pub open spec fn apply_indent_pieces() -> Seq<Piece> {
    seq![Piece::Steps(apply_grammar() + seq![Step::Tag("абзацем"@), Step::Space1] + next_content_grammar(true))]
}

/// `дополнить абзацем`, a path, a space and `следующего содержания:`.
pub open spec fn apply_indent_number_pieces() -> Seq<Piece> {
    seq![
        Piece::Steps(apply_grammar() + seq![Step::Tag("абзацем"@)]),
        Piece::Path,
        Piece::Steps(seq![Step::Space1] + next_content_grammar(true)),
    ]
}

/// `з) дополнить частями 9 - 11 следующего содержания:`.
pub open spec fn number_apply_pieces() -> Seq<Piece> {
    seq![Piece::Num, Piece::Steps(apply_grammar()), Piece::Path, Piece::Steps(next_content_grammar(true))]
}

/// `4) статью 22 дополнить пунктом 7 следующего содержания:`.
pub open spec fn number_path_apply_path_pieces() -> Seq<Piece> {
    seq![
        Piece::Num,
        Piece::Steps(seq![Step::Space1]),
        Piece::Path,
        Piece::Steps(apply_grammar()),
        Piece::Path,
        Piece::Steps(next_content_grammar(true)),
    ]
}

/// The short forms, tried in order: a path after `дополнить`, a bare paragraph, a
/// paragraph with a path, a number then a path after `дополнить`.
pub open spec fn apply_short_at(s: Seq<char>, voc: NumberVocabulary) -> Result<(int, Seq<Seq<Seq<StepDesc>>>), PathFail> {
    match pieces_at(s, 0, apply_items_pieces(), voc) {
        Ok(x) => Ok(x),
        Err(_) => match pieces_at(s, 0, apply_indent_pieces(), voc) {
            Ok(x) => Ok(x),
            Err(_) => match pieces_at(s, 0, apply_indent_number_pieces(), voc) {
                Ok(x) => Ok(x),
                Err(_) => pieces_at(s, 0, number_apply_pieces(), voc),
            },
        },
    }
}

fn apply_items_list() -> (r: Vec<ExecPiece>)
    ensures
        pieces_view(r@) == apply_items_pieces(),
{
    let v = vec![ExecPiece::Steps(apply_steps()), ExecPiece::Path, ExecPiece::Steps(next_content_steps(true))];
    assert(pieces_view(v@) =~= apply_items_pieces());
    v
}

fn apply_indent_list() -> (r: Vec<ExecPiece>)
    ensures
        pieces_view(r@) == apply_indent_pieces(),
{
    let mid = vec![ExecStep::Tag("абзацем"), ExecStep::Space1];
    assert(steps_view(mid@) =~= seq![Step::Tag("абзацем"@), Step::Space1]);
    let st = steps_then(steps_then(apply_steps(), mid), next_content_steps(true));
    let v = vec![ExecPiece::Steps(st)];
    assert(pieces_view(v@) =~= apply_indent_pieces());
    v
}

fn apply_indent_number_list() -> (r: Vec<ExecPiece>)
    ensures
        pieces_view(r@) == apply_indent_number_pieces(),
{
    let mid = vec![ExecStep::Tag("абзацем")];
    assert(steps_view(mid@) =~= seq![Step::Tag("абзацем"@)]);
    let head = steps_then(apply_steps(), mid);
    let sp = vec![ExecStep::Space1];
    assert(steps_view(sp@) =~= seq![Step::Space1]);
    let tail = steps_then(sp, next_content_steps(true));
    let v = vec![ExecPiece::Steps(head), ExecPiece::Path, ExecPiece::Steps(tail)];
    assert(pieces_view(v@) =~= apply_indent_number_pieces());
    v
}

fn number_apply_list() -> (r: Vec<ExecPiece>)
    ensures
        pieces_view(r@) == number_apply_pieces(),
{
    let v = vec![
        ExecPiece::Num,
        ExecPiece::Steps(apply_steps()),
        ExecPiece::Path,
        ExecPiece::Steps(next_content_steps(true)),
    ];
    assert(pieces_view(v@) =~= number_apply_pieces());
    v
}

fn number_path_apply_path_list() -> (r: Vec<ExecPiece>)
    ensures
        pieces_view(r@) == number_path_apply_path_pieces(),
{
    let sp = vec![ExecStep::Space1];
    assert(steps_view(sp@) =~= seq![Step::Space1]);
    let v = vec![
        ExecPiece::Num,
        ExecPiece::Steps(sp),
        ExecPiece::Path,
        ExecPiece::Steps(apply_steps()),
        ExecPiece::Path,
        ExecPiece::Steps(next_content_steps(true)),
    ];
    assert(pieces_view(v@) =~= number_path_apply_path_pieces());
    v
}

/// The path of a form with at most one path: that path, or an empty one.
fn single_path(tps: Vec<TargetPath>) -> (r: TargetPath)
    requires
        tps@.len() <= 1,
    ensures
        tps@.len() == 0 ==> r@.len() == 0,
        tps@.len() == 1 ==> r == tps@[0],
{
    let mut tps = tps;
    if tps.len() == 1 {
        tps.remove(0)
    } else {
        TargetPath::new()
    }
}

/// `дополнить пунктом 7 следующего содержания:` and its other forms: the short forms
/// give no enclosing path and the added units' path (empty for a bare paragraph); else
/// `4) статью 22 дополнить пунктом 7 следующего содержания:` gives the enclosing path
/// and the added units' path, and its error is the one returned.
pub fn apply_all<'a>(s: &'a str, voc: &NumberVocabulary) -> (r: Result<(&'a str, (Option<TargetPath>, TargetPath)), ParserError>)
    requires
        numbers_expandable(s@, *voc),
    ensures
        match apply_short_at(s@, *voc) {
            Ok((e, partss)) => r matches Ok((rest, (None, tp))) && rest@ == s@.subrange(e, s@.len() as int) && (
            partss.len() == 0 ==> tp@.len() == 0) && (partss.len() == 1 ==> joins_parts(partss[0], tp@)),
            Err(_) => match pieces_at(s@, 0, number_path_apply_path_pieces(), *voc) {
                Ok((e, partss)) => r matches Ok((rest, (Some(t1), t2))) && rest@ == s@.subrange(e, s@.len() as int)
                    && partss.len() == 2 && joins_parts(partss[0], t1@) && joins_parts(partss[1], t2@),
                Err(f) => r matches Err(err) && path_error(s@, f, err),
            },
        },
{
    let cs = chars_of(s);
    let forms = vec![apply_items_list(), apply_indent_list(), apply_indent_number_list(), number_apply_list()];
    let mut k: usize = 0;
    while k < forms.len()
        invariant
            cs@ == s@,
            numbers_expandable(cs@, *voc),
            k <= forms@.len(),
            forms@.len() == 4,
            pieces_view(forms@[0]@) == apply_items_pieces(),
            pieces_view(forms@[1]@) == apply_indent_pieces(),
            pieces_view(forms@[2]@) == apply_indent_number_pieces(),
            pieces_view(forms@[3]@) == number_apply_pieces(),
            forall|j: int| 0 <= j < k ==> pieces_at(s@, 0, pieces_view(#[trigger] forms@[j]@), *voc) is Err,
        decreases forms@.len() - k,
    {
        match run_pieces(&cs, &forms[k], voc) {
            Ok((e, tps)) => {
                proof {
                    assert(path_count(apply_items_pieces()) == 1) by {
                        reveal_with_fuel(path_count, 4);
                    }
                    assert(path_count(apply_indent_pieces()) == 0) by {
                        reveal_with_fuel(path_count, 2);
                    }
                    assert(path_count(apply_indent_number_pieces()) == 1) by {
                        reveal_with_fuel(path_count, 4);
                    }
                    assert(path_count(number_apply_pieces()) == 1) by {
                        reveal_with_fuel(path_count, 5);
                    }
                }
                let tp = single_path(tps);
                return Ok((s.substring_char(e, cs.len()), (None, tp)));
            },
            Err(_) => {},
        }
        k = k + 1;
    }
    assert(apply_short_at(s@, *voc) is Err) by {
        assert(pieces_at(s@, 0, pieces_view(forms@[0]@), *voc) is Err);
        assert(pieces_at(s@, 0, pieces_view(forms@[1]@), *voc) is Err);
        assert(pieces_at(s@, 0, pieces_view(forms@[2]@), *voc) is Err);
        assert(pieces_at(s@, 0, pieces_view(forms@[3]@), *voc) is Err);
    }
    let long = number_path_apply_path_list();
    match run_pieces(&cs, &long, voc) {
        Ok((e, tps)) => {
            proof {
                assert(path_count(number_path_apply_path_pieces()) == 2) by {
                    reveal_with_fuel(path_count, 7);
                }
            }
            let mut tps = tps;
            let t1 = tps.remove(0);
            let t2 = tps.remove(0);
            Ok((s.substring_char(e, cs.len()), (Some(t1), t2)))
        },
        Err(st) => Err(stop_error(&cs, st)),
    }
}

} // verus!
