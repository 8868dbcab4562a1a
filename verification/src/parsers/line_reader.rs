//! From the text of an amending act to its list of changes: the text is split into
//! lines, each line is recognised by the directive grammars in turn, and the lines are
//! read in order.
use vstd::prelude::*;
use crate::change_action::actions_view;
use crate::change_path::TargetPath;
use crate::parsers::apply::{apply_all, apply_short_at, number_path_apply_path_pieces};
use crate::parsers::changes_checker::{item_name, item_name_at};
use crate::parsers::changes_parser::{lines_step, text_lines, text_lines_of, Changes, ClassifiedLine, LineDirective};
use crate::parsers::path_plus_number::{
    joins_parts, numbers_expandable, only_path_at, only_path_definition, pieces_at, texts, NumberVocabulary,
};
use crate::parsers::replace::{replace_all, replace_at};
use crate::parsers::word_directives::{sentence_ordinals_known, words_given, words_operations, words_operations_at};
use crate::text::{chars_of, string_of_range};

verus! {

/// `d` is what the directive grammars, tried in turn, make of `line`: a place alone, an
/// addition, word operations, a new edition, a header's name, else plain text.
pub open spec fn classified_as(d: LineDirective, line: Seq<char>, voc: NumberVocabulary) -> bool {
    match only_path_at(line, voc) {
        Ok((e, parts)) => d matches LineDirective::PathOnly { path, rest } && joins_parts(parts, path@) && rest@
            == line.subrange(e, line.len() as int),
        Err(_) => match apply_short_at(line, voc) {
            Ok((e, partss)) => d matches LineDirective::Apply { after, target, rest } && after is None && (partss.len()
                == 0 ==> target@.len() == 0) && (partss.len() == 1 ==> joins_parts(partss[0], target@)) && rest@
                == line.subrange(e, line.len() as int),
            Err(_) => match pieces_at(line, 0, number_path_apply_path_pieces(), voc) {
                Ok((e, partss)) => d matches LineDirective::Apply { after: Some(t1), target, rest } && partss.len() == 2
                    && joins_parts(partss[0], t1@) && joins_parts(partss[1], target@) && rest@ == line.subrange(
                    e,
                    line.len() as int,
                ),
                Err(_) => match words_operations_at(line, voc) {
                    Ok((e, w)) => d matches LineDirective::Words { target, actions, rest } && words_given(
                        w,
                        target@,
                        actions_view(actions@),
                    ) && rest@ == line.subrange(e, line.len() as int),
                    Err(_) => match replace_at(line, voc) {
                        Ok((e, partss)) => d matches LineDirective::Replace { target, rest } && (partss.len() == 0
                            ==> target@.len() == 0) && (partss.len() > 0 ==> joins_parts(partss[0], target@)) && rest@
                            == line.subrange(e, line.len() as int),
                        Err(_) => match item_name_at(line, voc) {
                            Ok(e) => d matches LineDirective::ItemName { rest } && rest@ == line.subrange(
                                e,
                                line.len() as int,
                            ),
                            Err(_) => d is Text,
                        },
                    },
                },
            },
        },
    }
}

/// A copy of a string.
fn copy_of(s: &str) -> (r: String)
    ensures
        r@ == s@,
{
    let c = chars_of(s);
    string_of_range(c.as_slice(), 0, c.len())
}

/// What the directive grammars make of a line.
pub fn classify_line(line: &str, voc: &NumberVocabulary) -> (c: ClassifiedLine)
    requires
        numbers_expandable(line@, *voc),
        sentence_ordinals_known(*voc),
    ensures
        c.line@ == line@,
        classified_as(c.directive, line@, *voc),
{
    let directive = match only_path_definition(line, voc) {
        Ok((rest, path)) => LineDirective::PathOnly { path, rest: copy_of(rest) },
        Err(_) => match apply_all(line, voc) {
            Ok((rest, (after, target))) => LineDirective::Apply { after, target, rest: copy_of(rest) },
            Err(_) => match words_operations(line, voc) {
                Ok((rest, (target, actions))) => LineDirective::Words { target, actions, rest: copy_of(rest) },
                Err(_) => match replace_all(line, voc) {
                    Ok((rest, target)) => LineDirective::Replace { target, rest: copy_of(rest) },
                    Err(_) => match item_name(line, voc) {
                        Ok((rest, _)) => LineDirective::ItemName { rest: copy_of(rest) },
                        Err(_) => LineDirective::Text,
                    },
                },
            },
        },
    };
    ClassifiedLine { line: copy_of(line), directive }
}

/// Each classified line is the line of the text at its place, recognised by the
/// directive grammars.
pub open spec fn lines_classified(cls: Seq<ClassifiedLine>, lines: Seq<Seq<char>>, voc: NumberVocabulary) -> bool {
    cls.len() == lines.len() && forall|i: int|
        0 <= i < cls.len() ==> (#[trigger] cls[i]).line@ == lines[i] && classified_as(cls[i].directive, lines[i], voc)
}

/// The vocabulary lets every line of a text be read.
pub open spec fn lines_readable(text: Seq<char>, voc: NumberVocabulary) -> bool {
    forall|i: int| 0 <= i < text_lines_of(text).len() ==> numbers_expandable(#[trigger] text_lines_of(text)[i], voc)
}

impl Changes {
    /// The changes of an amending act given as text: its lines, each recognised by the
    /// directive grammars, are read in order as `get_changes` reads them.
    pub fn get_changes_of_text(text: &str, voc: &NumberVocabulary) -> (r: Self)
        requires
            lines_readable(text@, *voc),
            sentence_ordinals_known(*voc),
        ensures
            exists|cls: Seq<ClassifiedLine>| #[trigger] lines_classified(cls, text_lines_of(text@), *voc) && r@ == lines_step(cls).0,
    {
        let lines = text_lines(text);
        assert(texts(lines@) =~= lines@.map_values(|l: String| l@));
        let ghost ls = text_lines_of(text@);
        let mut cls: Vec<ClassifiedLine> = Vec::new();
        let mut i: usize = 0;
        while i < lines.len()
            invariant
                texts(lines@) == ls,
                ls == text_lines_of(text@),
                lines_readable(text@, *voc),
                sentence_ordinals_known(*voc),
                i <= lines@.len(),
                cls@.len() == i,
                forall|k: int| 0 <= k < i ==> (#[trigger] cls@[k]).line@ == ls[k] && classified_as(cls@[k].directive, ls[k], *voc),
            decreases lines@.len() - i,
        {
            assert(ls[i as int] == lines@[i as int]@);
            let c = classify_line(lines[i].as_str(), voc);
            cls.push(c);
            i = i + 1;
        }
        let ghost all = cls@;
        assert(lines_classified(all, ls, *voc));
        Changes::get_changes(cls)
    }
}

} // verus!
