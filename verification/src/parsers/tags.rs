//! The fixed phrases that close a directive: `следующего содержания:`, `изложить в
//! следующей редакции:`, `дополнить`, `признать утратившим силу;`.
use vstd::prelude::*;
use crate::error::ParserError;
use crate::parsers::chars::{ExecStep, Step, grammar_result, run_grammar, steps_view, words_view};

verus! {

/// The result of a grammar as the rest of the text or the error.
pub open spec fn rest_of<T>(r: Result<(&str, T), ParserError>) -> Result<Seq<char>, ParserError> {
    match r {
        Ok((rest, _)) => Ok(rest@),
        Err(e) => Err(e),
    }
}

/// `следующего содержания:`, then the end of the line when `eof`.
pub open spec fn next_content_grammar(eof: bool) -> Seq<Step> {
    seq![Step::Tag("следующего"@), Step::Space1, Step::Tag("содержания"@), Step::Tag(":"@)] + if eof {
        seq![Step::End]
    } else {
        seq![]
    }
}

/// `изложить (его) в следующей редакции:`, then the end of the line when `eof`.
pub open spec fn new_edition_grammar(eof: bool) -> Seq<Step> {
    seq![
        Step::Tag("изложить"@),
        Step::Space1,
        Step::OneOf(seq!["его в"@, "в"@]),
        Step::Space1,
        Step::Tag("следующей"@),
        Step::Space1,
        Step::Tag("редакции"@),
        Step::Tag(":"@),
    ] + if eof {
        seq![Step::End]
    } else {
        seq![]
    }
}

/// `дополнить новыми` / `дополнить новым` / `дополнить`, case aside, between spaces.
pub open spec fn apply_grammar() -> Seq<Step> {
    seq![
        Step::Spaces,
        Step::OneOfNoCase(seq!["дополнить новыми"@, "дополнить новым"@, "дополнить"@]),
        Step::Spaces,
    ]
}

/// `признать утратившим(и)/утратившей силу;` and the end of the line.
pub open spec fn lost_power_grammar() -> Seq<Step> {
    seq![
        Step::Spaces,
        Step::Tag("признать"@),
        Step::Space1,
        Step::OneOf(seq!["утратившими"@, "утратившей"@, "утратившим"@]),
        Step::Space1,
        Step::Tag("силу"@),
        Step::Tag(";"@),
        Step::End,
    ]
}

pub(crate) fn next_content_steps(eof: bool) -> (r: Vec<ExecStep>)
    ensures
        steps_view(r@) == next_content_grammar(eof),
{
    let mut v: Vec<ExecStep> = Vec::new();
    v.push(ExecStep::Tag("следующего"));
    v.push(ExecStep::Space1);
    v.push(ExecStep::Tag("содержания"));
    v.push(ExecStep::Tag(":"));
    if eof {
        v.push(ExecStep::End);
    }
    assert(steps_view(v@) =~= next_content_grammar(eof));
    v
}

pub(crate) fn new_edition_steps(eof: bool) -> (r: Vec<ExecStep>)
    ensures
        steps_view(r@) == new_edition_grammar(eof),
{
    let mut alts: Vec<&'static str> = Vec::new();
    alts.push("его в");
    alts.push("в");
    assert(words_view(alts@) =~= seq!["его в"@, "в"@]);
    let mut v: Vec<ExecStep> = Vec::new();
    v.push(ExecStep::Tag("изложить"));
    v.push(ExecStep::Space1);
    v.push(ExecStep::OneOf(alts));
    v.push(ExecStep::Space1);
    v.push(ExecStep::Tag("следующей"));
    v.push(ExecStep::Space1);
    v.push(ExecStep::Tag("редакции"));
    v.push(ExecStep::Tag(":"));
    if eof {
        v.push(ExecStep::End);
    }
    assert(steps_view(v@) =~= new_edition_grammar(eof));
    v
}

/// `следующего содержания:` and the end of the line.
pub fn next_is_content(s: &str) -> (r: Result<(&str, bool), ParserError>)
    ensures
        grammar_result(s@, next_content_grammar(true), rest_of(r)),
        r matches Ok((_, b)) ==> b,
{
    let steps = next_content_steps(true);
    match run_grammar(s, &steps) {
        Ok(rest) => Ok((rest, true)),
        Err(e) => Err(e),
    }
}

/// `следующего содержания:`, with anything after it.
pub fn next_is_content_not_eof(s: &str) -> (r: Result<(&str, bool), ParserError>)
    ensures
        grammar_result(s@, next_content_grammar(false), rest_of(r)),
        r matches Ok((_, b)) ==> b,
{
    let steps = next_content_steps(false);
    match run_grammar(s, &steps) {
        Ok(rest) => Ok((rest, true)),
        Err(e) => Err(e),
    }
}

/// `изложить (его) в следующей редакции:` and the end of the line.
pub fn in_new_edition(s: &str) -> (r: Result<(&str, &str), ParserError>)
    ensures
        grammar_result(s@, new_edition_grammar(true), rest_of(r)),
        r matches Ok((_, t)) ==> t@.len() == 0,
{
    let steps = new_edition_steps(true);
    match run_grammar(s, &steps) {
        Ok(rest) => {
            let empty = "";
            proof {
                reveal_strlit("");
            }
            Ok((rest, empty))
        },
        Err(e) => Err(e),
    }
}

/// `изложить (его) в следующей редакции:`, with anything after it.
pub fn in_new_edition_not_eof(s: &str) -> (r: Result<(&str, &str), ParserError>)
    ensures
        grammar_result(s@, new_edition_grammar(false), rest_of(r)),
        r matches Ok((_, t)) ==> t@.len() == 0,
{
    let steps = new_edition_steps(false);
    match run_grammar(s, &steps) {
        Ok(rest) => {
            let empty = "";
            proof {
                reveal_strlit("");
            }
            Ok((rest, empty))
        },
        Err(e) => Err(e),
    }
}

pub(crate) fn apply_steps() -> (r: Vec<ExecStep>)
    ensures
        steps_view(r@) == apply_grammar(),
{
    let mut alts: Vec<&'static str> = Vec::new();
    alts.push("дополнить новыми");
    alts.push("дополнить новым");
    alts.push("дополнить");
    assert(words_view(alts@) =~= seq!["дополнить новыми"@, "дополнить новым"@, "дополнить"@]);
    let mut steps: Vec<ExecStep> = Vec::new();
    steps.push(ExecStep::Spaces);
    steps.push(ExecStep::OneOfNoCase(alts));
    steps.push(ExecStep::Spaces);
    assert(steps_view(steps@) =~= apply_grammar());
    steps
}

/// `дополнить новыми` / `дополнить новым` / `дополнить`, case aside, between spaces.
pub fn apply(s: &str) -> (r: Result<(&str, &str), ParserError>)
    ensures
        grammar_result(s@, apply_grammar(), rest_of(r)),
        r matches Ok((_, t)) ==> t@.len() == 0,
{
    let steps = apply_steps();
    match run_grammar(s, &steps) {
        Ok(rest) => {
            let empty = "";
            proof {
                reveal_strlit("");
            }
            Ok((rest, empty))
        },
        Err(e) => Err(e),
    }
}

/// `признать утратившим(и)/утратившей силу;` and the end of the line.
pub fn lost_power(s: &str) -> (r: Result<(&str, &str), ParserError>)
    ensures
        grammar_result(s@, lost_power_grammar(), rest_of(r)),
        r matches Ok((_, t)) ==> t@.len() == 0,
{
    let steps = lost_power_steps();
    match run_grammar(s, &steps) {
        Ok(rest) => {
            let empty = "";
            proof {
                reveal_strlit("");
            }
            Ok((rest, empty))
        },
        Err(e) => Err(e),
    }
}

pub(crate) fn lost_power_steps() -> (r: Vec<ExecStep>)
    ensures
        steps_view(r@) == lost_power_grammar(),
{
    let mut alts: Vec<&'static str> = Vec::new();
    alts.push("утратившими");
    alts.push("утратившей");
    alts.push("утратившим");
    assert(words_view(alts@) =~= seq!["утратившими"@, "утратившей"@, "утратившим"@]);
    let mut steps: Vec<ExecStep> = Vec::new();
    steps.push(ExecStep::Spaces);
    steps.push(ExecStep::Tag("признать"));
    steps.push(ExecStep::Space1);
    steps.push(ExecStep::OneOf(alts));
    steps.push(ExecStep::Space1);
    steps.push(ExecStep::Tag("силу"));
    steps.push(ExecStep::Tag(";"));
    steps.push(ExecStep::End);
    assert(steps_view(steps@) =~= lost_power_grammar());
    steps
}

} // verus!
