//! Markdown writing of numbers: superscript parts between `<sup>` and `</sup>`,
//! subscript parts between `<sub>` and `</sub>`.
use vstd::prelude::*;
use crate::objects::number::{Number, NumberIndex, NumberPart, head_part, lemma_parts_nonempty, opt_view};
use crate::outputs::markdown::AsMarkdown;
use crate::text::push_str;

verus! {

/// The text of an optional closing sign.
pub open spec fn postfix_text(p: Option<Seq<char>>) -> Seq<char> {
    match p {
        Some(t) => t,
        None => seq![],
    }
}

/// The tag that closes a run written in `index`.
pub open spec fn closing_tag(index: NumberIndex) -> Seq<char> {
    match index {
        NumberIndex::Superscript => "</sup>"@,
        NumberIndex::Subscript => "</sub>"@,
        NumberIndex::Normal => seq![],
    }
}

/// The tag opened before a part written in `index` when the run so far is in `current`,
/// and the run after it.
pub open spec fn opening(index: NumberIndex, current: NumberIndex) -> (Seq<char>, NumberIndex) {
    if index == NumberIndex::Superscript && current != NumberIndex::Superscript {
        ("<sup>"@, NumberIndex::Superscript)
    } else if index == NumberIndex::Subscript && current != NumberIndex::Subscript {
        ("<sub>"@, NumberIndex::Subscript)
    } else {
        (seq![], current)
    }
}

/// Markdown of the parts after the first, the run so far being written in `current`.
/// A tag opens when a part turns to superscript or subscript; the run is closed after the
/// last part, before its closing sign.
pub open spec fn tail_markdown(parts: Seq<NumberPart>, current: NumberIndex) -> Seq<char>
    decreases parts.len(),
{
    if parts.len() == 0 {
        seq![]
    } else {
        let p = parts[0];
        let (open, run) = opening(p.index, current);
        let close = if parts.len() == 1 {
            closing_tag(run)
        } else {
            seq![]
        };
        open + p.number + close + postfix_text(p.postfix) + tail_markdown(parts.drop_first(), run)
    }
}

/// Markdown of a number: its first part as it is written, then the others.
pub open spec fn number_markdown(parts: Seq<NumberPart>) -> Seq<char> {
    parts[0].number + postfix_text(parts[0].postfix) + tail_markdown(
        parts.drop_first(),
        NumberIndex::Normal,
    )
}

/// Closes the run written in `index`.
fn end_index(index: &NumberIndex, output: &mut String)
    ensures
        final(output)@ == old(output)@ + closing_tag(*index),
{
    if *index == NumberIndex::Superscript {
        push_str(output, "</sup>");
    }
    if *index == NumberIndex::Subscript {
        push_str(output, "</sub>");
    }
    assert(output@ =~= old(output)@ + closing_tag(*index));
}

/// Appends the closing sign of a part.
fn push_postfix(postfix: &Option<String>, output: &mut String)
    ensures
        final(output)@ == old(output)@ + postfix_text(opt_view(*postfix)),
{
    match postfix {
        Some(p) => push_str(output, p.as_str()),
        None => {
            assert(output@ =~= old(output)@ + postfix_text(opt_view(*postfix)));
        },
    }
}

/// The Markdown of a chain after its first part, unfolded once.
proof fn lemma_tail_unfold(n: Number, current: NumberIndex)
    ensures
        ({
            let opened = opening(n.number_index, current);
            let close = if n.next is None {
                closing_tag(opened.1)
            } else {
                seq![]
            };
            let rest = match n.next {
                Some(b) => tail_markdown(b@, opened.1),
                None => seq![],
            };
            tail_markdown(n@, current) == opened.0 + n.number@ + close + postfix_text(
                opt_view(n.postfix),
            ) + rest
        }),
{
    lemma_parts_nonempty(n);
    let opened = opening(n.number_index, current);
    let p = n@[0];
    assert(p == head_part(n));
    assert(opening(p.index, current) == opened);
    match n.next {
        Some(b) => {
            lemma_parts_nonempty(*b);
            assert(n@.drop_first() =~= b@);
            assert(n@.len() > 1);
            let rest = tail_markdown(b@, opened.1);
            assert(tail_markdown(n@, current) =~= opened.0 + n.number@ + seq![] + postfix_text(
                opt_view(n.postfix),
            ) + rest);
        },
        None => {
            assert(n@.drop_first() =~= Seq::<NumberPart>::empty());
            assert(n@.len() == 1);
            assert(tail_markdown(n@.drop_first(), opened.1) == Seq::<char>::empty());
            assert(tail_markdown(n@, current) =~= opened.0 + n.number@ + closing_tag(opened.1)
                + postfix_text(opt_view(n.postfix)) + seq![]);
        },
    }
}

/// Appends the Markdown of `n` and the parts after it, the run so far being in `current`.
fn push_tail(n: &Number, current: NumberIndex, output: &mut String)
    ensures
        final(output)@ == old(output)@ + tail_markdown(n@, current),
    decreases *n,
{
    proof {
        lemma_tail_unfold(*n, current);
    }
    let mut run = current;
    if n.number_index == NumberIndex::Superscript {
        if run != n.number_index {
            push_str(output, "<sup>");
            run = n.number_index;
        }
    }
    if n.number_index == NumberIndex::Subscript {
        if run != n.number_index {
            push_str(output, "<sub>");
            run = n.number_index;
        }
    }
    let ghost opened = opening(n.number_index, current);
    assert(run == opened.1);
    assert(output@ =~= old(output)@ + opened.0);
    push_str(output, n.number.as_str());
    if n.next.is_none() {
        end_index(&run, output);
    }
    push_postfix(&n.postfix, output);
    match &n.next {
        Some(b) => {
            push_tail(b, run, output);
        },
        None => {},
    }
    assert(output@ =~= old(output)@ + tail_markdown(n@, current));
}

impl AsMarkdown for Number {
    open spec fn markdown(&self) -> Seq<char> {
        number_markdown(self@)
    }

    fn as_markdown(&self) -> (r: String) {
        proof {
            lemma_parts_nonempty(*self);
        }
        let mut output = String::new();
        push_str(&mut output, self.number.as_str());
        push_postfix(&self.postfix, &mut output);
        match &self.next {
            Some(b) => {
                assert(self@.drop_first() =~= b@);
                push_tail(b, NumberIndex::Normal, &mut output);
            },
            None => {
                assert(self@.drop_first() =~= Seq::<NumberPart>::empty());
            },
        }
        assert(output@ =~= number_markdown(self@));
        output
    }
}

} // verus!
