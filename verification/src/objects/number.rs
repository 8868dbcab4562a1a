//! Numbers of structural units: `22`, `а)`, `1-2^2-3`, kept as a chain of parts.
use vstd::prelude::*;
use crate::error::{ErrorCode, ParserError};
use crate::text::string_of;
use vstd::string::*;

verus! {

/// How a part of a number is written: normally, as superscript or as subscript.
#[derive(Debug, Clone, Copy, PartialEq, Eq, Hash, Structural)]
pub enum NumberIndex {
    Subscript,
    Superscript,
    Normal,
}

/// A number as a chain of parts: `1-2^2-3` is `1-`, then `2` as superscript, and so on.
#[derive(Debug, Hash, Eq)]
pub struct Number {
    /// The digits or the letter of this part.
    pub number: String,
    /// How this part is written.
    pub number_index: NumberIndex,
    /// The sign after this part, such as `.` or `)`.
    pub postfix: Option<String>,
    /// The following part.
    pub next: Option<Box<Number>>,
}

/// One part of a number, as plain values.
pub struct NumberPart {
    pub number: Seq<char>,
    pub index: NumberIndex,
    pub postfix: Option<Seq<char>>,
}

/// The view of an optional string.
pub open spec fn opt_view(o: Option<String>) -> Option<Seq<char>> {
    match o {
        Some(s) => Some(s@),
        None => None,
    }
}

/// The part held by the first node of a chain.
pub open spec fn head_part(n: Number) -> NumberPart {
    NumberPart { number: n.number@, index: n.number_index, postfix: opt_view(n.postfix) }
}

/// All parts of a chain, first to last.
pub open spec fn number_parts(n: Number) -> Seq<NumberPart>
    decreases n,
{
    match n.next {
        Some(b) => seq![head_part(n)] + number_parts(*b),
        None => seq![head_part(n)],
    }
}

impl View for Number {
    type V = Seq<NumberPart>;

    open spec fn view(&self) -> Seq<NumberPart> {
        number_parts(*self)
    }
}

/// A chain always has at least one part.
pub proof fn lemma_parts_nonempty(n: Number)
    ensures
        number_parts(n).len() >= 1,
        number_parts(n)[0] == head_part(n),
    decreases n,
{
}

/// The last node of a chain.
pub open spec fn last_node(n: Number) -> Number
    decreases n,
{
    match n.next {
        Some(b) => last_node(*b),
        None => n,
    }
}

/// The chain with its last node replaced by `l`.
pub open spec fn with_last_node(n: Number, l: Number) -> Number
    decreases n,
{
    match n.next {
        Some(b) => Number { next: Some(Box::new(with_last_node(*b, l))), ..n },
        None => l,
    }
}

/// The parts of `with_last_node`: all but the last part of `n`, then the parts of `l`.
pub proof fn lemma_with_last_node_parts(n: Number, l: Number)
    ensures
        number_parts(with_last_node(n, l)) == number_parts(n).drop_last() + number_parts(l),
        number_parts(last_node(n)) == seq![number_parts(n).last()],
        last_node(n).next is None,
    decreases n,
{
    match n.next {
        Some(b) => {
            lemma_with_last_node_parts(*b, l);
            lemma_parts_nonempty(*b);
            assert(number_parts(n).drop_last() =~= seq![head_part(n)] + number_parts(
                *b,
            ).drop_last());
        },
        None => {
            assert(number_parts(n).drop_last() =~= Seq::<NumberPart>::empty());
        },
    }
}

impl Number {
    /// The last part of the chain, to be changed in place.
    pub fn get_last_mut(&mut self) -> (r: &mut Self)
        ensures
            *r == last_node(*old(self)),
            *final(self) == with_last_node(*old(self), *final(r)),
        decreases *old(self),
    {
        match self.next {
            Some(ref mut b) => b.get_last_mut(),
            None => self,
        }
    }

    /// A number of one part.
    pub fn new(number: &str, index: NumberIndex, postfix: Option<String>) -> (r: Self)
        ensures
            r@ == seq![NumberPart { number: number@, index, postfix: opt_view(postfix) }],
            r.next is None,
    {
        Number { number: string_of(number), number_index: index, postfix, next: None }
    }

    /// Appends `number` after the last part of this chain.
    pub fn apply(&mut self, number: Self)
        ensures
            final(self)@ == old(self)@ + number@,
    {
        let ghost old_self = *self;
        let last = self.get_last_mut();
        let ghost last_before = *last;
        last.next = Some(Box::new(number));
        proof {
            let l = *last;
            lemma_with_last_node_parts(old_self, l);
            assert(number_parts(l) =~= seq![head_part(last_before)] + number_parts(number));
            assert(number_parts(last_before) == seq![number_parts(old_self).last()]);
            assert(last_before == last_node(old_self));
            assert(number_parts(last_before) == seq![number_parts(old_self).last()]);
            assert(number_parts(last_before) =~= seq![head_part(last_before)]);
            assert(number_parts(last_before)[0] == head_part(last_before));
            assert(head_part(last_before) == number_parts(old_self).last());
            lemma_parts_nonempty(old_self);
            assert(number_parts(old_self).drop_last().push(number_parts(old_self).last())
                =~= number_parts(old_self));
        }
    }

    /// A copy of this chain.
    pub fn duplicate(&self) -> (r: Self)
        ensures
            r == *self,
        decreases *self,
    {
        let next = match &self.next {
            Some(b) => Some(Box::new(b.duplicate())),
            None => None,
        };
        let postfix = match &self.postfix {
            Some(p) => Some(p.clone()),
            None => None,
        };
        Number {
            number: self.number.clone(),
            number_index: self.number_index,
            postfix,
            next,
        }
    }
}

impl Clone for Number {
    fn clone(&self) -> (r: Self) {
        self.duplicate()
    }
}

/// Walks the parts of a chain by reference.
pub struct NumberIterator<'a> {
    current: Option<&'a Number>,
}

impl<'a> NumberIterator<'a> {
    /// Starts at the first part of `n`.
    pub fn new(n: &'a Number) -> (r: Self)
        ensures
            r.remaining() == n@,
    {
        NumberIterator { current: Some(n) }
    }

    /// The parts not yet handed out.
    pub closed spec fn remaining(&self) -> Seq<NumberPart> {
        match self.current {
            Some(n) => number_parts(*n),
            None => seq![],
        }
    }

    /// Hands out the current node and moves to the following one.
    pub fn next(&mut self) -> (r: Option<&'a Number>)
        ensures
            old(self).remaining().len() == 0 ==> r is None && final(self).remaining().len() == 0,
            old(self).remaining().len() > 0 ==> r is Some && head_part(*r->0)
                == old(self).remaining()[0] && final(self).remaining() == old(
                self,
            ).remaining().drop_first(),
    {
        let current = self.current;
        match current {
            Some(n) => {
                proof {
                    lemma_parts_nonempty(*n);
                }
                match &n.next {
                    Some(b) => {
                        self.current = Some(&**b);
                        assert(number_parts(*n).drop_first() =~= number_parts(**b));
                    },
                    None => {
                        self.current = None;
                        assert(number_parts(*n).drop_first() =~= Seq::<NumberPart>::empty());
                    },
                }
                Some(n)
            },
            None => None,
        }
    }
}

/// Hands out the parts of a chain, each as a number of one part.
pub struct NumberIntoIterator {
    current: Option<Number>,
}

impl NumberIntoIterator {
    /// Starts at the first part of `n`.
    pub fn new(n: Number) -> (r: Self)
        ensures
            r.remaining() == n@,
    {
        NumberIntoIterator { current: Some(n) }
    }

    /// The parts not yet handed out.
    pub closed spec fn remaining(&self) -> Seq<NumberPart> {
        match self.current {
            Some(n) => number_parts(n),
            None => seq![],
        }
    }

    /// Hands out the current part, detached from the rest of the chain.
    pub fn next(&mut self) -> (r: Option<Number>)
        ensures
            old(self).remaining().len() == 0 ==> r is None && final(self).remaining().len() == 0,
            old(self).remaining().len() > 0 ==> r is Some && r->0@ == seq![
                old(self).remaining()[0],
            ] && final(self).remaining() == old(self).remaining().drop_first(),
    {
        let current = self.current.take();
        match current {
            Some(mut n) => {
                proof {
                    lemma_parts_nonempty(n);
                }
                let ghost whole = n;
                let next = n.next.take();
                match next {
                    Some(b) => {
                        assert(number_parts(whole).drop_first() =~= number_parts(*b));
                        self.current = Some(*b);
                    },
                    None => {
                        assert(number_parts(whole).drop_first() =~= Seq::<NumberPart>::empty());
                        self.current = None;
                    },
                }
                Some(n)
            },
            None => None,
        }
    }
}

} // verus!
