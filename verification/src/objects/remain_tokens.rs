//! What is left of a line after a directive was recognised in it.
use vstd::prelude::*;
use crate::text::{push_str, string_of};

verus! {

/// A line and the part of it that no rule consumed.
#[derive(Clone, Debug)]
pub struct RemainTokens {
    source_string: String,
    remains_tokens: String,
}

/// The warning written for a line that was not read to its end; empty when nothing
/// remains.
pub open spec fn remain_message(source: Seq<char>, remains: Seq<char>) -> Seq<char> {
    if remains.len() > 0 {
        "Есть не полностью обработанная строка ->"@ + source + "| остаток токенов ->"@ + remains
            + "|"@
    } else {
        seq![]
    }
}

impl RemainTokens {
    /// The whole line.
    pub closed spec fn source(&self) -> Seq<char> {
        self.source_string@
    }

    /// The unread rest of the line.
    pub closed spec fn remains(&self) -> Seq<char> {
        self.remains_tokens@
    }

    /// Records a line and its unread rest.
    pub fn new(source_string: &str, remains: &str) -> (r: Self)
        ensures
            r.source() == source_string@,
            r.remains() == remains@,
    {
        RemainTokens { source_string: string_of(source_string), remains_tokens: string_of(remains) }
    }

    /// The warning for this line: empty when the whole line was read.
    pub fn message(&self) -> (r: String)
        ensures
            r@ == remain_message(self.source(), self.remains()),
    {
        let mut r = String::new();
        if self.remains_tokens.as_str().unicode_len() > 0 {
            push_str(&mut r, "Есть не полностью обработанная строка ->");
            push_str(&mut r, self.source_string.as_str());
            push_str(&mut r, "| остаток токенов ->");
            push_str(&mut r, self.remains_tokens.as_str());
            push_str(&mut r, "|");
            proof {
                reveal_strlit("Есть не полностью обработанная строка ->");
                reveal_strlit("| остаток токенов ->");
                reveal_strlit("|");
            }
        }
        r
    }
}

} // verus!
