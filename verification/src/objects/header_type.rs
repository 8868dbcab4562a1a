//! Kinds of headers: section (`раздел`), chapter (`глава`), article (`статья`).
use vstd::prelude::*;
use crate::error::ParserError;
use crate::order::Order;
use crate::text::{has_prefix, lowercased, push_str, starts_with, to_lowercase};

verus! {

/// Kind of a header, from the largest unit to the smallest.
#[derive(Debug, Clone, Copy, PartialEq, Eq, Hash, Structural, PartialOrd, Ord)]
pub enum HeaderType {
    /// `раздел`
    Chapter,
    /// `глава`
    Section,
    /// `статья`
    Article,
}

/// Place of a header kind: section, then chapter, then article.
pub open spec fn header_rank(h: HeaderType) -> nat {
    match h {
        HeaderType::Chapter => 0,
        HeaderType::Section => 1,
        HeaderType::Article => 2,
    }
}

/// Order of header kinds by their place.
pub open spec fn header_order(a: HeaderType, b: HeaderType) -> Order {
    if header_rank(a) < header_rank(b) {
        Order::Less
    } else if header_rank(a) > header_rank(b) {
        Order::Greater
    } else {
        Order::Equal
    }
}

/// Compares two header kinds.
pub fn header_type_order(a: &HeaderType, b: &HeaderType) -> (r: Order)
    ensures
        r == header_order(*a, *b),
{
    match a {
        HeaderType::Chapter => match b {
            HeaderType::Chapter => Order::Equal,
            _ => Order::Less,
        },
        HeaderType::Section => match b {
            HeaderType::Chapter => Order::Greater,
            HeaderType::Section => Order::Equal,
            _ => Order::Less,
        },
        HeaderType::Article => match b {
            HeaderType::Article => Order::Equal,
            _ => Order::Greater,
        },
    }
}

/// The header kind a lower-cased word names by its stem, if any.
pub open spec fn header_of_lowercase(lower: Seq<char>) -> Option<HeaderType> {
    if has_prefix(lower, "разд"@) {
        Some(HeaderType::Chapter)
    } else if has_prefix(lower, "стать"@) {
        Some(HeaderType::Article)
    } else if has_prefix(lower, "глав"@) {
        Some(HeaderType::Section)
    } else {
        None
    }
}

/// The message when a word names no header kind.
pub open spec fn not_a_header_message(s: Seq<char>) -> Seq<char> {
    "строка `"@ + s + "` не является валидным заголовком"@
}

impl HeaderType {
    /// The header kind named by `lower`, the lower-cased form of `word`.
    pub fn from_lowercase(lower: &str, word: &str) -> (r: Result<HeaderType, ParserError>)
        ensures
            match header_of_lowercase(lower@) {
                Some(h) => r == Ok::<HeaderType, ParserError>(h),
                None => r matches Err(ParserError::OperationError(m)) && m@
                    == not_a_header_message(word@),
            },
    {
        if starts_with(lower, "разд") {
            Ok(HeaderType::Chapter)
        } else if starts_with(lower, "стать") {
            Ok(HeaderType::Article)
        } else if starts_with(lower, "глав") {
            Ok(HeaderType::Section)
        } else {
            let mut m = String::new();
            push_str(&mut m, "строка `");
            push_str(&mut m, word);
            push_str(&mut m, "` не является валидным заголовком");
            Err(ParserError::OperationError(m))
        }
    }

    /// The header kind a word names: `разд…` a section, `стать…` an article, `глав…` a
    /// chapter, in any letter case.
    pub fn from_text(s: &str) -> (r: Result<HeaderType, ParserError>)
        ensures
            match header_of_lowercase(lowercased(s@)) {
                Some(h) => r == Ok::<HeaderType, ParserError>(h),
                None => r matches Err(ParserError::OperationError(m)) && m@
                    == not_a_header_message(s@),
            },
    {
        let lower = to_lowercase(s);
        HeaderType::from_lowercase(lower.as_str(), s)
    }
}

impl std::str::FromStr for HeaderType {
    type Err = ParserError;

    fn from_str(s: &str) -> (r: Result<Self, Self::Err>)
        ensures
            match header_of_lowercase(lowercased(s@)) {
                Some(h) => r == Ok::<HeaderType, ParserError>(h),
                None => r matches Err(ParserError::OperationError(m)) && m@
                    == not_a_header_message(s@),
            },
    {
        HeaderType::from_text(s)
    }
}

} // verus!
