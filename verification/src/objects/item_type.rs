//! Kinds of numbered units: part (`часть`), item (`пункт`), sub-item (`подпункт`).
use vstd::prelude::*;
use crate::error::ParserError;
use crate::order::Order;
use crate::text::{has_prefix, lowercased, push_str, starts_with, to_lowercase};

verus! {

/// Kind of a numbered unit.
#[derive(Debug, Clone, Copy, PartialEq, Eq, Hash, Structural)]
pub enum ItemType {
    /// `часть`: in some acts the first level of numbering.
    Part,
    /// `пункт`
    Item,
    /// `подпункт`
    Subitem,
}

/// Order of kinds of numbered units. A part is `Greater` than anything but a part; an
/// item is `Less` than a part and `Greater` than a sub-item; a sub-item is `Greater` than
/// anything but a sub-item.
pub open spec fn item_order(a: ItemType, b: ItemType) -> Order {
    match a {
        ItemType::Part => match b {
            ItemType::Part => Order::Equal,
            _ => Order::Greater,
        },
        ItemType::Item => match b {
            ItemType::Part => Order::Less,
            ItemType::Item => Order::Equal,
            _ => Order::Greater,
        },
        ItemType::Subitem => match b {
            ItemType::Subitem => Order::Equal,
            _ => Order::Greater,
        },
    }
}

/// Compares two kinds of numbered units.
pub fn item_type_order(a: &ItemType, b: &ItemType) -> (r: Order)
    ensures
        r == item_order(*a, *b),
{
    match a {
        ItemType::Part => match b {
            ItemType::Part => Order::Equal,
            _ => Order::Greater,
        },
        ItemType::Item => match b {
            ItemType::Part => Order::Less,
            ItemType::Item => Order::Equal,
            _ => Order::Greater,
        },
        ItemType::Subitem => match b {
            ItemType::Subitem => Order::Equal,
            _ => Order::Greater,
        },
    }
}

/// The kind a lower-cased word names by its stem, if any.
pub open spec fn item_of_lowercase(lower: Seq<char>) -> Option<ItemType> {
    if has_prefix(lower, "част"@) {
        Some(ItemType::Part)
    } else if has_prefix(lower, "пункт"@) {
        Some(ItemType::Item)
    } else if has_prefix(lower, "подпункт"@) {
        Some(ItemType::Subitem)
    } else {
        None
    }
}

/// The message when a word names no kind of numbered unit.
pub open spec fn not_an_item_message(s: Seq<char>) -> Seq<char> {
    "строка `"@ + s + "` не является валидным списочным элементом"@
}

impl ItemType {
    /// The kind named by `lower`, the lower-cased form of `word`.
    pub fn from_lowercase(lower: &str, word: &str) -> (r: Result<ItemType, ParserError>)
        ensures
            match item_of_lowercase(lower@) {
                Some(h) => r == Ok::<ItemType, ParserError>(h),
                None => r matches Err(ParserError::OperationError(m)) && m@
                    == not_an_item_message(word@),
            },
    {
        if starts_with(lower, "част") {
            Ok(ItemType::Part)
        } else if starts_with(lower, "пункт") {
            Ok(ItemType::Item)
        } else if starts_with(lower, "подпункт") {
            Ok(ItemType::Subitem)
        } else {
            let mut m = String::new();
            push_str(&mut m, "строка `");
            push_str(&mut m, word);
            push_str(&mut m, "` не является валидным списочным элементом");
            Err(ParserError::OperationError(m))
        }
    }

    /// The kind a word names: `част…` a part, `пункт…` an item, `подпункт…` a sub-item, in
    /// any letter case.
    pub fn from_text(s: &str) -> (r: Result<ItemType, ParserError>)
        ensures
            match item_of_lowercase(lowercased(s@)) {
                Some(h) => r == Ok::<ItemType, ParserError>(h),
                None => r matches Err(ParserError::OperationError(m)) && m@
                    == not_an_item_message(s@),
            },
    {
        let lower = to_lowercase(s);
        ItemType::from_lowercase(lower.as_str(), s)
    }
}

impl std::str::FromStr for ItemType {
    type Err = ParserError;

    fn from_str(s: &str) -> (r: Result<Self, Self::Err>)
        ensures
            match item_of_lowercase(lowercased(s@)) {
                Some(h) => r == Ok::<ItemType, ParserError>(h),
                None => r matches Err(ParserError::OperationError(m)) && m@
                    == not_an_item_message(s@),
            },
    {
        ItemType::from_text(s)
    }
}

} // verus!
