//! A number written as a main part with an optional raised or lowered part: `5^1`,
//! `12_3`, with an optional closing sign.
use vstd::prelude::*;
use std::cmp::Ordering;
use vstd::std_specs::cmp::PartialEqSpecImpl;
use vstd::std_specs::cmp::PartialOrdSpecImpl;
use crate::order::{Order, chars_order, compare_chars, ordering_of, to_ordering};
use crate::outputs::markdown::AsMarkdown;
use crate::text::{chars_of, parse_u32, parse_u32_spec, push_str};

verus! {

/// How the second part of a number is placed.
#[derive(Debug, Clone, Copy, PartialEq, Eq, Hash, Structural)]
pub enum VerticalAlignment {
    Subscript,
    Superscript,
    Normal,
}

/// A number: its main part, an optional raised or lowered part, and an optional closing
/// sign such as `.` or `)`.
#[derive(Debug, Hash)]
pub struct Number {
    /// The main part.
    pub number: String,
    /// The second part and its placement.
    pub va_number: Option<(String, VerticalAlignment)>,
    /// The closing sign.
    pub postfix: Option<String>,
}

/// Order of two integers.
pub open spec fn int_order(a: int, b: int) -> Order {
    if a < b {
        Order::Less
    } else if a > b {
        Order::Greater
    } else {
        Order::Equal
    }
}

/// The text of the second part, when there is one.
pub open spec fn second_part(n: Number) -> Option<Seq<char>> {
    match n.va_number {
        Some((s, _)) => Some(s@),
        None => None,
    }
}

/// Order of two numbers. When both main parts are written in digits, they compare by
/// value, and on a tie the second parts decide (by value when both are in digits, as
/// text otherwise; a number with a second part before one without; without both, equal).
/// A main part in digits against one that is not: equal. Otherwise the main parts compare
/// as text, and on a tie: both without second parts equal; both with, by value when both
/// are in digits, `Less` when only the first is, equal when the first is not; with only
/// one second part, `Less`.
pub open spec fn alt_order(a: Number, b: Number) -> Order {
    let an = parse_u32_spec(a.number@);
    let bn = parse_u32_spec(b.number@);
    if an is Some {
        if bn is Some {
            let c = int_order(an->0 as int, bn->0 as int);
            if c != Order::Equal {
                c
            } else {
                match (second_part(a), second_part(b)) {
                    (Some(x), Some(y)) => {
                        let px = parse_u32_spec(x);
                        let py = parse_u32_spec(y);
                        if px is Some && py is Some {
                            int_order(px->0 as int, py->0 as int)
                        } else {
                            chars_order(x, y)
                        }
                    },
                    (Some(_), None) => Order::Less,
                    (None, Some(_)) => Order::Less,
                    (None, None) => c,
                }
            }
        } else {
            Order::Equal
        }
    } else {
        let ord = chars_order(a.number@, b.number@);
        if ord != Order::Equal {
            ord
        } else {
            match (second_part(a), second_part(b)) {
                (None, None) => Order::Equal,
                (Some(x), Some(y)) => {
                    let px = parse_u32_spec(x);
                    let py = parse_u32_spec(y);
                    if px is Some {
                        if py is Some {
                            int_order(px->0 as int, py->0 as int)
                        } else {
                            Order::Less
                        }
                    } else {
                        Order::Equal
                    }
                },
                _ => Order::Less,
            }
        }
    }
}

/// Equality of two numbers: equal main parts and closing signs, and, when both have a
/// second part, equal second parts.
pub open spec fn alt_equal(a: Number, b: Number) -> bool {
    let same = a.number@ == b.number@ && match (a.postfix, b.postfix) {
        (Some(x), Some(y)) => x@ == y@,
        (None, None) => true,
        _ => false,
    };
    match (second_part(a), second_part(b)) {
        (Some(x), Some(y)) => same && x == y,
        _ => same,
    }
}

/// The Markdown of a number: the main part, the second part raised with `<sup>` or
/// lowered with `<sub>` (or plain), then the closing sign.
pub open spec fn alt_markdown(n: Number) -> Seq<char> {
    n.number@ + match n.va_number {
        Some((s, VerticalAlignment::Normal)) => s@,
        Some((s, VerticalAlignment::Subscript)) => "<sub>"@ + s@ + "</sub>"@,
        Some((s, VerticalAlignment::Superscript)) => "<sup>"@ + s@ + "</sup>"@,
        None => seq![],
    } + match n.postfix {
        Some(p) => p@,
        None => seq![],
    }
}

/// Compares two integers.
fn compare_u32(a: u32, b: u32) -> (r: Order)
    ensures
        r == int_order(a as int, b as int),
{
    if a < b {
        Order::Less
    } else if a > b {
        Order::Greater
    } else {
        Order::Equal
    }
}

/// Compares two texts.
fn compare_strings(a: &String, b: &String) -> (r: Order)
    ensures
        r == chars_order(a@, b@),
{
    let x = chars_of(a.as_str());
    let y = chars_of(b.as_str());
    compare_chars(x.as_slice(), y.as_slice())
}

/// Compares two numbers.
pub fn alt_number_order(a: &Number, b: &Number) -> (r: Order)
    ensures
        r == alt_order(*a, *b),
{
    match parse_u32(a.number.as_str()) {
        Some(n) => match parse_u32(b.number.as_str()) {
            Some(other_n) => {
                let c = compare_u32(n, other_n);
                if c != Order::Equal {
                    c
                } else {
                    match &a.va_number {
                        Some((additional, _)) => match &b.va_number {
                            Some((other_additional, _)) => {
                                match parse_u32(additional.as_str()) {
                                    Some(an) => match parse_u32(other_additional.as_str()) {
                                        Some(other_an) => compare_u32(an, other_an),
                                        None => compare_strings(additional, other_additional),
                                    },
                                    None => compare_strings(additional, other_additional),
                                }
                            },
                            None => Order::Less,
                        },
                        None => match &b.va_number {
                            Some(_) => Order::Less,
                            None => c,
                        },
                    }
                }
            },
            None => Order::Equal,
        },
        None => {
            let ord = compare_strings(&a.number, &b.number);
            if ord != Order::Equal {
                ord
            } else {
                match &a.va_number {
                    Some((n1, _)) => match &b.va_number {
                        Some((n2, _)) => match parse_u32(n1.as_str()) {
                            Some(n) => match parse_u32(n2.as_str()) {
                                Some(other_n) => compare_u32(n, other_n),
                                None => Order::Less,
                            },
                            None => Order::Equal,
                        },
                        None => Order::Less,
                    },
                    None => match &b.va_number {
                        Some(_) => Order::Less,
                        None => Order::Equal,
                    },
                }
            }
        },
    }
}

/// Whether two numbers are equal.
pub fn alt_number_equal(a: &Number, b: &Number) -> (r: bool)
    ensures
        r == alt_equal(*a, *b),
{
    let same_postfix = match (&a.postfix, &b.postfix) {
        (Some(x), Some(y)) => *x == *y,
        (None, None) => true,
        _ => false,
    };
    let same = a.number == b.number && same_postfix;
    match (&a.va_number, &b.va_number) {
        (Some((x, _)), Some((y, _))) => same && *x == *y,
        _ => same,
    }
}

impl PartialEq for Number {
    fn eq(&self, other: &Self) -> (r: bool) {
        alt_number_equal(self, other)
    }
}

impl PartialEqSpecImpl for Number {
    open spec fn obeys_eq_spec() -> bool {
        true
    }

    open spec fn eq_spec(&self, other: &Number) -> bool {
        alt_equal(*self, *other)
    }
}

impl PartialOrd for Number {
    fn partial_cmp(&self, other: &Self) -> (r: Option<Ordering>) {
        Some(to_ordering(alt_number_order(self, other)))
    }
}

impl PartialOrdSpecImpl for Number {
    open spec fn obeys_partial_cmp_spec() -> bool {
        true
    }

    open spec fn partial_cmp_spec(&self, other: &Number) -> Option<Ordering> {
        Some(ordering_of(alt_order(*self, *other)))
    }
}

impl AsMarkdown for Number {
    open spec fn markdown(&self) -> Seq<char> {
        alt_markdown(*self)
    }

    fn as_markdown(&self) -> (r: String) {
        let mut n = self.number.clone();
        match &self.va_number {
            Some((s, va)) => match va {
                VerticalAlignment::Normal => push_str(&mut n, s.as_str()),
                VerticalAlignment::Subscript => {
                    push_str(&mut n, "<sub>");
                    push_str(&mut n, s.as_str());
                    push_str(&mut n, "</sub>");
                },
                VerticalAlignment::Superscript => {
                    push_str(&mut n, "<sup>");
                    push_str(&mut n, s.as_str());
                    push_str(&mut n, "</sup>");
                },
            },
            None => {},
        }
        match &self.postfix {
            Some(p) => push_str(&mut n, p.as_str()),
            None => {},
        }
        n
    }
}

} // verus!
