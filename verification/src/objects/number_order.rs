//! Equality and order of numbers: digits compare by value and come before letters,
//! letters compare as text, and a longer chain follows a shorter one.
use vstd::prelude::*;
use std::cmp::Ordering;
use vstd::std_specs::cmp::PartialEqSpecImpl;
use vstd::std_specs::cmp::PartialOrdSpecImpl;
use crate::objects::number::{Number, NumberPart, lemma_parts_nonempty, number_parts, head_part};
use crate::order::{Order, chars_order, compare_chars, ordering_of, to_ordering, lemma_chars_order_equal};
use crate::text::{parse_u32, parse_u32_spec, chars_of};

verus! {

/// Equality of two chains of parts. Parts written in digits are equal when their values
/// are; parts written otherwise are equal when their texts are. The chains must then both
/// go on, or, after digits, both end; a chain that ends after a letter equals nothing.
/// Index and postfix play no part.
pub open spec fn parts_equal(a: Seq<NumberPart>, b: Seq<NumberPart>) -> bool
    decreases a.len(),
{
    if a.len() == 0 || b.len() == 0 {
        false
    } else {
        let pa = parse_u32_spec(a[0].number);
        let pb = parse_u32_spec(b[0].number);
        if pa is Some && pb is Some {
            if pa == pb {
                if a.len() > 1 && b.len() > 1 {
                    parts_equal(a.drop_first(), b.drop_first())
                } else {
                    a.len() == 1 && b.len() == 1
                }
            } else {
                false
            }
        } else if pa is None && pb is None {
            a[0].number == b[0].number && a.len() > 1 && b.len() > 1 && parts_equal(
                a.drop_first(),
                b.drop_first(),
            )
        } else {
            false
        }
    }
}

/// Order of two chains of parts. Digits come before letters and compare by value;
/// letters compare as text. When the first parts tie, the following parts decide; a chain
/// that goes on comes after one that ends, and when neither goes on the first is `Less`.
pub open spec fn parts_order(a: Seq<NumberPart>, b: Seq<NumberPart>) -> Order
    decreases a.len(),
{
    if a.len() == 0 || b.len() == 0 {
        Order::Less
    } else {
        let pa = parse_u32_spec(a[0].number);
        let pb = parse_u32_spec(b[0].number);
        let tie = if a.len() > 1 && b.len() > 1 {
            parts_order(a.drop_first(), b.drop_first())
        } else if a.len() > 1 {
            Order::Greater
        } else {
            Order::Less
        };
        if pa is Some && pb is Some {
            if pa->0 < pb->0 {
                Order::Less
            } else if pa->0 > pb->0 {
                Order::Greater
            } else {
                tie
            }
        } else if pa is Some {
            Order::Less
        } else if pb is Some {
            Order::Greater
        } else {
            let o = chars_order(a[0].number, b[0].number);
            if o != Order::Equal {
                o
            } else {
                tie
            }
        }
    }
}

/// Whether two numbers are equal, part by part.
pub fn number_equal(a: &Number, b: &Number) -> (r: bool)
    ensures
        r == parts_equal(a@, b@),
    decreases *a,
{
    proof {
        lemma_parts_nonempty(*a);
        lemma_parts_nonempty(*b);
    }
    let pa = parse_u32(a.number.as_str());
    let pb = parse_u32(b.number.as_str());
    match (pa, pb) {
        (Some(x), Some(y)) => {
            if x == y {
                match (&a.next, &b.next) {
                    (Some(na), Some(nb)) => {
                        assert(a@.drop_first() =~= na@);
                        assert(b@.drop_first() =~= nb@);
                        number_equal(na, nb)
                    },
                    (None, None) => true,
                    (Some(na), None) => {
                        proof {
                            lemma_parts_nonempty(**na);
                        }
                        false
                    },
                    (None, Some(nb)) => {
                        proof {
                            lemma_parts_nonempty(**nb);
                        }
                        false
                    },
                }
            } else {
                false
            }
        },
        (None, None) => {
            if a.number == b.number {
                match (&a.next, &b.next) {
                    (Some(na), Some(nb)) => {
                        proof {
                            lemma_parts_nonempty(**na);
                            lemma_parts_nonempty(**nb);
                        }
                        assert(a@.drop_first() =~= na@);
                        assert(b@.drop_first() =~= nb@);
                        number_equal(na, nb)
                    },
                    _ => false,
                }
            } else {
                false
            }
        },
        _ => false,
    }
}

/// The outcome when the first parts tie.
fn tie_order(a: &Number, b: &Number) -> (r: Order)
    ensures
        r == (if a@.len() > 1 && b@.len() > 1 {
            parts_order(a@.drop_first(), b@.drop_first())
        } else if a@.len() > 1 {
            Order::Greater
        } else {
            Order::Less
        }),
    decreases *a, 0nat,
{
    proof {
        lemma_parts_nonempty(*a);
        lemma_parts_nonempty(*b);
    }
    match (&a.next, &b.next) {
        (Some(na), Some(nb)) => {
            proof {
                lemma_parts_nonempty(**na);
                lemma_parts_nonempty(**nb);
            }
            assert(a@.drop_first() =~= na@);
            assert(b@.drop_first() =~= nb@);
            number_order(na, nb)
        },
        (Some(na), None) => {
            proof {
                lemma_parts_nonempty(**na);
            }
            Order::Greater
        },
        (None, Some(nb)) => Order::Less,
        (None, None) => Order::Less,
    }
}

/// Compares two numbers.
pub fn number_order(a: &Number, b: &Number) -> (r: Order)
    ensures
        r == parts_order(a@, b@),
    decreases *a, 1nat,
{
    proof {
        lemma_parts_nonempty(*a);
        lemma_parts_nonempty(*b);
    }
    let pa = parse_u32(a.number.as_str());
    let pb = parse_u32(b.number.as_str());
    match (pa, pb) {
        (Some(x), Some(y)) => {
            let r = digit_and_digit(&x, &y);
            match r {
                Ordering::Less => Order::Less,
                Ordering::Greater => Order::Greater,
                Ordering::Equal => tie_order(a, b),
            }
        },
        (Some(x), None) => {
            let _r = digit_and_alpha(&x, a.number.as_str());
            Order::Less
        },
        (None, Some(y)) => {
            let _r = alpha_and_digit(a.number.as_str(), &y);
            Order::Greater
        },
        (None, None) => {
            let ca = chars_of(a.number.as_str());
            let cb = chars_of(b.number.as_str());
            let o = compare_chars(ca.as_slice(), cb.as_slice());
            match o {
                Order::Equal => tie_order(a, b),
                _ => o,
            }
        },
    }
}

/// Order of two numbers written in digits.
fn digit_and_digit(num1: &u32, num2: &u32) -> (r: Ordering)
    ensures
        r == (if *num1 < *num2 {
            Ordering::Less
        } else if *num1 > *num2 {
            Ordering::Greater
        } else {
            Ordering::Equal
        }),
{
    if *num1 < *num2 {
        Ordering::Less
    } else if *num1 > *num2 {
        Ordering::Greater
    } else {
        Ordering::Equal
    }
}

/// A number in digits comes before one written otherwise.
fn digit_and_alpha(_n: &u32, _s: &str) -> (r: Ordering)
    ensures
        r == Ordering::Less,
{
    Ordering::Less
}

/// A number written otherwise comes after one in digits.
fn alpha_and_digit(_s: &str, _n: &u32) -> (r: Ordering)
    ensures
        r == Ordering::Greater,
{
    Ordering::Greater
}

impl PartialEq for Number {
    fn eq(&self, other: &Self) -> (r: bool) {
        number_equal(self, other)
    }
}

impl PartialEqSpecImpl for Number {
    open spec fn obeys_eq_spec() -> bool {
        true
    }

    open spec fn eq_spec(&self, other: &Number) -> bool {
        parts_equal(self@, other@)
    }
}

impl PartialOrd for Number {
    fn partial_cmp(&self, other: &Self) -> (r: Option<Ordering>) {
        Some(to_ordering(number_order(self, other)))
    }
}

impl PartialOrdSpecImpl for Number {
    open spec fn obeys_partial_cmp_spec() -> bool {
        true
    }

    open spec fn partial_cmp_spec(&self, other: &Number) -> Option<Ordering> {
        Some(ordering_of(parts_order(self@, other@)))
    }
}

/// A number is followed by any number that extends it: `a` comes before `a` with more
/// parts appended.
pub proof fn lemma_extension_follows(a: Seq<NumberPart>, m: Seq<NumberPart>)
    requires
        a.len() >= 1,
        m.len() >= 1,
    ensures
        parts_order(a, a + m) == Order::Less,
        parts_order(a + m, a) == Order::Greater,
        !parts_equal(a, a + m),
    decreases a.len(),
{
    let am = a + m;
    assert(am[0] == a[0]);
    lemma_chars_order_equal(a[0].number, a[0].number);
    if a.len() > 1 {
        assert(am.drop_first() =~= a.drop_first() + m);
        lemma_extension_follows(a.drop_first(), m);
    }
}

/// Digits come before letters: a number whose first part is written in digits comes
/// before any number whose first part is not, and only equals numbers whose first parts
/// are digits too.
pub proof fn lemma_digits_before_letters(a: Seq<NumberPart>, b: Seq<NumberPart>)
    requires
        a.len() >= 1,
        b.len() >= 1,
        parse_u32_spec(a[0].number) is Some,
        parse_u32_spec(b[0].number) is None,
    ensures
        parts_order(a, b) == Order::Less,
        parts_order(b, a) == Order::Greater,
        !parts_equal(a, b),
        !parts_equal(b, a),
{
}

/// Equal numbers are never apart in the order: when `a` equals `b`, each is `Less` than
/// the other (the order does not tell equal numbers apart from smaller ones).
pub proof fn lemma_equal_orders_less(a: Seq<NumberPart>, b: Seq<NumberPart>)
    requires
        parts_equal(a, b),
    ensures
        parts_order(a, b) == Order::Less,
        parts_order(b, a) == Order::Less,
        parts_equal(b, a),
    decreases a.len(),
{
    lemma_chars_order_equal(a[0].number, b[0].number);
    lemma_chars_order_equal(b[0].number, a[0].number);
    if a.len() > 1 && b.len() > 1 {
        lemma_equal_orders_less(a.drop_first(), b.drop_first());
    }
}

} // verus!
