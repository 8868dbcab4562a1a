//! Equality and order of path steps, and sorting of paths: headers first, then numbered
//! units, then paragraphs.
use vstd::prelude::*;
use std::cmp::Ordering;
use vstd::std_specs::cmp::PartialEqSpecImpl;
use vstd::std_specs::cmp::PartialOrdSpecImpl;
use crate::change_path::ChangePath;
use crate::objects::header_type::{header_order, header_type_order};
use crate::objects::item_type::{item_order, item_type_order};
use crate::objects::number_order::{number_equal, number_order, parts_equal, parts_order};
use crate::order::{Order, ordering_of, to_ordering};

verus! {

/// Equality of steps: same variant, equal numbers (as numbers compare) and equal kinds,
/// or equal paragraph counts.
pub open spec fn path_equal(a: ChangePath, b: ChangePath) -> bool {
    match (a, b) {
        (
            ChangePath::Header { number: n1, header_type: h1 },
            ChangePath::Header { number: n2, header_type: h2 },
        ) => parts_equal(n1@, n2@) && h1 == h2,
        (
            ChangePath::Item { number: n1, item_type: i1 },
            ChangePath::Item { number: n2, item_type: i2 },
        ) => parts_equal(n1@, n2@) && i1 == i2,
        (ChangePath::Indent(i), ChangePath::Indent(j)) => i == j,
        _ => false,
    }
}

/// Place of the variant of a step: header 0, numbered unit 1, paragraph 2.
pub open spec fn variant_rank(p: ChangePath) -> nat {
    match p {
        ChangePath::Header { .. } => 0,
        ChangePath::Item { .. } => 1,
        ChangePath::Indent(_) => 2,
    }
}

/// Order of steps. Headers come before numbered units, which come before paragraphs.
/// Two headers of different kinds compare by number, and headers of one kind are
/// `Equal`; numbered units compare by kind and, for one kind, by number; paragraphs by
/// their counts.
pub open spec fn path_order(a: ChangePath, b: ChangePath) -> Order {
    match (a, b) {
        (
            ChangePath::Header { number: n1, header_type: h1 },
            ChangePath::Header { number: n2, header_type: h2 },
        ) => if header_order(h1, h2) != Order::Equal {
            parts_order(n1@, n2@)
        } else {
            Order::Equal
        },
        (
            ChangePath::Item { number: n1, item_type: i1 },
            ChangePath::Item { number: n2, item_type: i2 },
        ) => if item_order(i1, i2) == Order::Equal {
            parts_order(n1@, n2@)
        } else {
            item_order(i1, i2)
        },
        (ChangePath::Indent(i), ChangePath::Indent(j)) => if i < j {
            Order::Less
        } else if i > j {
            Order::Greater
        } else {
            Order::Equal
        },
        _ => if variant_rank(a) < variant_rank(b) {
            Order::Less
        } else {
            Order::Greater
        },
    }
}

/// Whether two steps are equal.
pub fn change_path_equal(a: &ChangePath, b: &ChangePath) -> (r: bool)
    ensures
        r == path_equal(*a, *b),
{
    match a {
        ChangePath::Header { number, header_type } => match b {
            ChangePath::Header { number: other_number, header_type: other_header_type } => {
                number_equal(number, other_number) && *header_type == *other_header_type
            },
            _ => false,
        },
        ChangePath::Item { number, item_type } => match b {
            ChangePath::Item { number: other_number, item_type: other_item_type } => {
                number_equal(number, other_number) && *item_type == *other_item_type
            },
            _ => false,
        },
        ChangePath::Indent(i) => match b {
            ChangePath::Indent(other_i) => *i == *other_i,
            _ => false,
        },
    }
}

/// Compares two steps.
pub fn change_path_order(a: &ChangePath, b: &ChangePath) -> (r: Order)
    ensures
        r == path_order(*a, *b),
{
    match a {
        ChangePath::Header { number, header_type } => match b {
            ChangePath::Header { number: other_number, header_type: other_header_type } => {
                let ht = header_type_order(header_type, other_header_type);
                if ht != Order::Equal {
                    number_order(number, other_number)
                } else {
                    ht
                }
            },
            _ => Order::Less,
        },
        ChangePath::Item { number, item_type } => match b {
            ChangePath::Header { .. } => Order::Greater,
            ChangePath::Item { number: other_number, item_type: other_item_type } => {
                let hierarchy_ord = item_type_order(item_type, other_item_type);
                if hierarchy_ord == Order::Equal {
                    number_order(number, other_number)
                } else {
                    hierarchy_ord
                }
            },
            _ => Order::Less,
        },
        ChangePath::Indent(i) => match b {
            ChangePath::Indent(other_i) => {
                if *i < *other_i {
                    Order::Less
                } else if *i > *other_i {
                    Order::Greater
                } else {
                    Order::Equal
                }
            },
            _ => Order::Greater,
        },
    }
}

impl PartialEq for ChangePath {
    fn eq(&self, other: &Self) -> (r: bool) {
        change_path_equal(self, other)
    }
}

impl PartialEqSpecImpl for ChangePath {
    open spec fn obeys_eq_spec() -> bool {
        true
    }

    open spec fn eq_spec(&self, other: &ChangePath) -> bool {
        path_equal(*self, *other)
    }
}

impl PartialOrd for ChangePath {
    fn partial_cmp(&self, other: &Self) -> (r: Option<Ordering>) {
        Some(to_ordering(change_path_order(self, other)))
    }
}

impl PartialOrdSpecImpl for ChangePath {
    open spec fn obeys_partial_cmp_spec() -> bool {
        true
    }

    open spec fn partial_cmp_spec(&self, other: &ChangePath) -> Option<Ordering> {
        Some(ordering_of(path_order(*self, *other)))
    }
}

/// `x` comes strictly before `y`.
pub open spec fn before(x: ChangePath, y: ChangePath) -> bool {
    path_order(x, y) == Order::Less
}

/// The order behaves as a strict weak order on the steps of `s`: it is asymmetric, and
/// not coming before is transitive.
pub open spec fn weak_order_on(s: Seq<ChangePath>) -> bool {
    &&& forall|i: int, j: int|
        0 <= i < s.len() && 0 <= j < s.len() && before(#[trigger] s[i], #[trigger] s[j])
            ==> !before(s[j], s[i])
    &&& forall|i: int, j: int, k: int|
        0 <= i < s.len() && 0 <= j < s.len() && 0 <= k < s.len() && !before(
            #[trigger] s[i],
            #[trigger] s[j],
        ) && !before(s[j], #[trigger] s[k]) ==> !before(s[i], s[k])
}

/// No step of `s` comes before a step placed ahead of it.
pub open spec fn sorted(s: Seq<ChangePath>) -> bool {
    forall|i: int, j: int| 0 <= i < j < s.len() ==> !before(#[trigger] s[j], #[trigger] s[i])
}

/// Sorts steps by inserting each, in turn, after the last step it does not come before.
/// The result holds the same steps; when the order is a strict weak order on them, the
/// result is sorted.
pub fn sort_change_paths(v: &mut Vec<ChangePath>)
    ensures
        final(v)@.to_multiset() == old(v)@.to_multiset(),
        weak_order_on(old(v)@) ==> sorted(final(v)@),
{
    let n = v.len();
    let mut out: Vec<ChangePath> = Vec::new();
    let mut i: usize = 0;
    let ghost src = v@;
    assert(src.subrange(0, 0) =~= Seq::<ChangePath>::empty());
    assert(out@ =~= Seq::<ChangePath>::empty());
    while i < n
        invariant
            v@ == src,
            n == src.len(),
            i <= n,
            out@.to_multiset() == src.subrange(0, i as int).to_multiset(),
            weak_order_on(src) ==> sorted(out@),
            forall|k: int| 0 <= k < out@.len() ==> src.contains(#[trigger] out@[k]),
        decreases n - i,
    {
        let x = v[i].duplicate();
        let mut j = out.len();
        while j > 0 && change_path_order(&x, &out[j - 1]) == Order::Less
            invariant
                j <= out@.len(),
                forall|k: int| j <= k < out@.len() ==> before(x, #[trigger] out@[k]),
            decreases j,
        {
            j = j - 1;
        }
        let ghost before_insert = out@;
        out.insert(j, x);
        proof {
            assert(src.contains(x)) by {
                assert(src[i as int] == x);
            }
            assert(out@ =~= before_insert.insert(j as int, x));
            vstd::seq_lib::to_multiset_insert(before_insert, j as int, x);
            vstd::seq_lib::to_multiset_build(src.subrange(0, i as int), x);
            assert(src.subrange(0, i + 1) =~= src.subrange(0, i as int).push(x));
            assert forall|k: int| 0 <= k < out@.len() implies src.contains(#[trigger] out@[k]) by {
                if k < j {
                    assert(out@[k] == before_insert[k]);
                } else if k > j {
                    assert(out@[k] == before_insert[k - 1]);
                }
            }
            if weak_order_on(src) {
                lemma_insert_keeps_sorted(src, before_insert, j as int, x);
            }
        }
        i = i + 1;
    }
    assert(src.subrange(0, n as int) =~= src);
    *v = out;
}

/// Inserting a step right after the last step it does not come before keeps a sorted
/// sequence sorted, when the order is a strict weak order on the steps involved.
proof fn lemma_insert_keeps_sorted(src: Seq<ChangePath>, s: Seq<ChangePath>, j: int, x: ChangePath)
    requires
        weak_order_on(src),
        src.contains(x),
        forall|k: int| 0 <= k < s.len() ==> src.contains(#[trigger] s[k]),
        sorted(s),
        0 <= j <= s.len(),
        j > 0 ==> !before(x, s[j - 1]),
        forall|k: int| j <= k < s.len() ==> before(x, #[trigger] s[k]),
    ensures
        sorted(s.insert(j, x)),
{
    let t = s.insert(j, x);
    let ix = choose|k: int| 0 <= k < src.len() && src[k] == x;
    assert forall|a: int, b: int| 0 <= a < b < t.len() implies !before(
        #[trigger] t[b],
        #[trigger] t[a],
    ) by {
        if a < j && b < j {
            assert(t[a] == s[a] && t[b] == s[b]);
        } else if a > j && b > j {
            assert(t[a] == s[a - 1] && t[b] == s[b - 1]);
        } else if a < j && b > j {
            assert(t[a] == s[a] && t[b] == s[b - 1]);
        } else if a == j {
            assert(t[b] == s[b - 1]);
            assert(before(x, s[b - 1]));
            let ib = choose|k: int| 0 <= k < src.len() && src[k] == s[b - 1];
            assert(before(src[ix], src[ib]));
        } else {
            assert(b == j);
            assert(t[a] == s[a]);
            let ia = choose|k: int| 0 <= k < src.len() && src[k] == s[a];
            let il = choose|k: int| 0 <= k < src.len() && src[k] == s[j - 1];
            assert(!before(x, s[j - 1]));
            if a == j - 1 {
            } else {
                assert(!before(s[j - 1], s[a]));
                assert(!before(src[ix], src[il]));
                assert(!before(src[il], src[ia]));
            }
        }
    }
}

/// Headers come before numbered units and numbered units before paragraphs: a step of an
/// earlier variant is `Less` than one of a later variant, and the other way `Greater`.
pub proof fn lemma_variants_in_order(a: ChangePath, b: ChangePath)
    requires
        variant_rank(a) < variant_rank(b),
    ensures
        path_order(a, b) == Order::Less,
        path_order(b, a) == Order::Greater,
        !path_equal(a, b),
{
}

} // verus!
