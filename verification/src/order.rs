//! The order of JSON pointers, in which array indexes compare numerically.
use crate::persistent::{segments_get, segments_len};
use crate::pointer::JsonPointer;
use crate::text::{
    compare_text, compare_usize, nat_order, parse_usize, text_order, usize_from_text, Order,
};
use vstd::prelude::*;

verus! {

/// The order of two segments: two numbers compare numerically, `-` comes after every number,
/// and otherwise the texts compare lexicographically.
pub open spec fn segment_order(s1: Seq<char>, s2: Seq<char>) -> Order {
    match (usize_from_text(s1), usize_from_text(s2)) {
        (Some(n1), Some(n2)) => nat_order(n1 as nat, n2 as nat),
        _ => if s2 == seq!['-'] && usize_from_text(s1) is Some {
            Order::Less
        } else if s1 == seq!['-'] && usize_from_text(s2) is Some {
            Order::Greater
        } else {
            text_order(s1, s2)
        },
    }
}

/// The order of two paths: the first pair of segments that differ decides; when one path is a
/// prefix of the other, the shorter comes first.
pub open spec fn pointer_order(p1: Seq<Seq<char>>, p2: Seq<Seq<char>>) -> Order
    decreases p1.len(),
{
    if p1.len() == 0 || p2.len() == 0 {
        nat_order(p1.len(), p2.len())
    } else if segment_order(p1[0], p2[0]) != Order::Equal {
        segment_order(p1[0], p2[0])
    } else {
        pointer_order(p1.drop_first(), p2.drop_first())
    }
}

/// The standard ordering that an order stands for.
pub open spec fn std_ordering(o: Order) -> core::cmp::Ordering {
    match o {
        Order::Less => core::cmp::Ordering::Less,
        Order::Equal => core::cmp::Ordering::Equal,
        Order::Greater => core::cmp::Ordering::Greater,
    }
}

/// The segment is `-`.
fn is_dash_segment(segment: &str) -> (r: bool)
    ensures
        r == (segment@ == seq!['-']),
{
    let cs = crate::text::chars_of(segment);
    if cs.len() == 1 && cs[0] == '-' {
        assert(segment@ =~= seq!['-']);
        true
    } else {
        false
    }
}

/// Compares two segments of pointers.
pub fn compare_segment(s1: &str, s2: &str) -> (r: Order)
    ensures
        r == segment_order(s1@, s2@),
{
    let n1 = parse_usize(s1);
    let n2 = parse_usize(s2);
    match (n1, n2) {
        (Some(a), Some(b)) => compare_usize(a, b),
        _ => {
            if is_dash_segment(s2) && n1.is_some() {
                Order::Less
            } else if is_dash_segment(s1) && n2.is_some() {
                Order::Greater
            } else {
                compare_text(s1, s2)
            }
        },
    }
}

impl JsonPointer {
    /// Compares two pointers; array indexes compare numerically.
    pub fn compare(&self, other: &Self) -> (r: Order)
        ensures
            r == pointer_order(self@, other@),
    {
        let n1 = segments_len(self.path_segments());
        let n2 = segments_len(other.path_segments());
        let mut i: usize = 0;
        assert(self@.skip(0) == self@);
        assert(other@.skip(0) == other@);
        while i < n1 && i < n2
            invariant
                i <= n1,
                i <= n2,
                n1 == self@.len(),
                n2 == other@.len(),
                pointer_order(self@, other@) == pointer_order(
                    self@.skip(i as int),
                    other@.skip(i as int),
                ),
            decreases n1 - i,
        {
            let c = match (segments_get(self.path_segments(), i), segments_get(
                other.path_segments(),
                i,
            )) {
                (Some(a), Some(b)) => compare_segment(a.as_str(), b.as_str()),
                _ => Order::Equal,
            };
            assert(self@.skip(i as int)[0] == self@[i as int]);
            assert(other@.skip(i as int)[0] == other@[i as int]);
            if c != Order::Equal {
                return c;
            }
            assert(self@.skip(i as int).drop_first() == self@.skip(i + 1));
            assert(other@.skip(i as int).drop_first() == other@.skip(i + 1));
            i = i + 1;
        }
        compare_usize(n1 - i, n2 - i)
    }
}

impl PartialOrd for JsonPointer {
    fn partial_cmp(&self, other: &Self) -> (r: Option<core::cmp::Ordering>) {
        match self.compare(other) {
            Order::Less => Some(core::cmp::Ordering::Less),
            Order::Equal => Some(core::cmp::Ordering::Equal),
            Order::Greater => Some(core::cmp::Ordering::Greater),
        }
    }
}

impl vstd::std_specs::cmp::PartialOrdSpecImpl for JsonPointer {
    open spec fn obeys_partial_cmp_spec() -> bool {
        true
    }

    open spec fn partial_cmp_spec(&self, other: &Self) -> Option<core::cmp::Ordering> {
        Some(std_ordering(pointer_order(self@, other@)))
    }
}

} // verus!
