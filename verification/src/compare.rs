//! Equality and order of views and of packets.
//!
//! Both go by the bytes alone, whatever the layouts: two views are equal
//! if and only if their bytes are, and they are ordered as their bytes are
//! in the dictionary.

use std::cmp::Ordering;
use vstd::prelude::*;
use vstd::std_specs::cmp::{PartialEqSpecImpl, PartialOrdSpecImpl};

use crate::bytes::{bytes_eq, lemma_tail, tail};
use crate::packed::Packed;

verus! {

/// The order of two byte strings in the dictionary: by the first byte in
/// which they differ, and a string before those that it begins.
pub open spec fn dictionary_order(a: Seq<u8>, b: Seq<u8>) -> Ordering
    decreases a.len(),
{
    if a.len() == 0 {
        if b.len() == 0 {
            Ordering::Equal
        } else {
            Ordering::Less
        }
    } else if b.len() == 0 {
        Ordering::Greater
    } else if a[0] < b[0] {
        Ordering::Less
    } else if a[0] > b[0] {
        Ordering::Greater
    } else {
        dictionary_order(a.drop_first(), b.drop_first())
    }
}

/// Byte strings are equal in the dictionary if and only if they are the
/// same.
pub proof fn lemma_dictionary_equal(a: Seq<u8>, b: Seq<u8>)
    ensures
        dictionary_order(a, b) == Ordering::Equal <==> a == b,
    decreases a.len(),
{
    if a.len() > 0 && b.len() > 0 {
        lemma_dictionary_equal(a.drop_first(), b.drop_first());
        if a[0] == b[0] && a.drop_first() == b.drop_first() {
            assert(a =~= seq![a[0]] + a.drop_first());
            assert(b =~= seq![b[0]] + b.drop_first());
        }
    } else if a.len() == 0 && b.len() == 0 {
        assert(a =~= b);
    }
}

/// Compares two byte strings as the dictionary orders them.
pub fn compare_bytes(a: &[u8], b: &[u8]) -> (order: Ordering)
    ensures
        order == dictionary_order(a@, b@),
{
    let mut i: usize = 0;
    let longest = if a.len() < b.len() {
        b.len()
    } else {
        a.len()
    };
    proof {
        if a@.len() > 0 {
            lemma_tail(a@, 0);
        } else {
            assert(tail(a@, 0) =~= a@);
        }
        if b@.len() > 0 {
            lemma_tail(b@, 0);
        } else {
            assert(tail(b@, 0) =~= b@);
        }
    }
    while i < a.len() && i < b.len()
        invariant
            i <= a@.len() <= longest,
            i <= b@.len() <= longest,
            dictionary_order(a@, b@) == dictionary_order(tail(a@, i), tail(b@, i)),
        decreases a@.len() - i,
    {
        proof {
            lemma_tail(a@, i);
            lemma_tail(b@, i);
        }
        if a[i] < b[i] {
            return Ordering::Less;
        }
        if a[i] > b[i] {
            return Ordering::Greater;
        }
        i = i + 1;
    }
    if i < b.len() {
        Ordering::Less
    } else if i < a.len() {
        Ordering::Greater
    } else {
        Ordering::Equal
    }
}

impl<'a, 'b, T: Packed, U: Packed> PartialEq<crate::view::View<'b, U>> for crate::view::View<'a, T> {
    fn eq(&self, other: &crate::view::View<'b, U>) -> (same: bool) {
        bytes_eq(self.as_slice(), other.as_slice())
    }
}

impl<'a, 'b, T: Packed, U: Packed> PartialEqSpecImpl<crate::view::View<'b, U>> for crate::view::View<'a, T> {
    open spec fn obeys_eq_spec() -> bool {
        true
    }

    open spec fn eq_spec(&self, other: &crate::view::View<'b, U>) -> bool {
        self.bytes() == other.bytes()
    }
}

impl<'a, T: Packed> Eq for crate::view::View<'a, T> {

}

impl<'a, 'b, T: Packed, U: Packed> PartialOrd<crate::view::View<'b, U>> for crate::view::View<'a, T> {
    fn partial_cmp(&self, other: &crate::view::View<'b, U>) -> (order: Option<Ordering>) {
        Some(compare_bytes(self.as_slice(), other.as_slice()))
    }
}

impl<'a, 'b, T: Packed, U: Packed> PartialOrdSpecImpl<crate::view::View<'b, U>> for crate::view::View<'a, T> {
    open spec fn obeys_partial_cmp_spec() -> bool {
        true
    }

    open spec fn partial_cmp_spec(&self, other: &crate::view::View<'b, U>) -> Option<Ordering> {
        Some(dictionary_order(self.bytes(), other.bytes()))
    }
}

impl<'a, 'b, T: Packed, U: Packed> PartialEq<crate::packet::Packet<'b, U>> for crate::packet::Packet<'a, T> {
    fn eq(&self, other: &crate::packet::Packet<'b, U>) -> (same: bool) {
        bytes_eq(self.as_slice(), other.as_slice())
    }
}

impl<'a, 'b, T: Packed, U: Packed> PartialEqSpecImpl<crate::packet::Packet<'b, U>> for crate::packet::Packet<'a, T> {
    open spec fn obeys_eq_spec() -> bool {
        true
    }

    open spec fn eq_spec(&self, other: &crate::packet::Packet<'b, U>) -> bool {
        self.bytes() == other.bytes()
    }
}

impl<'a, T: Packed> Eq for crate::packet::Packet<'a, T> {

}

impl<'a, 'b, T: Packed, U: Packed> PartialOrd<crate::packet::Packet<'b, U>> for crate::packet::Packet<'a, T> {
    fn partial_cmp(&self, other: &crate::packet::Packet<'b, U>) -> (order: Option<Ordering>) {
        Some(compare_bytes(self.as_slice(), other.as_slice()))
    }
}

impl<'a, 'b, T: Packed, U: Packed> PartialOrdSpecImpl<crate::packet::Packet<'b, U>> for crate::packet::Packet<'a, T> {
    open spec fn obeys_partial_cmp_spec() -> bool {
        true
    }

    open spec fn partial_cmp_spec(&self, other: &crate::packet::Packet<'b, U>) -> Option<
        Ordering,
    > {
        Some(dictionary_order(self.bytes(), other.bytes()))
    }
}

/// `<[T] as Hash>::hash`: feeds the items of a slice to a hasher. Nothing
/// is stated of what the hasher makes of them.
pub assume_specification<Item, Hashing>[ <[Item] as std::hash::Hash>::hash ](
    items: &[Item],
    hasher: &mut Hashing,
) where Hashing: std::hash::Hasher, Item: std::hash::Hash
;

impl<'a, T: Packed> std::hash::Hash for crate::view::View<'a, T> {
    fn hash<H: std::hash::Hasher>(&self, state: &mut H) {
        self.as_slice().hash(state)
    }
}

impl<'a, T: Packed> std::hash::Hash for crate::packet::Packet<'a, T> {
    fn hash<H: std::hash::Hasher>(&self, state: &mut H) {
        self.as_slice().hash(state)
    }
}

} // verus!
