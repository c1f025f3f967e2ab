//! Owned packed values.

use vstd::prelude::*;
use vstd::slice::slice_to_vec;
use vstd::view::View as _;

use crate::packed::{holds, Packed};
use crate::value::Value;
use crate::view::View;

verus! {

/// Bytes that hold a value of the layout `T`, and that the packet owns.
///
/// A packet is made by copying a view or by encoding a value. Its bytes are
/// written before it exists, and never after.
#[derive(Debug)]
pub struct Packet<'a, T: Packed> {
    schema: &'a T,
    boxed: Vec<u8>,
}

impl<'a, T: Packed> Packet<'a, T> {
    #[verifier::type_invariant]
    spec fn holds_a_value(self) -> bool {
        holds(self.schema, self.boxed@)
    }

    /// The layout of the packet.
    pub closed spec fn layout(self) -> T {
        *self.schema
    }

    /// The bytes of the packet.
    pub closed spec fn bytes(self) -> Seq<u8> {
        self.boxed@
    }

    pub(crate) fn new(schema: &'a T, boxed: Vec<u8>) -> (packet: Self)
        requires
            holds(schema, boxed@),
        ensures
            packet.layout() == *schema,
            packet.bytes() == boxed@,
    {
        Packet { schema, boxed }
    }

    /// A view of the packet, which borrows its bytes.
    pub fn view(&self) -> (view: View<'_, T>)
        ensures
            view.layout() == self.layout(),
            view.bytes() == self.bytes(),
    {
        proof {
            use_type_invariant(self);
        }
        View::unchecked_from_slice(self.schema, self.boxed.as_slice())
    }

    /// Encodes `value` into a packet of its own: into as many bytes as the
    /// layout takes.
    pub fn pack(schema: &'a T, value: &Value) -> (packet: Self)
        requires
            schema.defined(),
            schema.has_value(value@),
        ensures
            packet.layout() == *schema,
            packet.bytes() == schema.bytes_of(value@),
            packet.bytes().len() == schema.size_of(),
            schema.value_of(packet.bytes()) == value@,
    {
        let mut boxed: Vec<u8> = vec![0u8; schema.size()];
        schema.unchecked_write_to_slice(value, boxed.as_mut_slice());
        proof {
            schema.lemma_encoding(value@);
        }
        Self::new(schema, boxed)
    }

    /// The value that the packet holds.
    #[must_use]
    pub fn unpack(&self) -> (value: Value)
        ensures
            value@ == self.layout().value_of(self.bytes()),
            self.layout().has_value(value@),
    {
        self.view().unpack()
    }

    /// The bytes of the packet.
    pub fn as_slice(&self) -> (slice: &[u8])
        ensures
            slice@ == self.bytes(),
            holds(&self.layout(), slice@),
    {
        proof {
            use_type_invariant(self);
        }
        self.boxed.as_slice()
    }
}

impl<'a, T: Packed> Clone for Packet<'a, T> {
    fn clone(&self) -> (copy: Self)
        ensures
            copy.layout() == self.layout(),
            copy.bytes() == self.bytes(),
    {
        proof {
            use_type_invariant(self);
        }
        Packet::new(self.schema, slice_to_vec(self.boxed.as_slice()))
    }
}

impl<'a, T: Packed> AsRef<[u8]> for Packet<'a, T> {
    fn as_ref(&self) -> (slice: &[u8])
        ensures
            slice@ == self.bytes(),
    {
        self.boxed.as_slice()
    }
}

impl<'a, T: Packed> std::borrow::Borrow<[u8]> for Packet<'a, T> {
    fn borrow(&self) -> (slice: &[u8])
        ensures
            <[u8] as vstd::view::View>::view(slice) == self.bytes(),
    {
        self.as_slice()
    }
}

} // verus!
