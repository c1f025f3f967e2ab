//! Borrowed, validated views of packed values.

use vstd::prelude::*;
use vstd::slice::slice_to_vec;
use vstd::view::View as _;

use crate::error::{Error, ErrorView};
use crate::packed::{holds, Packed};
use crate::packet::Packet;
use crate::value::Value;

verus! {

/// A byte slice that holds a value of the layout `T`.
///
/// A view borrows the bytes, and never changes them. It only exists of
/// bytes that have the size of the layout and that the layout accepts, so
/// decoding it cannot fail.
#[derive(Debug)]
pub struct View<'a, T: Packed> {
    schema: &'a T,
    slice: &'a [u8],
}

impl<'a, T: Packed> View<'a, T> {
    #[verifier::type_invariant]
    spec fn holds_a_value(self) -> bool {
        holds(self.schema, self.slice@)
    }

    /// The layout of the view.
    pub closed spec fn layout(self) -> T {
        *self.schema
    }

    /// The bytes of the view.
    pub closed spec fn bytes(self) -> Seq<u8> {
        self.slice@
    }

    fn new(schema: &'a T, slice: &'a [u8]) -> (view: Self)
        requires
            holds(schema, slice@),
        ensures
            view.layout() == *schema,
            view.bytes() == slice@,
    {
        View { schema, slice }
    }

    /// The view of `slice` as a value of `schema`, without any check.
    ///
    /// It is for bytes that are known to hold a value: for the bytes of a
    /// field of a value that was checked as a whole.
    pub fn unchecked_from_slice(schema: &'a T, slice: &'a [u8]) -> (view: Self)
        requires
            holds(schema, slice@),
        ensures
            view.layout() == *schema,
            view.bytes() == slice@,
    {
        Self::new(schema, slice)
    }

    /// The view of `slice` as a value of `schema`, if it holds one.
    ///
    /// A slice that has not the size of the layout is refused for that, and
    /// not looked at. A slice of the right size is refused with the error of
    /// the layout's check if it fails.
    pub fn try_from_slice(schema: &'a T, slice: &'a [u8]) -> (result: Result<Self, Error>)
        requires
            schema.defined(),
        ensures
            slice@.len() != schema.size_of() ==> result is Err && result->Err_0@ == (
            ErrorView::InvalidSize {
                ty: schema.name_of(),
                received: slice@.len(),
                expected: schema.size_of(),
            }),
            slice@.len() == schema.size_of() && !schema.valid(slice@) ==> result is Err
                && result->Err_0@ == schema.rejection(slice@),
            holds(schema, slice@) ==> result is Ok && result->Ok_0.layout() == *schema
                && result->Ok_0.bytes() == slice@,
    {
        let size = schema.size();
        if size != slice.len() {
            let name = schema.name();
            return Err(Error::invalid_size(name.as_str(), slice.len(), size));
        }
        match schema.check(slice) {
            Ok(()) => Ok(Self::new(schema, slice)),
            Err(error) => Err(error),
        }
    }

    /// The value that the view holds.
    #[must_use]
    pub fn unpack(self) -> (value: Value)
        ensures
            value@ == self.layout().value_of(self.bytes()),
            self.layout().has_value(value@),
    {
        proof {
            use_type_invariant(&self);
            self.schema.lemma_decoding(self.slice@);
        }
        self.schema.unchecked_read_from_slice(self.slice)
    }

    /// A copy of the bytes, which owns them.
    #[must_use]
    pub fn to_owned(self) -> (packet: Packet<'a, T>)
        ensures
            packet.layout() == self.layout(),
            packet.bytes() == self.bytes(),
    {
        proof {
            use_type_invariant(&self);
        }
        Packet::new(self.schema, slice_to_vec(self.slice))
    }

    /// The bytes of the view.
    pub fn as_slice(self) -> (slice: &'a [u8])
        ensures
            slice@ == self.bytes(),
            holds(&self.layout(), slice@),
    {
        proof {
            use_type_invariant(&self);
        }
        self.slice
    }

    /// The layout of the view.
    pub fn schema(self) -> (schema: &'a T)
        ensures
            *schema == self.layout(),
            holds(schema, self.bytes()),
    {
        proof {
            use_type_invariant(&self);
        }
        self.schema
    }
}

impl<'a, T: Packed> Clone for View<'a, T> {
    fn clone(&self) -> (copy: Self)
        ensures
            copy == *self,
    {
        *self
    }
}

impl<'a, T: Packed> Copy for View<'a, T> {

}

impl<'a, T: Packed> AsRef<[u8]> for View<'a, T> {
    fn as_ref(&self) -> (slice: &[u8])
        ensures
            slice@ == self.bytes(),
    {
        self.slice
    }
}

} // verus!
