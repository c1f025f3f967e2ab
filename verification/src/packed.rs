//! The contract of a layout: its size, which bytes it accepts, how it
//! decodes them and how it encodes a value.

use vstd::prelude::*;

use crate::ast::{Container, Type};
use crate::bytes::lemma_splice_trivial;
use crate::error::{Error, ErrorView};
use crate::laws::{
    lemma_decode,
    lemma_encode,
    lemma_encode_size,
    lemma_type_decode,
    lemma_type_encode,
    lemma_type_encode_size,
    lemma_type_value,
    lemma_value,
};
use crate::value::{Value, ValueView};

verus! {

/// A layout of fixed size: how values of one type lie in a byte slice.
///
/// The bytes that a layout accepts are the encodings of its values, and
/// they all have the size of the layout. The two proof functions are part of
/// the contract: whoever implements the trait proves them.
pub trait Packed {
    /// Whether the layout is usable. The operations require it.
    spec fn defined(&self) -> bool;

    /// The size of the layout: the number of bytes of every value.
    spec fn size_of(&self) -> nat;

    /// The name of the type, as diagnostics show it.
    spec fn name_of(&self) -> Seq<char>;

    /// Whether `bytes` hold a value.
    spec fn valid(&self, bytes: Seq<u8>) -> bool;

    /// The error of `bytes` that hold no value.
    spec fn rejection(&self, bytes: Seq<u8>) -> ErrorView;

    /// The value that `bytes` hold.
    spec fn value_of(&self, bytes: Seq<u8>) -> ValueView;

    /// Whether `value` is a value of the type.
    spec fn has_value(&self, value: ValueView) -> bool;

    /// The bytes that hold `value`.
    spec fn bytes_of(&self, value: ValueView) -> Seq<u8>;

    /// The encoding of a value has the size of the layout, is valid, and
    /// holds that value.
    proof fn lemma_encoding(&self, value: ValueView)
        requires
            self.defined(),
            self.has_value(value),
        ensures
            self.bytes_of(value).len() == self.size_of(),
            self.valid(self.bytes_of(value)),
            self.value_of(self.bytes_of(value)) == value,
    ;

    /// Valid bytes hold a value of the type, and that value is encoded by
    /// those bytes and no others.
    proof fn lemma_decoding(&self, bytes: Seq<u8>)
        requires
            self.defined(),
            bytes.len() == self.size_of(),
            self.valid(bytes),
        ensures
            self.has_value(self.value_of(bytes)),
            self.bytes_of(self.value_of(bytes)) == bytes,
    ;

    /// The name of the type, as diagnostics show it.
    fn name(&self) -> (name: String)
        ensures
            name@ == self.name_of(),
    ;

    /// The size of the layout: the number of bytes of every value.
    fn size(&self) -> (size: usize)
        requires
            self.defined(),
        ensures
            size == self.size_of(),
    ;

    /// Tells whether `slice`, which has the size of the layout, holds a
    /// value, and if not, why. Only looks at the slice.
    fn check(&self, slice: &[u8]) -> (result: Result<(), Error>)
        requires
            self.defined(),
            slice@.len() == self.size_of(),
        ensures
            self.valid(slice@) ==> result is Ok,
            !self.valid(slice@) ==> result is Err && result->Err_0@ == self.rejection(slice@),
    ;

    /// Decodes the value that `slice` holds. The slice has passed `check`.
    fn unchecked_read_from_slice(&self, slice: &[u8]) -> (value: Value)
        requires
            self.defined(),
            slice@.len() == self.size_of(),
            self.valid(slice@),
        ensures
            value@ == self.value_of(slice@),
    ;

    /// Encodes `value` into `slice`, which has the size of the layout, all
    /// of it.
    fn unchecked_write_to_slice(&self, value: &Value, slice: &mut [u8])
        requires
            self.defined(),
            self.has_value(value@),
            old(slice)@.len() == self.size_of(),
        ensures
            final(slice)@ == self.bytes_of(value@),
    ;
}

/// Whether `bytes` hold a value of a usable layout: they have its size, and
/// the layout accepts them.
pub open spec fn holds<T: Packed>(schema: &T, bytes: Seq<u8>) -> bool {
    &&& schema.defined()
    &&& bytes.len() == schema.size_of()
    &&& schema.valid(bytes)
}

/// Decodes the value that `view` holds. The view was checked when it was
/// made, so nothing is checked here.
pub fn read<'a, T: Packed>(view: crate::view::View<'a, T>) -> (value: Value)
    ensures
        value@ == view.layout().value_of(view.bytes()),
        view.layout().has_value(value@),
{
    view.unpack()
}

impl Packed for Type {
    open spec fn defined(&self) -> bool {
        self.well_defined()
    }

    open spec fn size_of(&self) -> nat {
        self.spec_size()
    }

    open spec fn name_of(&self) -> Seq<char> {
        self.spec_name()
    }

    open spec fn valid(&self, bytes: Seq<u8>) -> bool {
        self.accepts(bytes)
    }

    open spec fn rejection(&self, bytes: Seq<u8>) -> ErrorView {
        self.failure(bytes)
    }

    open spec fn value_of(&self, bytes: Seq<u8>) -> ValueView {
        self.decode(bytes)
    }

    open spec fn has_value(&self, value: ValueView) -> bool {
        self.admits(value)
    }

    open spec fn bytes_of(&self, value: ValueView) -> Seq<u8> {
        self.encode(value)
    }

    proof fn lemma_encoding(&self, value: ValueView) {
        lemma_type_encode_size(*self, value);
        lemma_type_encode(*self, value);
        lemma_type_value(*self, value);
    }

    proof fn lemma_decoding(&self, bytes: Seq<u8>) {
        lemma_type_decode(*self, bytes);
    }

    fn name(&self) -> (name: String) {
        Type::name(self)
    }

    fn size(&self) -> (size: usize) {
        Type::size(self)
    }

    fn check(&self, slice: &[u8]) -> (result: Result<(), Error>) {
        Type::check(self, slice)
    }

    fn unchecked_read_from_slice(&self, slice: &[u8]) -> (value: Value) {
        self.read(slice)
    }

    fn unchecked_write_to_slice(&self, value: &Value, slice: &mut [u8]) {
        proof {
            lemma_type_encode_size(*self, value@);
            lemma_splice_trivial(old(slice)@, 0, self.encode(value@));
        }
        self.write_at(value, slice, 0);
    }
}

impl Packed for Container {
    open spec fn defined(&self) -> bool {
        self.well_defined()
    }

    open spec fn size_of(&self) -> nat {
        self.spec_size()
    }

    open spec fn name_of(&self) -> Seq<char> {
        self.data.spec_ident()@
    }

    open spec fn valid(&self, bytes: Seq<u8>) -> bool {
        self.accepts(bytes)
    }

    open spec fn rejection(&self, bytes: Seq<u8>) -> ErrorView {
        self.failure(bytes)
    }

    open spec fn value_of(&self, bytes: Seq<u8>) -> ValueView {
        self.decode(bytes)
    }

    open spec fn has_value(&self, value: ValueView) -> bool {
        self.admits(value)
    }

    open spec fn bytes_of(&self, value: ValueView) -> Seq<u8> {
        self.encode(value)
    }

    proof fn lemma_encoding(&self, value: ValueView) {
        lemma_encode_size(*self, value);
        lemma_encode(*self, value);
        lemma_value(*self, value);
    }

    proof fn lemma_decoding(&self, bytes: Seq<u8>) {
        lemma_decode(*self, bytes);
    }

    fn name(&self) -> (name: String) {
        self.ident().clone()
    }

    fn size(&self) -> (size: usize) {
        Container::size(self)
    }

    fn check(&self, slice: &[u8]) -> (result: Result<(), Error>) {
        Container::check(self, slice)
    }

    fn unchecked_read_from_slice(&self, slice: &[u8]) -> (value: Value) {
        self.read(slice)
    }

    fn unchecked_write_to_slice(&self, value: &Value, slice: &mut [u8]) {
        proof {
            lemma_encode_size(*self, value@);
            lemma_splice_trivial(old(slice)@, 0, self.encode(value@));
        }
        self.write_at(value, slice, 0);
    }
}

} // verus!
