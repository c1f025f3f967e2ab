//! The layout of described types: what their sizes are, which bytes they
//! accept, and which value the bytes stand for.
//!
//! The fields of a composite lie one after the other, in the order of the
//! declaration, without padding. A field starts where the one before it
//! ends, and the first starts at 0. Each field is checked, decoded and
//! encoded by its own type over its own bytes. The items of an array lie in
//! the same way, the item at position `i` at `i` times the size of an item.

use vstd::prelude::*;

use crate::ast::{Container, Data, PackedField, Type};
use crate::error::ErrorView;
use crate::text::decimal;
use crate::value::ValueView;

verus! {

/// The total size of `fields`: where a field after them would start.
pub open spec fn fields_size(fields: Seq<PackedField>) -> nat
    decreases fields,
{
    if fields.len() == 0 {
        0
    } else {
        fields_size(fields.drop_last()) + fields.last().ty.spec_size()
    }
}

/// Where the field at position `index` starts.
pub open spec fn field_start(fields: Seq<PackedField>, index: int) -> nat {
    fields_size(fields.take(index))
}

/// Where the field at position `index` ends.
pub open spec fn field_end(fields: Seq<PackedField>, index: int) -> nat {
    fields_size(fields.take(index + 1))
}

/// The bytes of the field at position `index`.
pub open spec fn field_bytes(fields: Seq<PackedField>, bytes: Seq<u8>, index: int) -> Seq<u8> {
    bytes.subrange(field_start(fields, index) as int, field_end(fields, index) as int)
}

/// Whether every field accepts its bytes.
pub open spec fn fields_accept(fields: Seq<PackedField>, bytes: Seq<u8>) -> bool
    decreases fields,
{
    if fields.len() == 0 {
        true
    } else {
        &&& fields_accept(fields.drop_last(), bytes)
        &&& fields.last().ty.accepts(
            bytes.subrange(fields_size(fields.drop_last()) as int, fields_size(fields) as int),
        )
    }
}

/// What is reported of a field that does not accept its bytes: that the
/// field is not valid, under its name or else its position and with the name
/// of its type, and for the cause the error of the field's own type.
pub open spec fn field_failure(field: PackedField, index: int, cause: ErrorView) -> ErrorView {
    cause.in_context(
        "()"@,
        match field.ident {
            Some(name) => ErrorView::InvalidField { ty: field.ty.spec_name(), field: name@ },
            None => ErrorView::InvalidTuple { ty: field.ty.spec_name(), index: index as nat },
        },
    )
}

/// The error of bytes that some field does not accept: the failure of the
/// first such field.
pub open spec fn fields_failure(fields: Seq<PackedField>, bytes: Seq<u8>) -> ErrorView
    decreases fields,
{
    if fields.len() == 0 {
        ErrorView::Message(Seq::<char>::empty())
    } else if !fields_accept(fields.drop_last(), bytes) {
        fields_failure(fields.drop_last(), bytes)
    } else {
        field_failure(
            fields.last(),
            fields.len() - 1,
            fields.last().ty.failure(
                bytes.subrange(fields_size(fields.drop_last()) as int, fields_size(fields) as int),
            ),
        )
    }
}

/// The values of the fields, each decoded from its own bytes.
pub open spec fn fields_decode(fields: Seq<PackedField>, bytes: Seq<u8>) -> Seq<ValueView>
    decreases fields,
{
    if fields.len() == 0 {
        Seq::<ValueView>::empty()
    } else {
        fields_decode(fields.drop_last(), bytes).push(
            fields.last().ty.decode(
                bytes.subrange(fields_size(fields.drop_last()) as int, fields_size(fields) as int),
            ),
        )
    }
}

/// Whether `values` holds one value for each field, of the field's type.
pub open spec fn fields_admit(fields: Seq<PackedField>, values: Seq<ValueView>) -> bool
    decreases fields,
{
    &&& fields.len() == values.len()
    &&& fields.len() > 0 ==> {
        &&& fields_admit(fields.drop_last(), values.drop_last())
        &&& fields.last().ty.admits(values.last())
    }
}

/// The bytes of the fields, one after the other.
pub open spec fn fields_encode(fields: Seq<PackedField>, values: Seq<ValueView>) -> Seq<u8>
    decreases fields,
{
    if fields.len() == 0 {
        Seq::<u8>::empty()
    } else {
        fields_encode(fields.drop_last(), values.drop_last()) + fields.last().ty.encode(
            values.last(),
        )
    }
}

/// The first `n + 1` fields are the first `n` and the field at position `n`.
pub proof fn lemma_take_step<T>(items: Seq<T>, n: int)
    requires
        0 <= n < items.len(),
    ensures
        items.take(n + 1).drop_last() == items.take(n),
        items.take(n + 1).last() == items[n],
        items.take(n + 1).len() == n + 1,
        items.take(items.len() as int) == items,
{
    assert(items.take(n + 1).drop_last() =~= items.take(n));
    assert(items.take(items.len() as int) =~= items);
}

/// The offsets grow: a field ends where the next one starts, at its start
/// plus its size, and no field ends behind the end of the whole.
pub proof fn lemma_field_range(fields: Seq<PackedField>, index: int)
    requires
        0 <= index < fields.len(),
    ensures
        field_end(fields, index) == field_start(fields, index) + fields[index].ty.spec_size(),
        field_end(fields, index) <= fields_size(fields),
        field_start(fields, 0) == 0,
    decreases fields.len(),
{
    lemma_take_step(fields, index);
    assert(fields.take(0) =~= Seq::<PackedField>::empty());
    if index + 1 < fields.len() {
        lemma_field_range(fields.drop_last(), index);
        assert(fields.drop_last().take(index + 1) =~= fields.take(index + 1));
        assert(fields.drop_last().take(index) =~= fields.take(index));
    } else {
        assert(fields.take(index + 1) =~= fields);
    }
}

/// What holds of all the fields holds of the first `n`: they accept the
/// bytes, and decode to the first `n` values. Where the first `n` do not
/// accept the bytes, neither do all, and the error is that of the first `n`.
pub proof fn lemma_fields_prefix(fields: Seq<PackedField>, bytes: Seq<u8>, n: int)
    requires
        0 <= n <= fields.len(),
    ensures
        fields_accept(fields, bytes) ==> fields_accept(fields.take(n), bytes),
        !fields_accept(fields.take(n), bytes) ==> fields_failure(fields, bytes) == fields_failure(
            fields.take(n),
            bytes,
        ),
        fields_decode(fields.take(n), bytes) == fields_decode(fields, bytes).take(n),
        fields_decode(fields, bytes).len() == fields.len(),
    decreases fields.len(),
{
    if n < fields.len() {
        lemma_fields_prefix(fields.drop_last(), bytes, n);
        assert(fields.drop_last().take(n) =~= fields.take(n));
        assert(fields_decode(fields.drop_last(), bytes).take(n) =~= fields_decode(
            fields,
            bytes,
        ).take(n));
    } else {
        assert(fields.take(n) =~= fields);
        if fields.len() > 0 {
            lemma_fields_prefix(fields.drop_last(), bytes, n - 1);
        }
        assert(fields_decode(fields, bytes).take(n) =~= fields_decode(fields, bytes));
    }
}

/// Values for all the fields hold values for the first `n`, and the bytes
/// of those come first.
pub proof fn lemma_fields_values_prefix(
    fields: Seq<PackedField>,
    values: Seq<ValueView>,
    n: int,
)
    requires
        0 <= n <= fields.len(),
        fields_admit(fields, values),
    ensures
        fields_admit(fields.take(n), values.take(n)),
        n < fields.len() ==> fields[n].ty.admits(values[n]),
        n < fields.len() ==> fields_encode(fields.take(n + 1), values.take(n + 1))
            == fields_encode(fields.take(n), values.take(n)) + fields[n].ty.encode(values[n]),
    decreases fields.len(),
{
    if n < fields.len() {
        lemma_take_step(fields, n);
        lemma_take_step(values, n);
        if n + 1 < fields.len() {
            lemma_fields_values_prefix(fields.drop_last(), values.drop_last(), n);
            assert(fields.drop_last().take(n) =~= fields.take(n));
            assert(values.drop_last().take(n) =~= values.take(n));
            assert(fields.drop_last().take(n + 1) =~= fields.take(n + 1));
            assert(values.drop_last().take(n + 1) =~= values.take(n + 1));
        } else {
            assert(fields.take(n) =~= fields.drop_last());
            assert(values.take(n) =~= values.drop_last());
            assert(fields.take(n + 1) =~= fields);
            assert(values.take(n + 1) =~= values);
        }
    } else {
        assert(fields.take(n) =~= fields);
        assert(values.take(n) =~= values);
    }
}

/// The bytes of the item at position `index` of an array of `element`.
pub open spec fn item_bytes(element: Type, bytes: Seq<u8>, index: int) -> Seq<u8> {
    bytes.subrange(index * element.spec_size(), (index + 1) * element.spec_size())
}

/// Whether each of the first `n` items accepts its bytes.
pub open spec fn items_accept(element: Type, n: nat, bytes: Seq<u8>) -> bool
    decreases element, 1 + n,
{
    if n == 0 {
        true
    } else {
        &&& items_accept(element, (n - 1) as nat, bytes)
        &&& element.accepts(item_bytes(element, bytes, n - 1))
    }
}

/// What is reported of an item that does not accept its bytes: that the
/// entry at its position is not valid, with the name of the type of the
/// items, and for the cause the error of that type.
pub open spec fn item_failure(element: Type, index: int, cause: ErrorView) -> ErrorView {
    cause.in_context(
        "()"@,
        ErrorView::InvalidTuple { ty: element.spec_name(), index: index as nat },
    )
}

/// The error of bytes that one of the first `n` items does not accept: the
/// failure of the first such item.
pub open spec fn items_failure(element: Type, n: nat, bytes: Seq<u8>) -> ErrorView
    decreases element, 1 + n,
{
    if n == 0 {
        ErrorView::Message(Seq::<char>::empty())
    } else if !items_accept(element, (n - 1) as nat, bytes) {
        items_failure(element, (n - 1) as nat, bytes)
    } else {
        item_failure(element, n - 1, element.failure(item_bytes(element, bytes, n - 1)))
    }
}

/// The values of the first `n` items, each decoded from its own bytes.
pub open spec fn items_decode(element: Type, n: nat, bytes: Seq<u8>) -> Seq<ValueView>
    decreases element, 1 + n,
{
    if n == 0 {
        Seq::<ValueView>::empty()
    } else {
        items_decode(element, (n - 1) as nat, bytes).push(
            element.decode(item_bytes(element, bytes, n - 1)),
        )
    }
}

/// Whether every one of `values` is a value of `element`.
pub open spec fn items_admit(element: Type, values: Seq<ValueView>) -> bool
    decreases element, 1 + values.len(),
{
    values.len() > 0 ==> {
        &&& items_admit(element, values.drop_last())
        &&& element.admits(values.last())
    }
}

/// The bytes of the items, one after the other.
pub open spec fn items_encode(element: Type, values: Seq<ValueView>) -> Seq<u8>
    decreases element, 1 + values.len(),
{
    if values.len() == 0 {
        Seq::<u8>::empty()
    } else {
        items_encode(element, values.drop_last()) + element.encode(values.last())
    }
}

impl Type {
    /// The number of bytes of a value of the type.
    pub open spec fn spec_size(&self) -> nat
        decreases self,
    {
        match self {
            Type::Int(ty) => ty.spec_width(),
            Type::Bytes(len) => *len as nat,
            Type::Array(element, len) => (*len as nat) * element.spec_size(),
            Type::Packed(container) => container.spec_size(),
        }
    }

    /// The name of the type.
    pub open spec fn spec_name(&self) -> Seq<char>
        decreases self,
    {
        match self {
            Type::Int(ty) => ty.spec_name(),
            Type::Bytes(len) => "[u8; "@ + decimal(*len as nat) + "]"@,
            Type::Array(element, len) => "["@ + element.spec_name() + "; "@ + decimal(
                *len as nat,
            ) + "]"@,
            Type::Packed(container) => container.data.spec_ident()@,
        }
    }

    /// Whether `bytes` are a value of the type. Every byte string of the
    /// right length is an integer, and an array of bytes. An array of items
    /// is one if every item is.
    pub open spec fn accepts(&self, bytes: Seq<u8>) -> bool
        decreases self, 0nat,
    {
        match self {
            Type::Int(ty) => true,
            Type::Bytes(len) => true,
            Type::Array(element, len) => items_accept(**element, *len as nat, bytes),
            Type::Packed(container) => container.accepts(bytes),
        }
    }

    /// The error of `bytes` that the type does not accept.
    pub open spec fn failure(&self, bytes: Seq<u8>) -> ErrorView
        decreases self, 0nat,
    {
        match self {
            Type::Array(element, len) => items_failure(**element, *len as nat, bytes),
            Type::Packed(container) => container.failure(bytes),
            _ => ErrorView::Message(Seq::<char>::empty()),
        }
    }

    /// The value that `bytes` stand for.
    pub open spec fn decode(&self, bytes: Seq<u8>) -> ValueView
        decreases self, 0nat,
    {
        match self {
            Type::Int(ty) => ValueView::Integer(ty.decode(bytes)),
            Type::Bytes(len) => ValueView::Bytes(bytes),
            Type::Array(element, len) => ValueView::Fields(
                items_decode(**element, *len as nat, bytes),
            ),
            Type::Packed(container) => container.decode(bytes),
        }
    }

    /// Whether `value` is a value of the type.
    pub open spec fn admits(&self, value: ValueView) -> bool
        decreases self, 0nat,
    {
        match self {
            Type::Int(ty) => value is Integer && ty.admits(value->Integer_0),
            Type::Bytes(len) => value is Bytes && value->Bytes_0.len() == *len,
            Type::Array(element, len) => value is Fields && value->Fields_0.len() == *len
                && items_admit(**element, value->Fields_0),
            Type::Packed(container) => container.admits(value),
        }
    }

    /// The bytes that stand for `value`.
    pub open spec fn encode(&self, value: ValueView) -> Seq<u8>
        decreases self, 0nat,
    {
        match self {
            Type::Int(ty) => ty.encode(value->Integer_0),
            Type::Bytes(len) => value->Bytes_0,
            Type::Array(element, len) => items_encode(**element, value->Fields_0),
            Type::Packed(container) => container.encode(value),
        }
    }
}

impl Container {
    /// The number of bytes of a value of the type: the length of the
    /// literal of a unit type, the width of the discriminant of an
    /// enumeration, the sum of the sizes of the fields of a composite.
    pub open spec fn spec_size(&self) -> nat
        decreases self,
    {
        match self.data {
            Data::Unit(unit) => match self.attributes.value {
                Some(lit) => lit.spec_size(),
                None => 0,
            },
            Data::Enum(enumeration) => match self.attributes.repr {
                Some(repr) => repr.spec_width(),
                None => 0,
            },
            Data::Tuple(tuple) => fields_size(tuple.fields@),
            Data::Struct(structure) => fields_size(structure.fields@),
        }
    }

    /// Whether `bytes` are a value of the type: the literal of a unit type,
    /// a declared discriminant of an enumeration, for a composite bytes
    /// that every field accepts.
    pub open spec fn accepts(&self, bytes: Seq<u8>) -> bool
        decreases self,
    {
        match self.data {
            Data::Unit(unit) => bytes == self.attributes.value.unwrap().content(),
            Data::Enum(enumeration) => enumeration.accepts(self.attributes.repr.unwrap(), bytes),
            Data::Tuple(tuple) => fields_accept(tuple.fields@, bytes),
            Data::Struct(structure) => fields_accept(structure.fields@, bytes),
        }
    }

    /// The error of `bytes` that the type does not accept.
    pub open spec fn failure(&self, bytes: Seq<u8>) -> ErrorView
        decreases self,
    {
        match self.data {
            Data::Unit(unit) => self.attributes.value.unwrap().mismatch(unit.ident@, bytes),
            Data::Enum(enumeration) => enumeration.mismatch(self.attributes.repr.unwrap(), bytes),
            Data::Tuple(tuple) => fields_failure(tuple.fields@, bytes),
            Data::Struct(structure) => fields_failure(structure.fields@, bytes),
        }
    }

    /// The value that `bytes` stand for.
    pub open spec fn decode(&self, bytes: Seq<u8>) -> ValueView
        decreases self,
    {
        match self.data {
            Data::Unit(unit) => ValueView::Unit,
            Data::Enum(enumeration) => ValueView::Variant(
                enumeration.decode(self.attributes.repr.unwrap(), bytes),
            ),
            Data::Tuple(tuple) => ValueView::Fields(fields_decode(tuple.fields@, bytes)),
            Data::Struct(structure) => ValueView::Fields(fields_decode(structure.fields@, bytes)),
        }
    }

    /// Whether `value` is a value of the type.
    pub open spec fn admits(&self, value: ValueView) -> bool
        decreases self,
    {
        match self.data {
            Data::Unit(unit) => value is Unit,
            Data::Enum(enumeration) => value is Variant && value->Variant_0
                < enumeration.variants@.len(),
            Data::Tuple(tuple) => value is Fields && fields_admit(tuple.fields@, value->Fields_0),
            Data::Struct(structure) => value is Fields && fields_admit(
                structure.fields@,
                value->Fields_0,
            ),
        }
    }

    /// The bytes that stand for `value`.
    pub open spec fn encode(&self, value: ValueView) -> Seq<u8>
        decreases self,
    {
        match self.data {
            Data::Unit(unit) => self.attributes.value.unwrap().content(),
            Data::Enum(enumeration) => enumeration.encode(
                self.attributes.repr.unwrap(),
                value->Variant_0,
            ),
            Data::Tuple(tuple) => fields_encode(tuple.fields@, value->Fields_0),
            Data::Struct(structure) => fields_encode(structure.fields@, value->Fields_0),
        }
    }
}

} // verus!
