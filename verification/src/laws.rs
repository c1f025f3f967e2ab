//! What holds of every well-defined layout.
//!
//! Encoding writes as many bytes as the layout takes. The bytes that a
//! layout accepts are the encodings of its values: what it decodes from
//! accepted bytes encodes to those bytes again, and what it encodes is
//! accepted and decodes to the value that was encoded. A composite that is
//! refused is refused for its first field that fails, and an enumeration
//! refuses every number that no variant declares.

use vstd::prelude::*;

use crate::ast::{Container, Data, PackedEnum, PackedField, PackedVariant, Type};
use crate::definition::fields_defined;
use crate::enumeration::{lemma_position, lemma_position_of, listed};
use crate::error::ErrorView;
use crate::layout::{
    field_bytes,
    field_failure,
    fields_accept,
    fields_admit,
    fields_decode,
    fields_encode,
    fields_failure,
    fields_size,
    item_bytes,
    item_failure,
    items_accept,
    items_admit,
    items_decode,
    items_encode,
    items_failure,
    lemma_fields_prefix,
    lemma_take_step,
};
use crate::packed::{holds, Packed};
use crate::primitives::{
    lemma_int_decode_admitted,
    lemma_int_decode_encode,
    lemma_int_encode_decode,
    IntType,
};
use crate::text::signed_decimal;
use crate::value::ValueView;

verus! {

/// Encoding a value of a type gives as many bytes as the type takes.
pub proof fn lemma_type_encode_size(ty: Type, value: ValueView)
    requires
        ty.well_defined(),
        ty.admits(value),
    ensures
        ty.encode(value).len() == ty.spec_size(),
    decreases ty, 0nat,
{
    match ty {
        Type::Int(width) => {
            lemma_int_decode_encode(width, value->Integer_0);
        },
        Type::Bytes(len) => {},
        Type::Array(element, len) => {
            lemma_items_encode_size(*element, value->Fields_0);
        },
        Type::Packed(container) => {
            lemma_encode_size(*container, value);
        },
    }
}

/// Encoding values of the items of an array gives as many bytes as that
/// many items take.
pub proof fn lemma_items_encode_size(element: Type, values: Seq<ValueView>)
    requires
        element.well_defined(),
        items_admit(element, values),
    ensures
        items_encode(element, values).len() == values.len() * element.spec_size(),
    decreases element, 1 + values.len(),
{
    let size = element.spec_size();
    if values.len() > 0 {
        let front = values.drop_last();
        lemma_items_encode_size(element, front);
        lemma_type_encode_size(element, values.last());
        assert(front.len() * size + size == values.len() * size) by (nonlinear_arith)
            requires
                front.len() + 1 == values.len(),
        ;
    } else {
        assert(values.len() * size == 0) by (nonlinear_arith)
            requires
                values.len() == 0,
        ;
    }
}

/// Where the items start and end: each behind the one before it, and none
/// behind the end of the whole.
pub proof fn lemma_item_range(size: nat, n: nat, index: int)
    requires
        0 <= index < n,
    ensures
        0 <= index * size,
        (index + 1) * size == index * size + size,
        (index + 1) * size <= n * size,
{
    assert(0 <= index * size && (index + 1) * size == index * size + size && (index + 1) * size
        <= n * size) by (nonlinear_arith)
        requires
            0 <= index < n,
    ;
}

/// What the first `n` items make of bytes depends on the bytes that they
/// take, and on no byte behind them.
pub proof fn lemma_items_local(element: Type, n: nat, a: Seq<u8>, b: Seq<u8>)
    requires
        n * element.spec_size() <= a.len(),
        n * element.spec_size() <= b.len(),
        a.take((n * element.spec_size()) as int) == b.take((n * element.spec_size()) as int),
    ensures
        items_accept(element, n, a) == items_accept(element, n, b),
        items_failure(element, n, a) == items_failure(element, n, b),
        items_decode(element, n, a) == items_decode(element, n, b),
    decreases n,
{
    if n > 0 {
        let size = element.spec_size();
        let all = (n * size) as int;
        let before = ((n - 1) * size) as int;
        lemma_item_range(size, n, n - 1);
        assert(a.take(before) =~= a.take(all).take(before));
        assert(b.take(before) =~= b.take(all).take(before));
        lemma_items_local(element, (n - 1) as nat, a, b);
        assert(a.subrange(before, all) =~= a.take(all).subrange(before, all));
        assert(b.subrange(before, all) =~= b.take(all).subrange(before, all));
    }
}

/// What holds of the first `n` items holds of the first `m` of them. Where
/// the first `m` do not accept the bytes, neither do the first `n`, and the
/// error is that of the first `m`.
pub proof fn lemma_items_prefix(element: Type, n: nat, m: nat, bytes: Seq<u8>)
    requires
        m <= n,
    ensures
        items_accept(element, n, bytes) ==> items_accept(element, m, bytes),
        !items_accept(element, m, bytes) ==> items_failure(element, n, bytes) == items_failure(
            element,
            m,
            bytes,
        ),
        items_decode(element, n, bytes).len() == n,
    decreases n,
{
    if m < n {
        lemma_items_prefix(element, (n - 1) as nat, m, bytes);
    } else if n > 0 {
        lemma_items_prefix(element, (n - 1) as nat, (n - 1) as nat, bytes);
    }
}

/// Values for all the items hold values for the first `n`, and the bytes of
/// those come first.
pub proof fn lemma_items_values_prefix(element: Type, values: Seq<ValueView>, n: int)
    requires
        0 <= n <= values.len(),
        items_admit(element, values),
    ensures
        items_admit(element, values.take(n)),
        n < values.len() ==> element.admits(values[n]),
        n < values.len() ==> items_encode(element, values.take(n + 1)) == items_encode(
            element,
            values.take(n),
        ) + element.encode(values[n]),
    decreases values.len(),
{
    if n < values.len() {
        lemma_take_step(values, n);
        if n + 1 < values.len() {
            lemma_items_values_prefix(element, values.drop_last(), n);
            assert(values.drop_last().take(n) =~= values.take(n));
            assert(values.drop_last().take(n + 1) =~= values.take(n + 1));
        } else {
            assert(values.take(n) =~= values.drop_last());
            assert(values.take(n + 1) =~= values);
        }
    } else {
        assert(values.take(n) =~= values);
    }
}

/// Encoding a value of a described type gives as many bytes as the type
/// takes.
pub proof fn lemma_encode_size(container: Container, value: ValueView)
    requires
        container.well_defined(),
        container.admits(value),
    ensures
        container.encode(value).len() == container.spec_size(),
    decreases container,
{
    match container.data {
        Data::Unit(unit) => {},
        Data::Enum(enumeration) => {
            let repr = container.attributes.repr.unwrap();
            let declared = enumeration.variants@[value->Variant_0 as int];
            lemma_int_decode_encode(repr, declared.discriminant.unwrap());
        },
        Data::Tuple(tuple) => {
            lemma_fields_encode_size(tuple.fields@, value->Fields_0);
        },
        Data::Struct(structure) => {
            lemma_fields_encode_size(structure.fields@, value->Fields_0);
        },
    }
}

/// What the fields make of bytes depends on the bytes that the fields take,
/// and on no byte behind them.
pub proof fn lemma_fields_local(fields: Seq<PackedField>, a: Seq<u8>, b: Seq<u8>)
    requires
        fields_size(fields) <= a.len(),
        fields_size(fields) <= b.len(),
        a.take(fields_size(fields) as int) == b.take(fields_size(fields) as int),
    ensures
        fields_accept(fields, a) == fields_accept(fields, b),
        fields_failure(fields, a) == fields_failure(fields, b),
        fields_decode(fields, a) == fields_decode(fields, b),
    decreases fields.len(),
{
    if fields.len() > 0 {
        let size = fields_size(fields) as int;
        let before = fields_size(fields.drop_last()) as int;
        assert(a.take(before) =~= a.take(size).take(before));
        assert(b.take(before) =~= b.take(size).take(before));
        lemma_fields_local(fields.drop_last(), a, b);
        assert(a.subrange(before, size) =~= a.take(size).subrange(before, size));
        assert(b.subrange(before, size) =~= b.take(size).subrange(before, size));
    }
}

/// The fields accept bytes if and only if each field accepts its own.
pub proof fn lemma_fields_accept_each(fields: Seq<PackedField>, bytes: Seq<u8>)
    ensures
        fields_accept(fields, bytes) <==> forall|i: int|
            0 <= i < fields.len() ==> (#[trigger] fields[i]).ty.accepts(
                field_bytes(fields, bytes, i),
            ),
{
    if fields_accept(fields, bytes) {
        assert forall|i: int| 0 <= i < fields.len() implies (#[trigger] fields[i]).ty.accepts(
            field_bytes(fields, bytes, i),
        ) by {
            lemma_field_accepts(fields, bytes, i);
        }
    }
    if forall|i: int|
        0 <= i < fields.len() ==> (#[trigger] fields[i]).ty.accepts(
            field_bytes(fields, bytes, i),
        ) {
        lemma_each_accepts(fields, bytes);
    }
}

/// Where the fields accept bytes, each field accepts its own.
pub proof fn lemma_field_accepts(fields: Seq<PackedField>, bytes: Seq<u8>, index: int)
    requires
        fields_accept(fields, bytes),
        0 <= index < fields.len(),
    ensures
        fields[index].ty.accepts(field_bytes(fields, bytes, index)),
    decreases fields.len(),
{
    let last = fields.len() - 1;
    let front = fields.drop_last();
    if index == last {
        assert(fields.take(last) =~= front);
        assert(fields.take(last + 1) =~= fields);
    } else {
        lemma_field_accepts(front, bytes, index);
        assert(front.take(index) =~= fields.take(index));
        assert(front.take(index + 1) =~= fields.take(index + 1));
    }
}

/// Where each field accepts its own bytes, the fields accept the bytes.
pub proof fn lemma_each_accepts(fields: Seq<PackedField>, bytes: Seq<u8>)
    requires
        forall|i: int|
            0 <= i < fields.len() ==> (#[trigger] fields[i]).ty.accepts(
                field_bytes(fields, bytes, i),
            ),
    ensures
        fields_accept(fields, bytes),
    decreases fields.len(),
{
    if fields.len() > 0 {
        let last = fields.len() - 1;
        let front = fields.drop_last();
        assert forall|i: int| 0 <= i < front.len() implies (#[trigger] front[i]).ty.accepts(
            field_bytes(front, bytes, i),
        ) by {
            assert(front.take(i) =~= fields.take(i));
            assert(front.take(i + 1) =~= fields.take(i + 1));
            assert(fields[i].ty.accepts(field_bytes(fields, bytes, i)));
        }
        lemma_each_accepts(front, bytes);
        assert(fields.take(last) =~= front);
        assert(fields.take(last + 1) =~= fields);
        assert(fields[last].ty.accepts(field_bytes(fields, bytes, last)));
    }
}

/// The encoding of a value of a type is accepted by the type.
pub proof fn lemma_type_encode(ty: Type, value: ValueView)
    requires
        ty.well_defined(),
        ty.admits(value),
    ensures
        ty.accepts(ty.encode(value)),
    decreases ty, 0nat,
{
    match ty {
        Type::Array(element, len) => {
            lemma_items_encode(*element, value->Fields_0);
        },
        Type::Packed(container) => {
            lemma_encode(*container, value);
        },
        _ => {},
    }
}

/// The encodings of values of the items, one after the other, are accepted
/// as that many items.
pub proof fn lemma_items_encode(element: Type, values: Seq<ValueView>)
    requires
        element.well_defined(),
        items_admit(element, values),
    ensures
        items_accept(element, values.len(), items_encode(element, values)),
    decreases element, 1 + values.len(),
{
    if values.len() > 0 {
        let size = element.spec_size();
        let front = values.drop_last();
        let head = items_encode(element, front);
        let tail = element.encode(values.last());
        lemma_items_encode(element, front);
        lemma_items_encode_size(element, front);
        lemma_type_encode(element, values.last());
        lemma_type_encode_size(element, values.last());
        lemma_item_range(size, values.len(), values.len() - 1);
        assert((head + tail).take(head.len() as int) =~= head);
        assert(head.take(head.len() as int) =~= head);
        lemma_items_local(element, front.len(), head, head + tail);
        assert((head + tail).subrange(head.len() as int, (head + tail).len() as int) =~= tail);
    }
}

/// The encoding of a value of a described type is accepted by the type.
pub proof fn lemma_encode(container: Container, value: ValueView)
    requires
        container.well_defined(),
        container.admits(value),
    ensures
        container.accepts(container.encode(value)),
    decreases container,
{
    match container.data {
        Data::Unit(unit) => {},
        Data::Enum(enumeration) => {
            let repr = container.attributes.repr.unwrap();
            let index = value->Variant_0 as int;
            let declared = enumeration.variants@[index].discriminant.unwrap();
            lemma_int_decode_encode(repr, declared);
            assert(enumeration.variants@[index].discriminant == Some(declared));
        },
        Data::Tuple(tuple) => {
            lemma_fields_encode(tuple.fields@, value->Fields_0);
        },
        Data::Struct(structure) => {
            lemma_fields_encode(structure.fields@, value->Fields_0);
        },
    }
}

/// The encodings of values of the fields, one after the other, are
/// accepted by the fields.
pub proof fn lemma_fields_encode(fields: Seq<PackedField>, values: Seq<ValueView>)
    requires
        fields_defined(fields),
        fields_admit(fields, values),
    ensures
        fields_accept(fields, fields_encode(fields, values)),
    decreases fields,
{
    if fields.len() > 0 {
        let front = fields.drop_last();
        let head = fields_encode(front, values.drop_last());
        let tail = fields.last().ty.encode(values.last());
        lemma_fields_encode(front, values.drop_last());
        lemma_fields_encode_size(front, values.drop_last());
        lemma_type_encode(fields.last().ty, values.last());
        lemma_type_encode_size(fields.last().ty, values.last());
        assert((head + tail).take(head.len() as int) =~= head);
        assert(head.take(head.len() as int) =~= head);
        lemma_fields_local(front, head, head + tail);
        assert((head + tail).subrange(head.len() as int, (head + tail).len() as int) =~= tail);
    }
}

/// Bytes that a type accepts hold a value of the type, and the value is
/// encoded by those bytes.
pub proof fn lemma_type_decode(ty: Type, bytes: Seq<u8>)
    requires
        ty.well_defined(),
        bytes.len() == ty.spec_size(),
        ty.accepts(bytes),
    ensures
        ty.admits(ty.decode(bytes)),
        ty.encode(ty.decode(bytes)) == bytes,
    decreases ty, 0nat,
{
    match ty {
        Type::Int(width) => {
            lemma_int_decode_admitted(width, bytes);
            lemma_int_encode_decode(width, bytes);
        },
        Type::Bytes(len) => {},
        Type::Array(element, len) => {
            lemma_items_decode(*element, len as nat, bytes);
            assert(bytes.take(bytes.len() as int) =~= bytes);
        },
        Type::Packed(container) => {
            lemma_decode(*container, bytes);
        },
    }
}

/// Bytes that the first `n` items accept hold a value for each of them, and
/// the values are encoded by the bytes that the items take.
pub proof fn lemma_items_decode(element: Type, n: nat, bytes: Seq<u8>)
    requires
        element.well_defined(),
        n * element.spec_size() <= bytes.len(),
        items_accept(element, n, bytes),
    ensures
        items_decode(element, n, bytes).len() == n,
        items_admit(element, items_decode(element, n, bytes)),
        items_encode(element, items_decode(element, n, bytes)) == bytes.take(
            (n * element.spec_size()) as int,
        ),
    decreases element, 1 + n,
{
    let size = element.spec_size();
    if n > 0 {
        let before = ((n - 1) * size) as int;
        let all = (n * size) as int;
        let values = items_decode(element, n, bytes);
        lemma_item_range(size, n, n - 1);
        lemma_items_decode(element, (n - 1) as nat, bytes);
        lemma_type_decode(element, bytes.subrange(before, all));
        assert(values.drop_last() =~= items_decode(element, (n - 1) as nat, bytes));
        assert(bytes.take(before) + bytes.subrange(before, all) =~= bytes.take(all));
    } else {
        assert(n * size == 0) by (nonlinear_arith)
            requires
                n == 0,
        ;
        assert(bytes.take(0) =~= Seq::<u8>::empty());
    }
}

/// Bytes that a described type accepts hold a value of the type, and the
/// value is encoded by those bytes.
pub proof fn lemma_decode(container: Container, bytes: Seq<u8>)
    requires
        container.well_defined(),
        bytes.len() == container.spec_size(),
        container.accepts(bytes),
    ensures
        container.admits(container.decode(bytes)),
        container.encode(container.decode(bytes)) == bytes,
    decreases container,
{
    match container.data {
        Data::Unit(unit) => {},
        Data::Enum(enumeration) => {
            let repr = container.attributes.repr.unwrap();
            lemma_position(enumeration.variants@, repr.decode(bytes), 0);
            lemma_int_encode_decode(repr, bytes);
        },
        Data::Tuple(tuple) => {
            lemma_fields_decode(tuple.fields@, bytes);
            assert(bytes.take(bytes.len() as int) =~= bytes);
        },
        Data::Struct(structure) => {
            lemma_fields_decode(structure.fields@, bytes);
            assert(bytes.take(bytes.len() as int) =~= bytes);
        },
    }
}

/// Bytes that the fields accept hold a value for each field, and the values
/// are encoded by the bytes that the fields take.
pub proof fn lemma_fields_decode(fields: Seq<PackedField>, bytes: Seq<u8>)
    requires
        fields_defined(fields),
        fields_size(fields) <= bytes.len(),
        fields_accept(fields, bytes),
    ensures
        fields_admit(fields, fields_decode(fields, bytes)),
        fields_encode(fields, fields_decode(fields, bytes)) == bytes.take(
            fields_size(fields) as int,
        ),
    decreases fields,
{
    if fields.len() > 0 {
        let front = fields.drop_last();
        let before = fields_size(front) as int;
        let size = fields_size(fields) as int;
        let values = fields_decode(fields, bytes);
        lemma_fields_decode(front, bytes);
        lemma_type_decode(fields.last().ty, bytes.subrange(before, size));
        assert(values.drop_last() =~= fields_decode(front, bytes));
        assert(bytes.take(before) + bytes.subrange(before, size) =~= bytes.take(size));
    } else {
        assert(bytes.take(0) =~= Seq::<u8>::empty());
    }
}

/// Encoding values of the fields gives as many bytes as the fields take.
pub proof fn lemma_fields_encode_size(fields: Seq<PackedField>, values: Seq<ValueView>)
    requires
        fields_defined(fields),
        fields_admit(fields, values),
    ensures
        fields_encode(fields, values).len() == fields_size(fields),
    decreases fields,
{
    if fields.len() > 0 {
        lemma_fields_encode_size(fields.drop_last(), values.drop_last());
        lemma_type_encode_size(fields.last().ty, values.last());
    }
}

/// Decoding the encoding of a value of a type gives the value.
pub proof fn lemma_type_value(ty: Type, value: ValueView)
    requires
        ty.well_defined(),
        ty.admits(value),
    ensures
        ty.decode(ty.encode(value)) == value,
    decreases ty, 0nat,
{
    match ty {
        Type::Int(width) => {
            lemma_int_decode_encode(width, value->Integer_0);
        },
        Type::Bytes(len) => {},
        Type::Array(element, len) => {
            lemma_items_value(*element, value->Fields_0);
        },
        Type::Packed(container) => {
            lemma_value(*container, value);
        },
    }
}

/// Decoding the encodings of values of the items gives the values.
pub proof fn lemma_items_value(element: Type, values: Seq<ValueView>)
    requires
        element.well_defined(),
        items_admit(element, values),
    ensures
        items_decode(element, values.len(), items_encode(element, values)) == values,
    decreases element, 1 + values.len(),
{
    if values.len() > 0 {
        let size = element.spec_size();
        let front = values.drop_last();
        let head = items_encode(element, front);
        let tail = element.encode(values.last());
        lemma_items_value(element, front);
        lemma_items_encode_size(element, front);
        lemma_type_value(element, values.last());
        lemma_type_encode_size(element, values.last());
        lemma_item_range(size, values.len(), values.len() - 1);
        assert((head + tail).take(head.len() as int) =~= head);
        assert(head.take(head.len() as int) =~= head);
        lemma_items_local(element, front.len(), head, head + tail);
        assert((head + tail).subrange(head.len() as int, (head + tail).len() as int) =~= tail);
        assert(front.push(values.last()) =~= values);
    } else {
        assert(items_decode(element, 0, items_encode(element, values)) =~= values);
    }
}

/// Decoding the encoding of a value of a described type gives the value.
pub proof fn lemma_value(container: Container, value: ValueView)
    requires
        container.well_defined(),
        container.admits(value),
    ensures
        container.decode(container.encode(value)) == value,
    decreases container,
{
    match container.data {
        Data::Unit(unit) => {},
        Data::Enum(enumeration) => {
            let repr = container.attributes.repr.unwrap();
            let index = value->Variant_0 as int;
            let declared = enumeration.variants@[index].discriminant.unwrap();
            lemma_int_decode_encode(repr, declared);
            lemma_position_of(enumeration, index);
        },
        Data::Tuple(tuple) => {
            lemma_fields_value(tuple.fields@, value->Fields_0);
        },
        Data::Struct(structure) => {
            lemma_fields_value(structure.fields@, value->Fields_0);
        },
    }
}

/// Decoding the encodings of values of the fields gives the values.
pub proof fn lemma_fields_value(fields: Seq<PackedField>, values: Seq<ValueView>)
    requires
        fields_defined(fields),
        fields_admit(fields, values),
    ensures
        fields_decode(fields, fields_encode(fields, values)) == values,
    decreases fields,
{
    if fields.len() > 0 {
        let front = fields.drop_last();
        let head = fields_encode(front, values.drop_last());
        let tail = fields.last().ty.encode(values.last());
        lemma_fields_value(front, values.drop_last());
        lemma_fields_encode_size(front, values.drop_last());
        lemma_type_value(fields.last().ty, values.last());
        lemma_type_encode_size(fields.last().ty, values.last());
        assert((head + tail).take(head.len() as int) =~= head);
        assert(head.take(head.len() as int) =~= head);
        lemma_fields_local(front, head, head + tail);
        assert((head + tail).subrange(head.len() as int, (head + tail).len() as int) =~= tail);
        assert(values.drop_last().push(values.last()) =~= values);
    } else {
        assert(fields_decode(fields, fields_encode(fields, values)) =~= values);
    }
}

/// Round trip, from the value: decoding the encoding of a value of a layout
/// gives the value.
pub proof fn lemma_round_trip_value<T: Packed>(schema: T, value: ValueView)
    requires
        schema.defined(),
        schema.has_value(value),
    ensures
        holds(&schema, schema.bytes_of(value)),
        schema.value_of(schema.bytes_of(value)) == value,
{
    schema.lemma_encoding(value);
}

/// Round trip: a value that a layout decodes from bytes that it accepts is
/// the value that it decodes from the encoding of that value.
pub proof fn lemma_round_trip<T: Packed>(schema: T, bytes: Seq<u8>)
    requires
        holds(&schema, bytes),
    ensures
        schema.has_value(schema.value_of(bytes)),
        schema.value_of(schema.bytes_of(schema.value_of(bytes))) == schema.value_of(bytes),
{
    schema.lemma_decoding(bytes);
}

/// Round trip, from the bytes: encoding the value that accepted bytes hold
/// gives those bytes again.
pub proof fn lemma_round_trip_bytes<T: Packed>(schema: T, bytes: Seq<u8>)
    requires
        holds(&schema, bytes),
    ensures
        schema.bytes_of(schema.value_of(bytes)) == bytes,
{
    schema.lemma_decoding(bytes);
}

/// Size: the encoding of a value takes exactly the size of the layout.
pub proof fn lemma_encoded_size<T: Packed>(schema: T, value: ValueView)
    requires
        schema.defined(),
        schema.has_value(value),
    ensures
        schema.bytes_of(value).len() == schema.size_of(),
{
    schema.lemma_encoding(value);
}

/// A layout accepts exactly the byte strings that encode one of its values.
pub proof fn lemma_valid_iff_encoding<T: Packed>(schema: T, bytes: Seq<u8>)
    requires
        schema.defined(),
        bytes.len() == schema.size_of(),
    ensures
        schema.valid(bytes) <==> exists|value: ValueView|
            schema.has_value(value) && #[trigger] schema.bytes_of(value) == bytes,
{
    if schema.valid(bytes) {
        schema.lemma_decoding(bytes);
        assert(schema.has_value(schema.value_of(bytes)) && schema.bytes_of(schema.value_of(bytes))
            == bytes);
    }
    if exists|value: ValueView|
        schema.has_value(value) && #[trigger] schema.bytes_of(value) == bytes {
        let value = choose|value: ValueView|
            schema.has_value(value) && #[trigger] schema.bytes_of(value) == bytes;
        schema.lemma_encoding(value);
    }
}

/// Fail fast: where a field does not accept its bytes and every field
/// before it does, the composite is refused with the failure of that field,
/// whatever the fields behind it hold.
pub proof fn lemma_first_failure(fields: Seq<PackedField>, bytes: Seq<u8>, index: int)
    requires
        0 <= index < fields.len(),
        forall|j: int|
            0 <= j < index ==> (#[trigger] fields[j]).ty.accepts(field_bytes(fields, bytes, j)),
        !fields[index].ty.accepts(field_bytes(fields, bytes, index)),
    ensures
        !fields_accept(fields, bytes),
        fields_failure(fields, bytes) == field_failure(
            fields[index],
            index,
            fields[index].ty.failure(field_bytes(fields, bytes, index)),
        ),
{
    let front = fields.take(index);
    let upto = fields.take(index + 1);
    lemma_take_step(fields, index);
    lemma_fields_accept_each(front, bytes);
    assert forall|j: int| 0 <= j < front.len() implies (#[trigger] front[j]).ty.accepts(
        field_bytes(front, bytes, j),
    ) by {
        assert(front.take(j) =~= fields.take(j));
        assert(front.take(j + 1) =~= fields.take(j + 1));
        assert(front[j] == fields[j]);
    }
    assert(fields_accept(front, bytes));
    assert(upto.drop_last() == front);
    assert(!fields_accept(upto, bytes));
    lemma_fields_prefix(fields, bytes, index + 1);
}

/// Fail fast, in an array: where an item does not accept its bytes and every
/// item before it does, the array is refused with the failure of that item.
pub proof fn lemma_first_item_failure(element: Type, len: nat, bytes: Seq<u8>, index: int)
    requires
        0 <= index < len,
        forall|j: int| 0 <= j < index ==> element.accepts(#[trigger] item_bytes(element, bytes, j)),
        !element.accepts(item_bytes(element, bytes, index)),
    ensures
        !items_accept(element, len, bytes),
        items_failure(element, len, bytes) == item_failure(
            element,
            index,
            element.failure(item_bytes(element, bytes, index)),
        ),
{
    lemma_items_accept_each(element, index as nat, bytes);
    lemma_items_prefix(element, len, (index + 1) as nat, bytes);
}

/// Where each of the first `n` items accepts its own bytes, the first `n`
/// items accept the bytes.
pub proof fn lemma_items_accept_each(element: Type, n: nat, bytes: Seq<u8>)
    requires
        forall|j: int| 0 <= j < n ==> element.accepts(#[trigger] item_bytes(element, bytes, j)),
    ensures
        items_accept(element, n, bytes),
    decreases n,
{
    if n > 0 {
        lemma_items_accept_each(element, (n - 1) as nat, bytes);
        assert(element.accepts(item_bytes(element, bytes, n - 1)));
    }
}

/// The failure of a field keeps its cause: what is reported of the field has
/// the error of the field's own type for its cause, unaltered, and behind it
/// the causes of that error. So the causes of a failure lead from the
/// outermost composite to what failed.
pub proof fn lemma_failure_keeps_cause(field: PackedField, index: int, cause: ErrorView)
    ensures
        field_failure(field, index, cause).source() == Some(ErrorView::Custom(Box::new(cause))),
        field_failure(field, index, cause).causes() == seq![ErrorView::Custom(Box::new(cause))]
            + cause.causes(),
        field_failure(field, index, cause).causes().len() == 1 + cause.causes().len(),
{
    reveal_with_fuel(ErrorView::causes, 3);
    reveal_with_fuel(ErrorView::source, 3);
}

/// Fail fast, for two fields: where neither field accepts its bytes, the
/// error is that of the first.
pub proof fn lemma_first_of_two_failures(first: PackedField, second: PackedField, bytes: Seq<u8>)
    requires
        !first.ty.accepts(bytes.subrange(0, first.ty.spec_size() as int)),
    ensures
        fields_failure(seq![first, second], bytes) == field_failure(
            first,
            0,
            first.ty.failure(bytes.subrange(0, first.ty.spec_size() as int)),
        ),
{
    let fields = seq![first, second];
    assert(fields.take(0) =~= Seq::<PackedField>::empty());
    assert(fields.take(1) =~= seq![first]);
    assert(seq![first].drop_last() =~= Seq::<PackedField>::empty());
    reveal_with_fuel(fields_size, 3);
    lemma_first_failure(fields, bytes, 0);
}

/// Completeness of the discriminants: bytes that hold a number that no
/// variant declares are refused, as an invalid discriminant, with that
/// number and the list of the declared ones.
pub proof fn lemma_undeclared_is_refused(enumeration: PackedEnum, repr: IntType, bytes: Seq<u8>)
    requires
        !enumeration.declares(repr.decode(bytes)),
    ensures
        !enumeration.accepts(repr, bytes),
        enumeration.mismatch(repr, bytes) == (ErrorView::InvalidDiscriminant {
            ty: enumeration.ident@,
            options: enumeration.options(),
            found: repr.decode(bytes).as_int(),
        }),
{
}

/// The list of the options holds every declared discriminant, in decimal.
pub proof fn lemma_options_hold_each(enumeration: PackedEnum, index: int)
    requires
        0 <= index < enumeration.variants@.len(),
    ensures
        ({
            let item = signed_decimal(enumeration.variants@[index].discriminant.unwrap().as_int());
            exists|at: int|
                0 <= at && at + item.len() <= enumeration.options().len()
                    && #[trigger] enumeration.options().subrange(at, at + item.len()) == item
        }),
{
    let variants = enumeration.variants@;
    let item = signed_decimal(variants[index].discriminant.unwrap().as_int());
    lemma_listed_holds_each(variants, variants.len(), index);
    let at = choose|at: int|
        0 <= at && at + item.len() <= listed(variants, variants.len()).len() && #[trigger] listed(
            variants,
            variants.len(),
        ).subrange(at, at + item.len()) == item;
    assert(enumeration.options().subrange(at, at + item.len()) == item);
}

/// The list of the first `n` discriminants holds each of them.
proof fn lemma_listed_holds_each(variants: Seq<PackedVariant>, n: nat, index: int)
    requires
        0 <= index < n,
    ensures
        ({
            let item = signed_decimal(variants[index].discriminant.unwrap().as_int());
            exists|at: int|
                0 <= at && at + item.len() <= listed(variants, n).len() && #[trigger] listed(
                    variants,
                    n,
                ).subrange(at, at + item.len()) == item
        }),
    decreases n,
{
    let item = signed_decimal(variants[index].discriminant.unwrap().as_int());
    let all = listed(variants, n);
    if n == 1 {
        let at: int = 0;
        assert(all.subrange(at, at + item.len()) =~= item);
    } else {
        let front = listed(variants, (n - 1) as nat) + ", "@;
        let last = signed_decimal(variants[n - 1].discriminant.unwrap().as_int());
        assert(all =~= front + last);
        if index == n - 1 {
            let at: int = front.len() as int;
            assert(all.subrange(at, at + item.len()) =~= item);
        } else {
            lemma_listed_holds_each(variants, (n - 1) as nat, index);
            let before = listed(variants, (n - 1) as nat);
            let at = choose|at: int|
                0 <= at && at + item.len() <= before.len() && #[trigger] before.subrange(
                    at,
                    at + item.len(),
                ) == item;
            assert(all.subrange(at, at + item.len()) =~= before.subrange(at, at + item.len()));
        }
    }
}

} // verus!
