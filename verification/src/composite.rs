//! The composite layout engine: sizes, validation, decoding and encoding
//! of described types, field by field.

use vstd::prelude::*;
use vstd::slice::slice_to_vec;
use vstd::string::StringExecFns;

use crate::ast::{Container, Data, PackedField, Type};
use crate::bytes::{copy_at, lemma_splice_trivial, lemma_splice_twice, splice};
use crate::definition::fields_defined;
use crate::error::{Context, Error};
use crate::laws::{
    lemma_fields_encode_size,
    lemma_item_range,
    lemma_items_encode_size,
    lemma_items_prefix,
    lemma_items_values_prefix,
    lemma_type_encode_size,
};
use crate::layout::{
    fields_accept,
    fields_admit,
    fields_decode,
    fields_encode,
    fields_failure,
    fields_size,
    items_accept,
    items_admit,
    items_decode,
    items_encode,
    items_failure,
    lemma_field_range,
    lemma_fields_prefix,
    lemma_fields_values_prefix,
    lemma_take_step,
};
use crate::text::push_decimal;
use crate::value::{lemma_models, models, Value};

verus! {

impl Type {
    /// The name of the type.
    pub fn name(&self) -> (name: String)
        ensures
            name@ == self.spec_name(),
        decreases self,
    {
        match self {
            Type::Int(ty) => String::from_str(ty.name()),
            Type::Bytes(len) => {
                let mut name = String::from_str("[u8; ");
                push_decimal(&mut name, *len as u128);
                name.append("]");
                name
            },
            Type::Array(element, len) => {
                let mut name = String::from_str("[");
                let inner = element.name();
                name.append(inner.as_str());
                name.append("; ");
                push_decimal(&mut name, *len as u128);
                name.append("]");
                name
            },
            Type::Packed(container) => String::from_str(container.ident().as_str()),
        }
    }

    /// The number of bytes of a value of the type.
    pub fn size(&self) -> (size: usize)
        requires
            self.well_defined(),
        ensures
            size == self.spec_size(),
        decreases self,
    {
        match self {
            Type::Int(ty) => ty.width(),
            Type::Bytes(len) => *len,
            Type::Array(element, len) => *len * element.size(),
            Type::Packed(container) => container.size(),
        }
    }

    /// Tells whether `slice` holds a value of the type, and if not, why.
    pub fn check(&self, slice: &[u8]) -> (result: Result<(), Error>)
        requires
            self.well_defined(),
            slice@.len() == self.spec_size(),
        ensures
            self.accepts(slice@) ==> result is Ok,
            !self.accepts(slice@) ==> result is Err && result->Err_0@ == self.failure(slice@),
        decreases self, 0nat,
    {
        match self {
            Type::Array(element, len) => check_items(element, *len, slice),
            Type::Packed(container) => container.check(slice),
            _ => Ok(()),
        }
    }

    /// Decodes the value that `slice` holds.
    pub fn read(&self, slice: &[u8]) -> (value: Value)
        requires
            self.well_defined(),
            slice@.len() == self.spec_size(),
            self.accepts(slice@),
        ensures
            value@ == self.decode(slice@),
        decreases self, 0nat,
    {
        match self {
            Type::Int(ty) => Value::Integer(ty.read(slice)),
            Type::Bytes(len) => Value::Bytes(slice_to_vec(slice)),
            Type::Array(element, len) => Value::Fields(read_items(element, *len, slice)),
            Type::Packed(container) => container.read(slice),
        }
    }

    /// Encodes `value` into `slice` from position `start` on.
    pub fn write_at(&self, value: &Value, slice: &mut [u8], start: usize)
        requires
            self.well_defined(),
            self.admits(value@),
            start + self.spec_size() <= old(slice)@.len(),
        ensures
            final(slice)@ == splice(old(slice)@, start as int, self.encode(value@)),
        decreases self, 0nat,
    {
        match self {
            Type::Int(ty) => match value {
                Value::Integer(number) => ty.write_at(*number, slice, start),
                _ => {},
            },
            Type::Bytes(len) => match value {
                Value::Bytes(bytes) => copy_at(slice, start, bytes.as_slice()),
                _ => {},
            },
            Type::Array(element, len) => match value {
                Value::Fields(values) => {
                    proof {
                        lemma_models(values@);
                    }
                    write_items(element, values, slice, start)
                },
                _ => {},
            },
            Type::Packed(container) => container.write_at(value, slice, start),
        }
    }
}

impl Container {
    /// The number of bytes of a value of the type.
    pub fn size(&self) -> (size: usize)
        requires
            self.well_defined(),
        ensures
            size == self.spec_size(),
        decreases self,
    {
        match &self.data {
            Data::Unit(unit) => match &self.attributes.value {
                Some(lit) => lit.size(),
                None => 0,
            },
            Data::Enum(enumeration) => match self.attributes.repr {
                Some(repr) => repr.width(),
                None => 0,
            },
            Data::Tuple(tuple) => size_of_fields(&tuple.fields),
            Data::Struct(structure) => size_of_fields(&structure.fields),
        }
    }

    /// Tells whether `slice` holds a value of the type, and if not, why.
    ///
    /// The fields of a composite are checked in their order, and the first
    /// that fails ends the check: what is reported is the failure of that
    /// field.
    pub fn check(&self, slice: &[u8]) -> (result: Result<(), Error>)
        requires
            self.well_defined(),
            slice@.len() == self.spec_size(),
        ensures
            self.accepts(slice@) ==> result is Ok,
            !self.accepts(slice@) ==> result is Err && result->Err_0@ == self.failure(slice@),
        decreases self,
    {
        match &self.data {
            Data::Unit(unit) => match &self.attributes.value {
                Some(lit) => lit.check(unit.ident.as_str(), slice),
                None => Ok(()),
            },
            Data::Enum(enumeration) => match self.attributes.repr {
                Some(repr) => enumeration.check(repr, slice),
                None => Ok(()),
            },
            Data::Tuple(tuple) => check_fields(&tuple.fields, slice),
            Data::Struct(structure) => check_fields(&structure.fields, slice),
        }
    }

    /// Decodes the value that `slice` holds.
    pub fn read(&self, slice: &[u8]) -> (value: Value)
        requires
            self.well_defined(),
            slice@.len() == self.spec_size(),
            self.accepts(slice@),
        ensures
            value@ == self.decode(slice@),
        decreases self,
    {
        match &self.data {
            Data::Unit(unit) => Value::Unit,
            Data::Enum(enumeration) => match self.attributes.repr {
                Some(repr) => Value::Variant(enumeration.read(repr, slice)),
                None => Value::Unit,
            },
            Data::Tuple(tuple) => Value::Fields(read_fields(&tuple.fields, slice)),
            Data::Struct(structure) => Value::Fields(read_fields(&structure.fields, slice)),
        }
    }

    /// Encodes `value` into `slice` from position `start` on.
    pub fn write_at(&self, value: &Value, slice: &mut [u8], start: usize)
        requires
            self.well_defined(),
            self.admits(value@),
            start + self.spec_size() <= old(slice)@.len(),
        ensures
            final(slice)@ == splice(old(slice)@, start as int, self.encode(value@)),
        decreases self,
    {
        match &self.data {
            Data::Unit(unit) => match &self.attributes.value {
                Some(lit) => lit.write_at(slice, start),
                None => {},
            },
            Data::Enum(enumeration) => match value {
                Value::Variant(index) => match self.attributes.repr {
                    Some(repr) => enumeration.write_at(repr, *index, slice, start),
                    None => {},
                },
                _ => {},
            },
            Data::Tuple(tuple) => match value {
                Value::Fields(values) => write_fields(&tuple.fields, values, slice, start),
                _ => {},
            },
            Data::Struct(structure) => match value {
                Value::Fields(values) => write_fields(&structure.fields, values, slice, start),
                _ => {},
            },
        }
    }
}

/// Checks the fields in their order, each over its own bytes, up to the
/// first that fails.
fn check_fields(fields: &Vec<PackedField>, slice: &[u8]) -> (result: Result<(), Error>)
    requires
        fields_defined(fields@),
        slice@.len() == fields_size(fields@),
    ensures
        fields_accept(fields@, slice@) ==> result is Ok,
        !fields_accept(fields@, slice@) ==> result is Err && result->Err_0@ == fields_failure(
            fields@,
            slice@,
        ),
    decreases fields@,
{
    let total = slice.len();
    let mut start: usize = 0;
    let mut i: usize = 0;
    while i < fields.len()
        invariant
            i <= fields@.len(),
            fields_defined(fields@),
            slice@.len() == fields_size(fields@),
            slice@.len() == total,
            start == fields_size(fields@.take(i as int)),
            fields_accept(fields@.take(i as int), slice@),
        decreases fields@.len() - i,
    {
        proof {
            lemma_field_range(fields@, i as int);
            lemma_take_step(fields@, i as int);
            lemma_fields_prefix(fields@, slice@, i as int + 1);
        }
        let field = &fields[i];
        let end = start + field.ty.size();
        let part = &slice[start..end];
        match field.ty.check(part) {
            Ok(()) => {},
            Err(cause) => {
                let ty = field.ty.name();
                let context = match &field.ident {
                    Some(name) => Error::invalid_field(ty.as_str(), name.as_str()),
                    None => Error::invalid_tuple(ty.as_str(), i),
                };
                let failed: Result<(), Error> = Err(cause);
                return failed.context("()", context);
            },
        }
        start = end;
        i = i + 1;
    }
    proof {
        assert(fields@.take(i as int) =~= fields@);
    }
    Ok(())
}

/// Decodes the fields in their order, each from its own bytes.
fn read_fields(fields: &Vec<PackedField>, slice: &[u8]) -> (values: Vec<Value>)
    requires
        fields_defined(fields@),
        slice@.len() == fields_size(fields@),
        fields_accept(fields@, slice@),
    ensures
        models(values@) == fields_decode(fields@, slice@),
    decreases fields@,
{
    let total = slice.len();
    let mut values: Vec<Value> = Vec::new();
    let mut start: usize = 0;
    let mut i: usize = 0;
    while i < fields.len()
        invariant
            i <= fields@.len(),
            fields_defined(fields@),
            slice@.len() == fields_size(fields@),
            slice@.len() == total,
            fields_accept(fields@, slice@),
            start == fields_size(fields@.take(i as int)),
            models(values@) == fields_decode(fields@.take(i as int), slice@),
        decreases fields@.len() - i,
    {
        proof {
            lemma_field_range(fields@, i as int);
            lemma_take_step(fields@, i as int);
            lemma_fields_prefix(fields@, slice@, i as int + 1);
        }
        let field = &fields[i];
        let end = start + field.ty.size();
        let part = &slice[start..end];
        let ghost before = values@;
        let value = field.ty.read(part);
        values.push(value);
        proof {
            assert(values@.drop_last() =~= before);
        }
        start = end;
        i = i + 1;
    }
    proof {
        assert(fields@.take(i as int) =~= fields@);
    }
    values
}

impl Type {
    /// Tells whether `value` is a value of the type.
    pub fn admits_value(&self, value: &Value) -> (admitted: bool)
        ensures
            admitted == self.admits(value@),
        decreases self, 0nat,
    {
        match self {
            Type::Int(ty) => match value {
                Value::Integer(number) => ty.fits(*number),
                _ => false,
            },
            Type::Bytes(len) => match value {
                Value::Bytes(bytes) => bytes.len() == *len,
                _ => false,
            },
            Type::Array(element, len) => match value {
                Value::Fields(values) => {
                    proof {
                        lemma_models(values@);
                    }
                    values.len() == *len && items_admit_values(element, values)
                },
                _ => false,
            },
            Type::Packed(container) => container.admits_value(value),
        }
    }
}

impl Container {
    /// Tells whether `value` is a value of the type.
    pub fn admits_value(&self, value: &Value) -> (admitted: bool)
        ensures
            admitted == self.admits(value@),
        decreases self,
    {
        match &self.data {
            Data::Unit(unit) => match value {
                Value::Unit => true,
                _ => false,
            },
            Data::Enum(enumeration) => match value {
                Value::Variant(index) => *index < enumeration.variants.len(),
                _ => false,
            },
            Data::Tuple(tuple) => match value {
                Value::Fields(values) => fields_admit_values(&tuple.fields, values),
                _ => false,
            },
            Data::Struct(structure) => match value {
                Value::Fields(values) => fields_admit_values(&structure.fields, values),
                _ => false,
            },
        }
    }
}

/// Tells whether `values` holds one value for each field, of the field's
/// type.
fn fields_admit_values(fields: &Vec<PackedField>, values: &Vec<Value>) -> (admitted: bool)
    ensures
        admitted == fields_admit(fields@, models(values@)),
    decreases fields@,
{
    proof {
        lemma_models(values@);
    }
    if fields.len() != values.len() {
        return false;
    }
    let mut i: usize = 0;
    proof {
        assert(fields@.take(0) =~= Seq::<PackedField>::empty());
        assert(models(values@).take(0) =~= Seq::<crate::value::ValueView>::empty());
    }
    while i < fields.len()
        invariant
            i <= fields@.len(),
            fields@.len() == values@.len(),
            models(values@).len() == values@.len(),
            fields_admit(fields@.take(i as int), models(values@).take(i as int)),
        decreases fields@.len() - i,
    {
        proof {
            lemma_models(values@);
            lemma_take_step(fields@, i as int);
            lemma_take_step(models(values@), i as int);
        }
        if !fields[i].ty.admits_value(&values[i]) {
            proof {
                if fields_admit(fields@, models(values@)) {
                    lemma_fields_values_prefix(fields@, models(values@), i as int);
                }
            }
            return false;
        }
        i = i + 1;
    }
    proof {
        assert(fields@.take(i as int) =~= fields@);
        assert(models(values@).take(i as int) =~= models(values@));
    }
    true
}

/// Encodes the values of the fields in their order, one after the other.
fn write_fields(fields: &Vec<PackedField>, values: &Vec<Value>, slice: &mut [u8], start: usize)
    requires
        fields_defined(fields@),
        fields_admit(fields@, models(values@)),
        start + fields_size(fields@) <= old(slice)@.len(),
    ensures
        final(slice)@ == splice(
            old(slice)@,
            start as int,
            fields_encode(fields@, models(values@)),
        ),
    decreases fields@,
{
    let total = slice.len();
    let mut offset: usize = start;
    let mut i: usize = 0;
    proof {
        lemma_models(values@);
        lemma_splice_trivial(slice@, start as int, Seq::<u8>::empty());
        assert(fields@.take(0) =~= Seq::<PackedField>::empty());
    }
    while i < fields.len()
        invariant
            i <= fields@.len(),
            fields@.len() == values@.len(),
            fields_defined(fields@),
            fields_admit(fields@, models(values@)),
            slice@.len() == total,
            slice@.len() == old(slice)@.len(),
            start + fields_size(fields@) <= slice@.len(),
            offset == start + fields_size(fields@.take(i as int)),
            slice@ == splice(
                old(slice)@,
                start as int,
                fields_encode(fields@.take(i as int), models(values@).take(i as int)),
            ),
        decreases fields@.len() - i,
    {
        let ghost all = models(values@);
        let ghost done = fields_encode(fields@.take(i as int), all.take(i as int));
        proof {
            lemma_models(values@);
            lemma_field_range(fields@, i as int);
            lemma_fields_values_prefix(fields@, all, i as int);
            lemma_fields_encode_size(fields@.take(i as int), all.take(i as int));
            lemma_type_encode_size(fields@[i as int].ty, all[i as int]);
            lemma_splice_twice(
                old(slice)@,
                start as int,
                done,
                fields@[i as int].ty.encode(all[i as int]),
            );
        }
        let field = &fields[i];
        field.ty.write_at(&values[i], slice, offset);
        offset = offset + field.ty.size();
        i = i + 1;
    }
    proof {
        assert(fields@.take(i as int) =~= fields@);
        assert(models(values@).take(i as int) =~= models(values@));
    }
}

/// The total size of the fields.
fn size_of_fields(fields: &Vec<PackedField>) -> (size: usize)
    requires
        fields_defined(fields@),
        fields_size(fields@) <= usize::MAX,
    ensures
        size == fields_size(fields@),
    decreases fields@,
{
    let mut size: usize = 0;
    let mut i: usize = 0;
    while i < fields.len()
        invariant
            i <= fields@.len(),
            fields_defined(fields@),
            fields_size(fields@) <= usize::MAX,
            size == fields_size(fields@.take(i as int)),
        decreases fields@.len() - i,
    {
        proof {
            lemma_field_range(fields@, i as int);
        }
        let field_size = fields[i].ty.size();
        size = size + field_size;
        i = i + 1;
    }
    proof {
        assert(fields@.take(i as int) =~= fields@);
    }
    size
}

/// Checks the items of an array in their order, each over its own bytes,
/// up to the first that fails.
fn check_items(element: &Type, len: usize, slice: &[u8]) -> (result: Result<(), Error>)
    requires
        element.well_defined(),
        slice@.len() == len * element.spec_size(),
    ensures
        items_accept(*element, len as nat, slice@) ==> result is Ok,
        !items_accept(*element, len as nat, slice@) ==> result is Err && result->Err_0@
            == items_failure(*element, len as nat, slice@),
    decreases *element, 1 + len,
{
    let total = slice.len();
    let size = element.size();
    let mut start: usize = 0;
    let mut i: usize = 0;
    while i < len
        invariant
            i <= len,
            element.well_defined(),
            size == element.spec_size(),
            slice@.len() == len * size,
            slice@.len() == total,
            start == i * size,
            items_accept(*element, i as nat, slice@),
        decreases len - i,
    {
        proof {
            lemma_item_range(size as nat, len as nat, i as int);
            lemma_items_prefix(*element, len as nat, (i + 1) as nat, slice@);
        }
        let end = start + size;
        let part = &slice[start..end];
        match element.check(part) {
            Ok(()) => {},
            Err(cause) => {
                let ty = element.name();
                let failed: Result<(), Error> = Err(cause);
                return failed.context("()", Error::invalid_tuple(ty.as_str(), i));
            },
        }
        start = end;
        i = i + 1;
    }
    Ok(())
}

/// Decodes the items of an array in their order, each from its own bytes.
fn read_items(element: &Type, len: usize, slice: &[u8]) -> (values: Vec<Value>)
    requires
        element.well_defined(),
        slice@.len() == len * element.spec_size(),
        items_accept(*element, len as nat, slice@),
    ensures
        models(values@) == items_decode(*element, len as nat, slice@),
    decreases *element, 1 + len,
{
    let total = slice.len();
    let size = element.size();
    let mut values: Vec<Value> = Vec::new();
    let mut start: usize = 0;
    let mut i: usize = 0;
    while i < len
        invariant
            i <= len,
            element.well_defined(),
            size == element.spec_size(),
            slice@.len() == len * size,
            slice@.len() == total,
            start == i * size,
            items_accept(*element, len as nat, slice@),
            models(values@) == items_decode(*element, i as nat, slice@),
        decreases len - i,
    {
        proof {
            lemma_item_range(size as nat, len as nat, i as int);
            lemma_items_prefix(*element, len as nat, (i + 1) as nat, slice@);
        }
        let end = start + size;
        let part = &slice[start..end];
        let ghost before = values@;
        let value = element.read(part);
        values.push(value);
        proof {
            assert(values@.drop_last() =~= before);
        }
        start = end;
        i = i + 1;
    }
    values
}

/// Tells whether every one of `values` is a value of `element`.
fn items_admit_values(element: &Type, values: &Vec<Value>) -> (admitted: bool)
    ensures
        admitted == items_admit(*element, models(values@)),
    decreases *element, 1 + values@.len(),
{
    let mut i: usize = 0;
    proof {
        lemma_models(values@);
        assert(models(values@).take(0) =~= Seq::<crate::value::ValueView>::empty());
    }
    while i < values.len()
        invariant
            i <= values@.len(),
            models(values@).len() == values@.len(),
            items_admit(*element, models(values@).take(i as int)),
        decreases values@.len() - i,
    {
        proof {
            lemma_models(values@);
            lemma_take_step(models(values@), i as int);
        }
        if !element.admits_value(&values[i]) {
            proof {
                if items_admit(*element, models(values@)) {
                    lemma_items_values_prefix(*element, models(values@), i as int);
                }
            }
            return false;
        }
        i = i + 1;
    }
    proof {
        assert(models(values@).take(i as int) =~= models(values@));
    }
    true
}

/// Encodes the values of the items of an array in their order, one after
/// the other.
fn write_items(element: &Type, values: &Vec<Value>, slice: &mut [u8], start: usize)
    requires
        element.well_defined(),
        items_admit(*element, models(values@)),
        start + values@.len() * element.spec_size() <= old(slice)@.len(),
    ensures
        final(slice)@ == splice(
            old(slice)@,
            start as int,
            items_encode(*element, models(values@)),
        ),
    decreases *element, 1 + values@.len(),
{
    let total = slice.len();
    let size = element.size();
    let mut offset: usize = start;
    let mut i: usize = 0;
    proof {
        lemma_models(values@);
        lemma_splice_trivial(slice@, start as int, Seq::<u8>::empty());
        assert(models(values@).take(0) =~= Seq::<crate::value::ValueView>::empty());
    }
    while i < values.len()
        invariant
            i <= values@.len(),
            element.well_defined(),
            size == element.spec_size(),
            models(values@).len() == values@.len(),
            items_admit(*element, models(values@)),
            slice@.len() == total,
            slice@.len() == old(slice)@.len(),
            start + values@.len() * size <= slice@.len(),
            offset == start + i * size,
            slice@ == splice(
                old(slice)@,
                start as int,
                items_encode(*element, models(values@).take(i as int)),
            ),
        decreases values@.len() - i,
    {
        let ghost all = models(values@);
        let ghost done = items_encode(*element, all.take(i as int));
        proof {
            lemma_models(values@);
            lemma_item_range(size as nat, values@.len(), i as int);
            lemma_items_values_prefix(*element, all, i as int);
            lemma_items_encode_size(*element, all.take(i as int));
            lemma_type_encode_size(*element, all[i as int]);
            lemma_splice_twice(old(slice)@, start as int, done, element.encode(all[i as int]));
        }
        element.write_at(&values[i], slice, offset);
        offset = offset + size;
        i = i + 1;
    }
    proof {
        assert(models(values@).take(i as int) =~= models(values@));
    }
}

} // verus!
