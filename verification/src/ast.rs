//! The description of a packed type: its kind, its fields or variants, and
//! the options set on each of them.
//!
//! A description is plain data. [`crate::definition::find_fault`] tells
//! whether it is one that a layout can be made of, and the layout engine
//! then works on descriptions that are.

use vstd::prelude::*;
use vstd::slice::slice_to_vec;
use vstd::string::StringExecFns;

use crate::primitives::{IntType, Integer};

verus! {

/// A literal: the constant content of a unit type.
///
/// `token` is the literal as it was written, quotes, prefix and suffix
/// included; diagnostics show it.
#[derive(Debug)]
#[allow(inconsistent_fields)]
pub enum Lit {
    /// a string, stored as its UTF-8 bytes
    Str { token: String, value: String },
    /// a byte string, stored as it is
    ByteStr { token: String, value: Vec<u8> },
    /// a single byte
    Byte { token: String, value: u8 },
    /// a character, stored as its UTF-8 bytes
    Char { token: String, value: char },
    /// an integer, stored little-endian in the width that its suffix names
    Int { token: String, value: Integer, suffix: Option<IntType> },
    /// a floating-point number: no layout stores one
    Float { token: String },
    /// a boolean: no layout stores one
    Bool { value: bool },
    /// anything else: no layout stores it
    Verbatim { token: String },
}

/// How the accessor of a field is named.
#[derive(Debug)]
pub enum AccessorType {
    /// by the field's name, or by `_` and the field's position
    Default,
    /// the field has no accessor
    Ignore,
    /// by the name given
    Custom(String),
}

/// One option, as it was set on a type, a field or a variant.
#[derive(Debug)]
pub enum PackedAttribute {
    /// the constant content of a unit type
    Value(Lit),
    /// the integer type that stores the discriminant of an enumeration
    Repr(IntType),
    /// a representation that is no integer type: it sets no option
    Layout(String),
    /// the naming of a field's accessor
    Accessor(AccessorType),
}

/// An attribute, as it is written: a bare name, a name with a list in
/// brackets, or a name with a literal behind `=`.
#[derive(Debug)]
pub enum Meta {
    Path(String),
    List { path: String, nested: Vec<NestedMeta> },
    NameValue { path: String, lit: Lit },
}

/// An entry of the list of an attribute.
#[derive(Debug)]
pub enum NestedMeta {
    Meta(Meta),
    Lit(Lit),
}

/// The options set on a type, a field or a variant.
#[derive(Debug)]
pub struct PackedAttributes {
    pub value: Option<Lit>,
    pub repr: Option<IntType>,
    pub accessor: AccessorType,
}

/// A type without fields, whose content is one constant.
#[derive(Debug)]
pub struct PackedUnit {
    pub ident: String,
}

/// A field of a composite.
#[derive(Debug)]
pub struct PackedField {
    pub attributes: PackedAttributes,
    /// the name of the field, in a composite with named fields
    pub ident: Option<String>,
    pub ty: Type,
}

/// A composite whose fields go by position.
#[derive(Debug)]
pub struct PackedTuple {
    pub ident: String,
    pub fields: Vec<PackedField>,
}

/// A composite whose fields go by name.
#[derive(Debug)]
pub struct PackedStruct {
    pub ident: String,
    pub fields: Vec<PackedField>,
}

/// A variant of an enumeration.
#[derive(Debug)]
pub struct PackedVariant {
    pub attributes: PackedAttributes,
    pub ident: String,
    pub discriminant: Option<Integer>,
}

/// A type that is one of several variants, told apart by a number.
#[derive(Debug)]
pub struct PackedEnum {
    pub ident: String,
    pub variants: Vec<PackedVariant>,
}

/// What a described type is.
#[derive(Debug)]
pub enum Data {
    Unit(PackedUnit),
    Tuple(PackedTuple),
    Struct(PackedStruct),
    Enum(PackedEnum),
}

/// A described type: what it is, and the options set on it.
#[derive(Debug)]
pub struct Container {
    pub attributes: PackedAttributes,
    pub data: Data,
}

/// The type of a field.
#[derive(Debug)]
pub enum Type {
    /// a little-endian integer
    Int(IntType),
    /// an array of that many bytes
    Bytes(usize),
    /// an array of that many items of one type
    Array(Box<Type>, usize),
    /// a described type
    Packed(Box<Container>),
}

impl PackedAttributes {
    /// The options when none is set.
    pub open spec fn spec_none() -> PackedAttributes {
        PackedAttributes { value: None, repr: None, accessor: AccessorType::Default }
    }

    /// The options when none is set.
    pub fn none() -> (attributes: PackedAttributes)
        ensures
            attributes == Self::spec_none(),
    {
        PackedAttributes { value: None, repr: None, accessor: AccessorType::Default }
    }
}

impl PackedUnit {
    /// The name of the type.
    pub fn ident(&self) -> (ident: &String)
        ensures
            ident == self.ident,
    {
        &self.ident
    }
}

impl PackedTuple {
    /// The name of the type.
    pub fn ident(&self) -> (ident: &String)
        ensures
            ident == self.ident,
    {
        &self.ident
    }

    /// Whether the composite has no field, and so is a unit type.
    pub fn equivalent_to_packed_unit(&self) -> (empty: bool)
        ensures
            empty == (self.fields@.len() == 0),
    {
        self.fields.len() == 0
    }

    /// The unit type that a composite without fields is.
    pub fn into_unit(self) -> (unit: PackedUnit)
        requires
            self.fields@.len() == 0,
        ensures
            unit.ident == self.ident,
    {
        PackedUnit { ident: self.ident }
    }
}

impl PackedStruct {
    /// The name of the type.
    pub fn ident(&self) -> (ident: &String)
        ensures
            ident == self.ident,
    {
        &self.ident
    }

    /// Whether the composite has no field, and so is a unit type.
    pub fn equivalent_to_packed_unit(&self) -> (empty: bool)
        ensures
            empty == (self.fields@.len() == 0),
    {
        self.fields.len() == 0
    }

    /// The unit type that a composite without fields is.
    pub fn into_unit(self) -> (unit: PackedUnit)
        requires
            self.fields@.len() == 0,
        ensures
            unit.ident == self.ident,
    {
        PackedUnit { ident: self.ident }
    }
}

impl PackedEnum {
    /// The name of the type.
    pub fn ident(&self) -> (ident: &String)
        ensures
            ident == self.ident,
    {
        &self.ident
    }

    /// Whether the enumeration has no variant, and so no value.
    pub fn equivalent_to_packed_unit(&self) -> (empty: bool)
        ensures
            empty == (self.variants@.len() == 0),
    {
        self.variants.len() == 0
    }
}

impl Lit {
    /// The string literal written as `token`, whose text is `value`.
    pub fn string(token: &str, value: &str) -> (lit: Lit)
        ensures
            lit matches Lit::Str { token: t, value: v } && t@ == token@ && v@ == value@,
    {
        Lit::Str { token: String::from_str(token), value: String::from_str(value) }
    }

    /// The byte string literal written as `token`, whose bytes are `value`.
    pub fn byte_string(token: &str, value: &[u8]) -> (lit: Lit)
        ensures
            lit matches Lit::ByteStr { token: t, value: v } && t@ == token@ && v@ == value@,
    {
        Lit::ByteStr { token: String::from_str(token), value: slice_to_vec(value) }
    }

    /// The byte literal written as `token`, whose value is `value`.
    pub fn byte(token: &str, value: u8) -> (lit: Lit)
        ensures
            lit matches Lit::Byte { token: t, value: v } && t@ == token@ && v == value,
    {
        Lit::Byte { token: String::from_str(token), value }
    }

    /// The character literal written as `token`, whose value is `value`.
    pub fn character(token: &str, value: char) -> (lit: Lit)
        ensures
            lit matches Lit::Char { token: t, value: v } && t@ == token@ && v == value,
    {
        Lit::Char { token: String::from_str(token), value }
    }

    /// The integer literal written as `token`, whose value is `value` and
    /// whose suffix names the type `suffix`.
    pub fn integer(token: &str, value: Integer, suffix: IntType) -> (lit: Lit)
        ensures
            lit matches Lit::Int { token: t, value: v, suffix: s } && t@ == token@ && v == value
                && s == Some(suffix),
    {
        Lit::Int { token: String::from_str(token), value, suffix: Some(suffix) }
    }
}

impl PackedField {
    /// The field named `ident`, of type `ty`, with no option set.
    pub fn named(ident: &str, ty: Type) -> (field: PackedField)
        ensures
            field.attributes == PackedAttributes::spec_none(),
            field.ident is Some && field.ident.unwrap()@ == ident@,
            field.ty == ty,
    {
        PackedField { attributes: PackedAttributes::none(), ident: Some(String::from_str(ident)), ty }
    }

    /// The field without a name, of type `ty`, with no option set.
    pub fn unnamed(ty: Type) -> (field: PackedField)
        ensures
            field.attributes == PackedAttributes::spec_none(),
            field.ident is None,
            field.ty == ty,
    {
        PackedField { attributes: PackedAttributes::none(), ident: None, ty }
    }

    /// The same field, with `accessor` for the naming of its accessor.
    pub fn with_accessor(self, accessor: AccessorType) -> (field: PackedField)
        ensures
            field.attributes.accessor == accessor,
            field.attributes.value == self.attributes.value,
            field.attributes.repr == self.attributes.repr,
            field.ident == self.ident,
            field.ty == self.ty,
    {
        PackedField {
            attributes: PackedAttributes {
                value: self.attributes.value,
                repr: self.attributes.repr,
                accessor,
            },
            ident: self.ident,
            ty: self.ty,
        }
    }
}

impl PackedVariant {
    /// The variant named `ident`, with the discriminant `discriminant`.
    pub fn new(ident: &str, discriminant: Integer) -> (variant: PackedVariant)
        ensures
            variant.attributes == PackedAttributes::spec_none(),
            variant.ident@ == ident@,
            variant.discriminant == Some(discriminant),
    {
        PackedVariant {
            attributes: PackedAttributes::none(),
            ident: String::from_str(ident),
            discriminant: Some(discriminant),
        }
    }
}

impl Type {
    /// The array of `len` items of the type `element`.
    pub fn array(element: Type, len: usize) -> (ty: Type)
        ensures
            ty == Type::Array(Box::new(element), len),
    {
        Type::Array(Box::new(element), len)
    }

    /// The described type `container`, as the type of a field.
    pub fn packed(container: Container) -> (ty: Type)
        ensures
            ty == Type::Packed(Box::new(container)),
    {
        Type::Packed(Box::new(container))
    }
}

impl Container {
    /// The unit type named `ident`, whose content is `value`.
    pub fn unit(ident: &str, value: Lit) -> (container: Container)
        ensures
            container.attributes.value == Some(value),
            container.attributes.repr is None,
            container.attributes.accessor is Default,
            container.data is Unit,
            container.data.spec_ident()@ == ident@,
    {
        Container {
            attributes: PackedAttributes {
                value: Some(value),
                repr: None,
                accessor: AccessorType::Default,
            },
            data: Data::Unit(PackedUnit { ident: String::from_str(ident) }),
        }
    }

    /// The positional composite named `ident`, of the fields `fields`.
    pub fn tuple(ident: &str, fields: Vec<PackedField>) -> (container: Container)
        ensures
            container.attributes == PackedAttributes::spec_none(),
            container.data is Tuple,
            container.data->Tuple_0.fields == fields,
            container.data.spec_ident()@ == ident@,
    {
        Container {
            attributes: PackedAttributes::none(),
            data: Data::Tuple(PackedTuple { ident: String::from_str(ident), fields }),
        }
    }

    /// The named composite named `ident`, of the fields `fields`.
    pub fn structure(ident: &str, fields: Vec<PackedField>) -> (container: Container)
        ensures
            container.attributes == PackedAttributes::spec_none(),
            container.data is Struct,
            container.data->Struct_0.fields == fields,
            container.data.spec_ident()@ == ident@,
    {
        Container {
            attributes: PackedAttributes::none(),
            data: Data::Struct(PackedStruct { ident: String::from_str(ident), fields }),
        }
    }

    /// The enumeration named `ident`, of the variants `variants`, whose
    /// discriminant is stored as a `repr`.
    pub fn enumeration(ident: &str, repr: IntType, variants: Vec<PackedVariant>) -> (container:
        Container)
        ensures
            container.attributes.value is None,
            container.attributes.repr == Some(repr),
            container.attributes.accessor is Default,
            container.data is Enum,
            container.data->Enum_0.variants == variants,
            container.data.spec_ident()@ == ident@,
    {
        Container {
            attributes: PackedAttributes {
                value: None,
                repr: Some(repr),
                accessor: AccessorType::Default,
            },
            data: Data::Enum(PackedEnum { ident: String::from_str(ident), variants }),
        }
    }
}

impl Data {
    /// The name of the type.
    pub open spec fn spec_ident(&self) -> String {
        match self {
            Data::Unit(unit) => unit.ident,
            Data::Tuple(tuple) => tuple.ident,
            Data::Struct(structure) => structure.ident,
            Data::Enum(enumeration) => enumeration.ident,
        }
    }

    /// The name of the type.
    pub fn ident(&self) -> (ident: &String)
        ensures
            ident == self.spec_ident(),
    {
        match self {
            Data::Unit(unit) => unit.ident(),
            Data::Tuple(tuple) => tuple.ident(),
            Data::Struct(structure) => structure.ident(),
            Data::Enum(enumeration) => enumeration.ident(),
        }
    }
}

impl Container {
    /// The name of the type.
    pub fn ident(&self) -> (ident: &String)
        ensures
            ident == self.data.spec_ident(),
    {
        self.data.ident()
    }
}

} // verus!
