//! Which descriptions define a layout.
//!
//! A description is looked at in two steps. [`check`] holds it to the rules
//! on options and declarations: literals belong to unit types only, and a
//! unit type has one; accessors belong to fields only; every variant of an
//! enumeration declares a discriminant, and the enumeration says how wide
//! they are. [`check_layout`] then looks at what the rules leave open: the
//! literal is one that bytes can store, the types of the fields and of the
//! items of arrays are themselves well defined, an enumeration has a
//! variant, its discriminants are of its width and each of its own, and the
//! size of the whole is a `usize`. A description that passes both is well
//! defined; [`find_fault`] does both.

use vstd::prelude::*;
use vstd::string::{StrSliceExecFns, StringExecFns};

use crate::ast::{
    AccessorType,
    Container,
    Data,
    Lit,
    PackedAttribute,
    PackedAttributes,
    PackedEnum,
    PackedField,
    PackedStruct,
    PackedTuple,
    PackedUnit,
    PackedVariant,
    Type,
};
use crate::layout::{fields_size, lemma_field_range, lemma_take_step};
use crate::primitives::{IntType, Integer};

verus! {

/// What is wrong with a description.
#[derive(Debug, Clone, Copy, PartialEq, Eq, Structural)]
pub enum Fault {
    /// a unit type names an accessor
    UnitAccessor,
    /// a unit type fixes no literal
    MissingValue,
    /// the literal is a floating-point number
    FloatValue,
    /// the literal is a boolean
    BoolValue,
    /// the literal is of no known kind
    VerbatimValue,
    /// the literal is an integer without a suffix, so of no known width
    MissingSuffix,
    /// the literal is an integer that its suffix has no room for
    IntegerOutOfRange,
    /// a positional composite fixes a literal
    TupleValue,
    /// a positional composite names an accessor
    TupleAccessor,
    /// a named composite fixes a literal
    StructValue,
    /// a named composite names an accessor
    StructAccessor,
    /// a field fixes a literal
    FieldValue,
    /// an enumeration has no variant
    NoVariant,
    /// an enumeration fixes a literal
    EnumValue,
    /// an enumeration names an accessor
    EnumAccessor,
    /// a variant declares no discriminant
    MissingDiscriminant,
    /// an enumeration does not say how wide its discriminant is
    MissingRepr,
    /// a discriminant that the width has no room for
    DiscriminantOutOfRange,
    /// the size of the type is more than an address can be
    TooLarge,
    /// a literal is fixed twice
    ValueAlreadySet,
    /// an accessor is named twice
    AccessorAlreadySet,
    /// options are not given as a list
    ExpectingList,
    /// a literal stands where an option is expected
    UnexpectedLiteral,
    /// a list stands where an option is expected
    UnexpectedMetaList,
    /// a bare name stands where an option is expected
    UnexpectedMetaPath,
    /// an accessor is named by something else than a string or a boolean
    AccessorNotString,
    /// an option that is not known
    UnknownMetaAttribute,
    /// an integer whose suffix names no integer type
    UnknownSuffix,
    /// two variants declare the same discriminant
    DuplicateDiscriminant,
}

impl Fault {
    /// What is wrong, in words.
    pub open spec fn spec_message(self) -> Seq<char> {
        match self {
            Fault::UnitAccessor => "Cannot have an accessor associated to Unit"@,
            Fault::MissingValue =>
                "Expecting a value associated to this type (#[packed(valued = ...)])"@,
            Fault::FloatValue => "floating point values are not supported"@,
            Fault::BoolValue => "boolean values are not supported"@,
            Fault::VerbatimValue => "verbatim values are not supported"@,
            Fault::MissingSuffix =>
                "expect to know the exact type of the value, add suffix (like in `0i64`)"@,
            Fault::IntegerOutOfRange => "the value is out of range for the type of its suffix"@,
            Fault::TupleValue =>
                "Cannot have a value associated to an unnamed struct (parenthesis struct)"@,
            Fault::TupleAccessor =>
                "Cannot have an accessor associated to an unnamed struct (parenthesis struct)"@,
            Fault::StructValue =>
                "Cannot have a value associated to a named struct (braced struct)"@,
            Fault::StructAccessor =>
                "Cannot have an accessor associated to a named struct (braced struct)"@,
            Fault::FieldValue => "Cannot have a value associated to a field of a structure"@,
            Fault::NoVariant =>
                "zero-variant enums cannot be packed. This is because they cannot be instantiated."@,
            Fault::EnumValue => "Cannot have a value associated to an enum"@,
            Fault::EnumAccessor => "Cannot have an accessor associated to an enum"@,
            Fault::MissingDiscriminant => "Missing explicit discriminant for packed enum"@,
            Fault::MissingRepr =>
                "Pure enumeration variants should have a repr(...) attributes to set the size"@,
            Fault::DiscriminantOutOfRange =>
                "the discriminant is out of range for the repr(...) of the enum"@,
            Fault::TooLarge => "the size of the packed type does not fit in usize"@,
            Fault::ValueAlreadySet => "Value was already set"@,
            Fault::AccessorAlreadySet => "The accessor has already been set"@,
            Fault::ExpectingList =>
                "expecting a list of packed parameters ([\"value\", \"accessor\"])"@,
            Fault::UnexpectedLiteral => "Unexpected literal"@,
            Fault::UnexpectedMetaList => "unexpected meta list"@,
            Fault::UnexpectedMetaPath => "unexpected meta path"@,
            Fault::AccessorNotString =>
                "Set the value of the accessor: expecting a string literal"@,
            Fault::UnknownMetaAttribute => "Unknown meta attribute"@,
            Fault::UnknownSuffix => "the suffix of the value is not an integer type"@,
            Fault::DuplicateDiscriminant => "discriminant value assigned more than once"@,
        }
    }

    /// What is wrong, in words.
    pub fn message(self) -> (message: &'static str)
        ensures
            message@ == self.spec_message(),
    {
        match self {
            Fault::UnitAccessor => "Cannot have an accessor associated to Unit",
            Fault::MissingValue =>
                "Expecting a value associated to this type (#[packed(valued = ...)])",
            Fault::FloatValue => "floating point values are not supported",
            Fault::BoolValue => "boolean values are not supported",
            Fault::VerbatimValue => "verbatim values are not supported",
            Fault::MissingSuffix =>
                "expect to know the exact type of the value, add suffix (like in `0i64`)",
            Fault::IntegerOutOfRange => "the value is out of range for the type of its suffix",
            Fault::TupleValue =>
                "Cannot have a value associated to an unnamed struct (parenthesis struct)",
            Fault::TupleAccessor =>
                "Cannot have an accessor associated to an unnamed struct (parenthesis struct)",
            Fault::StructValue =>
                "Cannot have a value associated to a named struct (braced struct)",
            Fault::StructAccessor =>
                "Cannot have an accessor associated to a named struct (braced struct)",
            Fault::FieldValue => "Cannot have a value associated to a field of a structure",
            Fault::NoVariant =>
                "zero-variant enums cannot be packed. This is because they cannot be instantiated.",
            Fault::EnumValue => "Cannot have a value associated to an enum",
            Fault::EnumAccessor => "Cannot have an accessor associated to an enum",
            Fault::MissingDiscriminant => "Missing explicit discriminant for packed enum",
            Fault::MissingRepr =>
                "Pure enumeration variants should have a repr(...) attributes to set the size",
            Fault::DiscriminantOutOfRange =>
                "the discriminant is out of range for the repr(...) of the enum",
            Fault::TooLarge => "the size of the packed type does not fit in usize",
            Fault::ValueAlreadySet => "Value was already set",
            Fault::AccessorAlreadySet => "The accessor has already been set",
            Fault::ExpectingList =>
                "expecting a list of packed parameters ([\"value\", \"accessor\"])",
            Fault::UnexpectedLiteral => "Unexpected literal",
            Fault::UnexpectedMetaList => "unexpected meta list",
            Fault::UnexpectedMetaPath => "unexpected meta path",
            Fault::AccessorNotString =>
                "Set the value of the accessor: expecting a string literal",
            Fault::UnknownMetaAttribute => "Unknown meta attribute",
            Fault::UnknownSuffix => "the suffix of the value is not an integer type",
            Fault::DuplicateDiscriminant => "discriminant value assigned more than once",
        }
    }
}

impl PackedAttributes {
    /// The options after one more is set: a literal where none is fixed
    /// yet, a width in place of an earlier one, a naming of the accessor
    /// where it is still the default one. A representation that is no
    /// width sets nothing.
    pub open spec fn with(self, attribute: PackedAttribute) -> Result<PackedAttributes, Fault> {
        match attribute {
            PackedAttribute::Value(lit) => if self.value is Some {
                Err(Fault::ValueAlreadySet)
            } else {
                Ok(PackedAttributes { value: Some(lit), repr: self.repr, accessor: self.accessor })
            },
            PackedAttribute::Repr(repr) => Ok(
                PackedAttributes { value: self.value, repr: Some(repr), accessor: self.accessor },
            ),
            PackedAttribute::Layout(name) => Ok(self),
            PackedAttribute::Accessor(accessor) => if !(self.accessor is Default) {
                Err(Fault::AccessorAlreadySet)
            } else {
                Ok(PackedAttributes { value: self.value, repr: self.repr, accessor })
            },
        }
    }

    /// The options after `attributes` are set one after the other, up to
    /// the first that cannot be.
    pub open spec fn with_all(self, attributes: Seq<PackedAttribute>) -> Result<
        PackedAttributes,
        Fault,
    >
        decreases attributes.len(),
    {
        if attributes.len() == 0 {
            Ok(self)
        } else {
            match self.with(attributes[0]) {
                Ok(next) => next.with_all(attributes.drop_first()),
                Err(fault) => Err(fault),
            }
        }
    }

    /// Collects the options that `attributes` set, in their order. Fails
    /// where a literal is fixed twice or an accessor is named twice.
    pub fn from_iter(attributes: Vec<PackedAttribute>) -> (result: Result<PackedAttributes, Fault>)
        ensures
            result == PackedAttributes::spec_none().with_all(attributes@),
    {
        let mut result = PackedAttributes::none();
        let mut rest = attributes;
        while rest.len() > 0
            invariant
                result.with_all(rest@) == PackedAttributes::spec_none().with_all(attributes@),
            decreases rest@.len(),
        {
            let ghost before = rest@;
            let attribute = rest.remove(0);
            proof {
                assert(rest@ =~= before.drop_first());
            }
            match attribute {
                PackedAttribute::Value(lit) => {
                    if result.value.is_some() {
                        return Err(Fault::ValueAlreadySet);
                    } else {
                        result.value = Some(lit);
                    }
                },
                PackedAttribute::Repr(repr) => {
                    result.repr = Some(repr);
                },
                PackedAttribute::Layout(name) => {},
                PackedAttribute::Accessor(accessor) => {
                    let plain = match result.accessor {
                        AccessorType::Default => true,
                        _ => false,
                    };
                    if !plain {
                        return Err(Fault::AccessorAlreadySet);
                    } else {
                        result.accessor = accessor;
                    }
                },
            }
        }
        Ok(result)
    }
}

impl Data {
    /// What a positional composite is: a unit type if it has no field.
    pub fn from_tuple(tuple: PackedTuple) -> (data: Data)
        ensures
            data == (if tuple.fields@.len() == 0 {
                Data::Unit(PackedUnit { ident: tuple.ident })
            } else {
                Data::Tuple(tuple)
            }),
    {
        if tuple.equivalent_to_packed_unit() {
            Data::Unit(tuple.into_unit())
        } else {
            Data::Tuple(tuple)
        }
    }

    /// What a named composite is: a unit type if it has no field.
    pub fn from_struct(structure: PackedStruct) -> (data: Data)
        ensures
            data == (if structure.fields@.len() == 0 {
                Data::Unit(PackedUnit { ident: structure.ident })
            } else {
                Data::Struct(structure)
            }),
    {
        if structure.equivalent_to_packed_unit() {
            Data::Unit(structure.into_unit())
        } else {
            Data::Struct(structure)
        }
    }

    /// What an enumeration is, if it has a variant. One without variants
    /// has no value, and so no layout.
    pub fn from_enum(enumeration: PackedEnum) -> (data: Result<Data, Fault>)
        ensures
            data == (if enumeration.variants@.len() == 0 {
                Err::<Data, Fault>(Fault::NoVariant)
            } else {
                Ok(Data::Enum(enumeration))
            }),
    {
        if enumeration.equivalent_to_packed_unit() {
            Err(Fault::NoVariant)
        } else {
            Ok(Data::Enum(enumeration))
        }
    }
}

impl Lit {
    /// The integer literal written as `token`: the number that `digits`
    /// are in decimal, behind a minus sign if `negative`, of the type that
    /// `suffix` names, if it names one. A literal of a signed type is a
    /// signed integer.
    pub open spec fn spec_from_digits(
        token: Seq<char>,
        negative: bool,
        digits: Seq<char>,
        suffix: Seq<char>,
    ) -> Result<(Seq<char>, Integer, Option<IntType>), Fault> {
        let ty = IntType::spec_from_name(suffix);
        if suffix.len() > 0 && ty is None {
            Err(Fault::UnknownSuffix)
        } else {
            let signed = ty is Some && ty.unwrap().spec_signed();
            match Integer::spec_from_decimal(negative, digits, signed) {
                None => Err(Fault::IntegerOutOfRange),
                Some(value) => Ok((token, value, ty)),
            }
        }
    }

    /// Makes the integer literal written as `token`, of the number that
    /// `digits` are in decimal, behind a minus sign if `negative`, and of
    /// the type that `suffix` names. No suffix is in order here; a suffix
    /// that names no integer type is not, nor are digits that are no number
    /// or that no integer holds.
    pub fn from_digits(token: &str, negative: bool, digits: &str, suffix: &str) -> (result: Result<
        Lit,
        Fault,
    >)
        ensures
            match Self::spec_from_digits(token@, negative, digits@, suffix@) {
                Ok(parts) => result is Ok && (result->Ok_0 matches Lit::Int {
                    token: t,
                    value: v,
                    suffix: s,
                } && t@ == parts.0 && v == parts.1 && s == parts.2),
                Err(fault) => result == Err::<Lit, Fault>(fault),
            },
    {
        let ty = IntType::from_name(suffix);
        if suffix.unicode_len() > 0 && ty.is_none() {
            return Err(Fault::UnknownSuffix);
        }
        let signed = match ty {
            Some(ty) => ty.is_signed(),
            None => false,
        };
        match Integer::from_decimal(negative, digits, signed) {
            None => Err(Fault::IntegerOutOfRange),
            Some(value) => Ok(Lit::Int { token: String::from_str(token), value, suffix: ty }),
        }
    }

    /// What keeps the literal from being the content of a unit type, if
    /// anything does.
    pub open spec fn fault(&self) -> Option<Fault> {
        match self {
            Lit::Float { .. } => Some(Fault::FloatValue),
            Lit::Bool { .. } => Some(Fault::BoolValue),
            Lit::Verbatim { .. } => Some(Fault::VerbatimValue),
            Lit::Int { token, value, suffix } => match suffix {
                None => Some(Fault::MissingSuffix),
                Some(ty) => if ty.admits(*value) {
                    None
                } else {
                    Some(Fault::IntegerOutOfRange)
                },
            },
            _ => None,
        }
    }

    /// Finds what keeps the literal from being the content of a unit type.
    pub fn find_fault(&self) -> (result: Result<(), Fault>)
        ensures
            result is Ok <==> self.supported(),
            result == match self.fault() {
                None => Ok::<(), Fault>(()),
                Some(fault) => Err(fault),
            },
    {
        match self {
            Lit::Float { .. } => Err(Fault::FloatValue),
            Lit::Bool { .. } => Err(Fault::BoolValue),
            Lit::Verbatim { .. } => Err(Fault::VerbatimValue),
            Lit::Int { token, value, suffix } => match suffix {
                None => Err(Fault::MissingSuffix),
                Some(ty) => if ty.fits(*value) {
                    Ok(())
                } else {
                    Err(Fault::IntegerOutOfRange)
                },
            },
            _ => Ok(()),
        }
    }
}

/// Whether one of the first `n` variants declares no discriminant.
pub open spec fn lacks_discriminant(enumeration: PackedEnum, n: int) -> bool {
    exists|i: int|
        0 <= i < n && (#[trigger] enumeration.variants@[i]).discriminant is None
}

/// Whether one of the first `n` variants declares a discriminant that is no
/// value of `repr`.
pub open spec fn strays(enumeration: PackedEnum, repr: IntType, n: int) -> bool {
    exists|i: int|
        0 <= i < n && (#[trigger] enumeration.variants@[i]).discriminant is Some && !repr.admits(
            enumeration.variants@[i].discriminant.unwrap(),
        )
}

/// Whether two of the first `n` variants declare the same discriminant.
pub open spec fn repeats(enumeration: PackedEnum, n: int) -> bool {
    exists|i: int, j: int|
        0 <= i < j < n && (#[trigger] enumeration.variants@[i]).discriminant == (
        #[trigger] enumeration.variants@[j]).discriminant
}

/// Whether one of the first `n` fields fixes a literal.
pub open spec fn fixes_value(fields: Seq<PackedField>, n: int) -> bool {
    exists|i: int| 0 <= i < n && (#[trigger] fields[i]).attributes.value is Some
}

/// The fault of the first field whose type has one.
pub open spec fn fields_fault(fields: Seq<PackedField>) -> Option<Fault>
    decreases fields, 0nat,
{
    if fields.len() == 0 {
        None
    } else {
        match fields_fault(fields.drop_last()) {
            Some(fault) => Some(fault),
            None => fields.last().ty.fault(),
        }
    }
}

/// Whether every field is one that a composite can have: it fixes no
/// literal, and its type is well defined.
pub open spec fn fields_defined(fields: Seq<PackedField>) -> bool
    decreases fields,
{
    forall|i: int|
        0 <= i < fields.len() ==> {
            &&& (#[trigger] fields[i]).attributes.value is None
            &&& fields[i].ty.well_defined()
        }
}

impl Type {
    /// Whether the type has a layout.
    pub open spec fn well_defined(&self) -> bool
        decreases self,
    {
        match self {
            Type::Int(ty) => true,
            Type::Bytes(len) => true,
            Type::Array(element, len) => element.well_defined() && *len * element.spec_size()
                <= usize::MAX,
            Type::Packed(container) => container.well_defined(),
        }
    }

    /// What keeps the type from having a layout, if anything does.
    pub open spec fn fault(&self) -> Option<Fault>
        decreases self,
    {
        match self {
            Type::Array(element, len) => match element.fault() {
                Some(fault) => Some(fault),
                None => if *len * element.spec_size() > usize::MAX {
                    Some(Fault::TooLarge)
                } else {
                    None
                },
            },
            Type::Packed(container) => container.fault(),
            _ => None,
        }
    }

    /// Finds what keeps the type from having a layout.
    pub fn find_fault(&self) -> (result: Result<(), Fault>)
        ensures
            result is Ok <==> self.well_defined(),
            result == match self.fault() {
                None => Ok::<(), Fault>(()),
                Some(fault) => Err(fault),
            },
        decreases self,
    {
        match self {
            Type::Array(element, len) => {
                proof {
                    lemma_type_fault(**element);
                }
                match element.find_fault() {
                    Err(fault) => Err(fault),
                    Ok(()) => {
                        let size = element.size();
                        if size != 0 && *len > usize::MAX / size {
                            proof {
                                lemma_product_too_large(*len, size);
                            }
                            Err(Fault::TooLarge)
                        } else {
                            proof {
                                lemma_product_fits(*len, size);
                            }
                            Ok(())
                        }
                    },
                }
            },
            Type::Packed(container) => find_fault(container),
            _ => Ok(()),
        }
    }
}

impl Container {
    /// Whether the description defines a layout.
    pub open spec fn well_defined(&self) -> bool
        decreases self,
    {
        &&& self.attributes.accessor is Default
        &&& match self.data {
            Data::Unit(unit) => {
                &&& self.attributes.value is Some
                &&& self.attributes.value.unwrap().supported()
            },
            Data::Enum(enumeration) => {
                &&& self.attributes.value is None
                &&& enumeration.variants@.len() > 0
                &&& self.attributes.repr is Some
                &&& enumeration.discriminants_in(self.attributes.repr.unwrap())
                &&& enumeration.distinct()
            },
            Data::Tuple(tuple) => {
                &&& self.attributes.value is None
                &&& fields_defined(tuple.fields@)
            },
            Data::Struct(structure) => {
                &&& self.attributes.value is None
                &&& fields_defined(structure.fields@)
            },
        }
        &&& self.spec_size() <= usize::MAX
    }

    /// The first of the rules on options and declarations that the
    /// description breaks, in the order in which `check` goes through
    /// them: a unit type names no accessor and fixes a literal; a composite
    /// fixes no literal and names no accessor, nor does a field of it fix
    /// one; an enumeration fixes no literal and names no accessor, every
    /// variant of it declares a discriminant, and it says how wide they are.
    pub open spec fn rule_fault(&self) -> Option<Fault> {
        match self.data {
            Data::Unit(unit) => if !(self.attributes.accessor is Default) {
                Some(Fault::UnitAccessor)
            } else if self.attributes.value is None {
                Some(Fault::MissingValue)
            } else {
                None
            },
            Data::Tuple(tuple) => if self.attributes.value is Some {
                Some(Fault::TupleValue)
            } else if !(self.attributes.accessor is Default) {
                Some(Fault::TupleAccessor)
            } else if fixes_value(tuple.fields@, tuple.fields@.len() as int) {
                Some(Fault::FieldValue)
            } else {
                None
            },
            Data::Struct(structure) => if self.attributes.value is Some {
                Some(Fault::StructValue)
            } else if !(self.attributes.accessor is Default) {
                Some(Fault::StructAccessor)
            } else if fixes_value(structure.fields@, structure.fields@.len() as int) {
                Some(Fault::FieldValue)
            } else {
                None
            },
            Data::Enum(enumeration) => if self.attributes.value is Some {
                Some(Fault::EnumValue)
            } else if !(self.attributes.accessor is Default) {
                Some(Fault::EnumAccessor)
            } else if lacks_discriminant(enumeration, enumeration.variants@.len() as int) {
                Some(Fault::MissingDiscriminant)
            } else if self.attributes.repr is None {
                Some(Fault::MissingRepr)
            } else {
                None
            },
        }
    }

    /// What keeps a description that keeps the rules from having a layout:
    /// a literal that bytes cannot store; a field whose type has a fault,
    /// the first such; an enumeration without variants, or with a
    /// discriminant that its width has no room for, or with one that two
    /// variants declare; or else a size that is no `usize`.
    pub open spec fn layout_fault(&self) -> Option<Fault>
        decreases self, 0nat,
    {
        let found = match self.data {
            Data::Unit(unit) => match self.attributes.value {
                Some(lit) => lit.fault(),
                None => None,
            },
            Data::Tuple(tuple) => fields_fault(tuple.fields@),
            Data::Struct(structure) => fields_fault(structure.fields@),
            Data::Enum(enumeration) => if enumeration.variants@.len() == 0 {
                Some(Fault::NoVariant)
            } else if self.attributes.repr is Some && strays(
                enumeration,
                self.attributes.repr.unwrap(),
                enumeration.variants@.len() as int,
            ) {
                Some(Fault::DiscriminantOutOfRange)
            } else if repeats(enumeration, enumeration.variants@.len() as int) {
                Some(Fault::DuplicateDiscriminant)
            } else {
                None
            },
        };
        match found {
            Some(fault) => Some(fault),
            None => if self.spec_size() > usize::MAX {
                Some(Fault::TooLarge)
            } else {
                None
            },
        }
    }

    /// What is wrong with the description, if anything is: the first rule
    /// that it breaks, or else what keeps it from having a layout.
    pub open spec fn fault(&self) -> Option<Fault>
        decreases self, 1nat,
    {
        match self.rule_fault() {
            Some(fault) => Some(fault),
            None => self.layout_fault(),
        }
    }
}

/// A product is more than a `usize` holds if one factor is more than the
/// greatest `usize` divided by the other.
proof fn lemma_product_too_large(count: usize, size: usize)
    requires
        size != 0,
        count > usize::MAX / size,
    ensures
        count * size > usize::MAX,
{
    assert(count * size > usize::MAX) by (nonlinear_arith)
        requires
            size > 0,
            count > usize::MAX / size,
    ;
}

/// A product is a `usize` if one factor is nothing, or the other is no more
/// than the greatest `usize` divided by it.
proof fn lemma_product_fits(count: usize, size: usize)
    requires
        size == 0 || count <= usize::MAX / size,
    ensures
        count * size <= usize::MAX,
{
    if size != 0 {
        assert(count * size <= usize::MAX) by (nonlinear_arith)
            requires
                size > 0,
                count <= usize::MAX / size,
        ;
    } else {
        assert(count * size == 0) by (nonlinear_arith)
            requires
                size == 0,
        ;
    }
}

/// A type is well defined if and only if nothing is wrong with it.
pub proof fn lemma_type_fault(ty: Type)
    ensures
        ty.fault() is None <==> ty.well_defined(),
    decreases ty,
{
    match ty {
        Type::Array(element, len) => {
            lemma_type_fault(*element);
        },
        Type::Packed(container) => {
            lemma_fault(*container);
        },
        _ => {},
    }
}

/// A description is well defined if and only if nothing is wrong with it.
pub proof fn lemma_fault(container: Container)
    ensures
        container.fault() is None <==> container.well_defined(),
    decreases container,
{
    match container.data {
        Data::Unit(unit) => {},
        Data::Tuple(tuple) => {
            lemma_fields_defined(tuple.fields@);
        },
        Data::Struct(structure) => {
            lemma_fields_defined(structure.fields@);
        },
        Data::Enum(enumeration) => {
            let repr = container.attributes.repr;
            let n = enumeration.variants@.len() as int;
            if container.well_defined() {
                assert(!lacks_discriminant(enumeration, n));
                assert(!strays(enumeration, repr.unwrap(), n));
                assert(!repeats(enumeration, n));
            }
            if container.fault() is None {
                assert forall|i: int| 0 <= i < n implies (
                #[trigger] enumeration.variants@[i]).discriminant is Some && repr.unwrap().admits(
                    enumeration.variants@[i].discriminant.unwrap(),
                ) by {
                    if enumeration.variants@[i].discriminant is None {
                        assert(lacks_discriminant(enumeration, n));
                    } else if !repr.unwrap().admits(enumeration.variants@[i].discriminant.unwrap()) {
                        assert(strays(enumeration, repr.unwrap(), n));
                    }
                }
            }
        },
    }
}

/// Fields are all usable if and only if none fixes a literal and no type of
/// theirs has a fault.
pub proof fn lemma_fields_defined(fields: Seq<PackedField>)
    ensures
        fields_defined(fields) <==> !fixes_value(fields, fields.len() as int) && fields_fault(
            fields,
        ) is None,
    decreases fields, 1nat,
{
    lemma_fields_fault(fields);
    if fields_defined(fields) {
        assert forall|i: int| 0 <= i < fields.len() implies (
        #[trigger] fields[i]).ty.well_defined() by {}
    }
    if !fixes_value(fields, fields.len() as int) && fields_fault(fields) is None {
        assert forall|i: int| 0 <= i < fields.len() implies (#[trigger] fields[i]).attributes.value
            is None && fields[i].ty.well_defined() by {}
    }
}

/// The types of the fields are all well defined if and only if none of them
/// has a fault.
pub proof fn lemma_fields_fault(fields: Seq<PackedField>)
    ensures
        fields_fault(fields) is None <==> forall|i: int|
            0 <= i < fields.len() ==> (#[trigger] fields[i]).ty.well_defined(),
    decreases fields, 0nat,
{
    if fields.len() > 0 {
        let front = fields.drop_last();
        lemma_fields_fault(front);
        lemma_type_fault(fields.last().ty);
        if fields_fault(fields) is None {
            assert forall|i: int| 0 <= i < fields.len() implies (
            #[trigger] fields[i]).ty.well_defined() by {
                if i < front.len() {
                    assert(front[i] == fields[i]);
                }
            }
        }
        if forall|i: int| 0 <= i < fields.len() ==> (#[trigger] fields[i]).ty.well_defined() {
            assert forall|i: int| 0 <= i < front.len() implies (
            #[trigger] front[i]).ty.well_defined() by {
                assert(front[i] == fields[i]);
            }
            assert(fields.last() == fields[fields.len() - 1]);
        }
    }
}

/// Where a prefix of the fields has a fault, all of them have that fault.
proof fn lemma_fields_fault_prefix(fields: Seq<PackedField>, n: int)
    requires
        0 <= n <= fields.len(),
        fields_fault(fields.take(n)) is Some,
    ensures
        fields_fault(fields) == fields_fault(fields.take(n)),
    decreases fields.len(),
{
    if n < fields.len() {
        assert(fields.drop_last().take(n) =~= fields.take(n));
        lemma_fields_fault_prefix(fields.drop_last(), n);
    } else {
        assert(fields.take(n) =~= fields);
    }
}

/// Tells whether one of the fields fixes a literal.
fn fields_fix_value(fields: &Vec<PackedField>) -> (fixed: bool)
    ensures
        fixed == fixes_value(fields@, fields@.len() as int),
{
    let mut i: usize = 0;
    while i < fields.len()
        invariant
            i <= fields@.len(),
            !fixes_value(fields@, i as int),
        decreases fields@.len() - i,
    {
        if fields[i].attributes.value.is_some() {
            assert(fields@[i as int].attributes.value is Some);
            return true;
        }
        i = i + 1;
    }
    false
}

/// Tells whether one of the variants declares no discriminant.
fn variants_lack_discriminant(enumeration: &PackedEnum) -> (lacking: bool)
    ensures
        lacking == lacks_discriminant(*enumeration, enumeration.variants@.len() as int),
{
    let mut i: usize = 0;
    while i < enumeration.variants.len()
        invariant
            i <= enumeration.variants@.len(),
            !lacks_discriminant(*enumeration, i as int),
        decreases enumeration.variants@.len() - i,
    {
        if enumeration.variants[i].discriminant.is_none() {
            assert(enumeration.variants@[i as int].discriminant is None);
            return true;
        }
        i = i + 1;
    }
    false
}

/// Tells whether one of the variants declares a discriminant that is no
/// value of `repr`.
fn variants_stray(enumeration: &PackedEnum, repr: IntType) -> (stray: bool)
    ensures
        stray == strays(*enumeration, repr, enumeration.variants@.len() as int),
{
    let mut i: usize = 0;
    while i < enumeration.variants.len()
        invariant
            i <= enumeration.variants@.len(),
            !strays(*enumeration, repr, i as int),
        decreases enumeration.variants@.len() - i,
    {
        match enumeration.variants[i].discriminant {
            Some(declared) => {
                if !repr.fits(declared) {
                    assert(enumeration.variants@[i as int].discriminant is Some && !repr.admits(
                        enumeration.variants@[i as int].discriminant.unwrap(),
                    ));
                    return true;
                }
            },
            None => {},
        }
        i = i + 1;
    }
    false
}

/// Tells whether two of the variants declare the same discriminant.
fn variants_repeat(enumeration: &PackedEnum) -> (repeated: bool)
    ensures
        repeated == repeats(*enumeration, enumeration.variants@.len() as int),
{
    let mut j: usize = 0;
    while j < enumeration.variants.len()
        invariant
            j <= enumeration.variants@.len(),
            !repeats(*enumeration, j as int),
        decreases enumeration.variants@.len() - j,
    {
        let mut i: usize = 0;
        while i < j
            invariant
                i <= j < enumeration.variants@.len(),
                !repeats(*enumeration, j as int),
                forall|k: int|
                    0 <= k < i ==> (#[trigger] enumeration.variants@[k]).discriminant
                        != enumeration.variants@[j as int].discriminant,
            decreases j - i,
        {
            if same_discriminant(&enumeration.variants[i], &enumeration.variants[j]) {
                assert(repeats(*enumeration, enumeration.variants@.len() as int)) by {
                    assert(enumeration.variants@[i as int].discriminant
                        == enumeration.variants@[j as int].discriminant);
                }
                return true;
            }
            i = i + 1;
        }
        j = j + 1;
    }
    false
}

/// Tells whether two variants declare the same discriminant, or both none.
fn same_discriminant(a: &PackedVariant, b: &PackedVariant) -> (same: bool)
    ensures
        same == (a.discriminant == b.discriminant),
{
    match (a.discriminant, b.discriminant) {
        (Some(x), Some(y)) => x == y,
        (None, None) => true,
        _ => false,
    }
}

/// Finds the first field whose type has a fault, or that the fields are too
/// large together.
fn find_fields_fault(fields: &Vec<PackedField>) -> (result: Result<(), Fault>)
    ensures
        result == (match fields_fault(fields@) {
            Some(fault) => Err::<(), Fault>(fault),
            None => if fields_size(fields@) > usize::MAX {
                Err(Fault::TooLarge)
            } else {
                Ok(())
            },
        }),
    decreases fields@,
{
    let mut i: usize = 0;
    proof {
        assert(fields@.take(0) =~= Seq::<PackedField>::empty());
    }
    while i < fields.len()
        invariant
            i <= fields@.len(),
            fields_fault(fields@.take(i as int)) is None,
        decreases fields@.len() - i,
    {
        proof {
            lemma_take_step(fields@, i as int);
        }
        match fields[i].ty.find_fault() {
            Ok(()) => {},
            Err(fault) => {
                proof {
                    lemma_fields_fault_prefix(fields@, i as int + 1);
                }
                return Err(fault);
            },
        }
        i = i + 1;
    }
    proof {
        assert(fields@.take(i as int) =~= fields@);
        lemma_fields_fault(fields@);
    }
    if fields_too_large(fields) {
        Err(Fault::TooLarge)
    } else {
        Ok(())
    }
}

/// Tells whether the sizes of the fields add up to more than a `usize`.
fn fields_too_large(fields: &Vec<PackedField>) -> (large: bool)
    requires
        forall|i: int| 0 <= i < fields@.len() ==> (#[trigger] fields@[i]).ty.well_defined(),
    ensures
        large == (fields_size(fields@) > usize::MAX),
{
    let mut size: usize = 0;
    let mut i: usize = 0;
    proof {
        assert(fields@.take(0) =~= Seq::<PackedField>::empty());
    }
    while i < fields.len()
        invariant
            i <= fields@.len(),
            forall|i: int| 0 <= i < fields@.len() ==> (#[trigger] fields@[i]).ty.well_defined(),
            size == fields_size(fields@.take(i as int)),
        decreases fields@.len() - i,
    {
        proof {
            lemma_take_step(fields@, i as int);
            lemma_field_range(fields@, i as int);
        }
        let field_size = fields[i].ty.size();
        if size > usize::MAX - field_size {
            return true;
        }
        size = size + field_size;
        i = i + 1;
    }
    proof {
        assert(fields@.take(i as int) =~= fields@);
    }
    false
}

/// Goes through the rules on options and declarations, and finds the first
/// that the description breaks.
///
/// A unit type names no accessor, and fixes a literal. A composite fixes no
/// literal and names no accessor, and no field of it fixes a literal. An
/// enumeration fixes no literal and names no accessor, every variant of it
/// declares a discriminant, and it says how wide they are. What the literal
/// is, what the types of the fields are and which numbers the discriminants
/// are is not looked at here: that is for [`check_layout`].
pub fn check(container: &Container) -> (result: Result<(), Fault>)
    ensures
        result == match container.rule_fault() {
            None => Ok::<(), Fault>(()),
            Some(fault) => Err(fault),
        },
{
    let plain = match container.attributes.accessor {
        AccessorType::Default => true,
        _ => false,
    };
    match &container.data {
        Data::Unit(unit) => {
            if !plain {
                return Err(Fault::UnitAccessor);
            }
            if container.attributes.value.is_none() {
                return Err(Fault::MissingValue);
            }
            Ok(())
        },
        Data::Tuple(tuple) => {
            if container.attributes.value.is_some() {
                return Err(Fault::TupleValue);
            }
            if !plain {
                return Err(Fault::TupleAccessor);
            }
            if fields_fix_value(&tuple.fields) {
                return Err(Fault::FieldValue);
            }
            Ok(())
        },
        Data::Struct(structure) => {
            if container.attributes.value.is_some() {
                return Err(Fault::StructValue);
            }
            if !plain {
                return Err(Fault::StructAccessor);
            }
            if fields_fix_value(&structure.fields) {
                return Err(Fault::FieldValue);
            }
            Ok(())
        },
        Data::Enum(enumeration) => {
            if container.attributes.value.is_some() {
                return Err(Fault::EnumValue);
            }
            if !plain {
                return Err(Fault::EnumAccessor);
            }
            if variants_lack_discriminant(enumeration) {
                return Err(Fault::MissingDiscriminant);
            }
            if container.attributes.repr.is_none() {
                return Err(Fault::MissingRepr);
            }
            Ok(())
        },
    }
}

/// Finds what keeps a description from having a layout: what `check` does
/// not look at. Together with `check` it decides whether a description is
/// well defined.
pub fn check_layout(container: &Container) -> (result: Result<(), Fault>)
    ensures
        result == match container.layout_fault() {
            None => Ok::<(), Fault>(()),
            Some(fault) => Err(fault),
        },
    decreases container, 0nat,
{
    match &container.data {
        Data::Unit(unit) => match &container.attributes.value {
            None => Ok(()),
            Some(lit) => match lit.find_fault() {
                Err(fault) => Err(fault),
                Ok(()) => {
                    // The size of a literal is the length of a string or of
                    // a vector that exists: reading it shows that it is a
                    // `usize`.
                    let _size = lit.size();
                    Ok(())
                },
            },
        },
        Data::Tuple(tuple) => find_fields_fault(&tuple.fields),
        Data::Struct(structure) => find_fields_fault(&structure.fields),
        Data::Enum(enumeration) => {
            if enumeration.variants.len() == 0 {
                return Err(Fault::NoVariant);
            }
            match container.attributes.repr {
                Some(repr) => {
                    if variants_stray(enumeration, repr) {
                        return Err(Fault::DiscriminantOutOfRange);
                    }
                },
                None => {},
            }
            if variants_repeat(enumeration) {
                return Err(Fault::DuplicateDiscriminant);
            }
            Ok(())
        },
    }
}

/// Finds what is wrong with a description: the first rule that it breaks,
/// or else what keeps it from having a layout. A description with which
/// nothing is wrong is well defined.
pub fn find_fault(container: &Container) -> (result: Result<(), Fault>)
    ensures
        result is Ok <==> container.well_defined(),
        result == match container.fault() {
            None => Ok::<(), Fault>(()),
            Some(fault) => Err(fault),
        },
    decreases container, 1nat,
{
    proof {
        lemma_fault(*container);
    }
    match check(container) {
        Err(fault) => Err(fault),
        Ok(()) => check_layout(container),
    }
}

} // verus!
