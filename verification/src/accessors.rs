//! Views of the fields of a composite.
//!
//! A field is reached by its position, or by the name of its accessor:
//! the name that the field's options give, or else the field's own name, or
//! else `_` and the field's position. A field whose options say so has no
//! accessor. The view of a field borrows the bytes of the field from the
//! view of the whole: nothing is copied, and nothing is checked again.

use vstd::prelude::*;
use vstd::string::StringExecFns;
use vstd::view::View as _;

use crate::ast::{AccessorType, Container, Data, PackedField, Type};
use crate::definition::fields_defined;
use crate::laws::{lemma_fields_accept_each, lemma_item_range, lemma_items_prefix};
use crate::layout::{
    field_bytes,
    field_end,
    field_start,
    fields_size,
    item_bytes,
    items_accept,
    lemma_field_range,
    lemma_take_step,
};
use crate::text::{decimal, push_decimal};
use crate::view::View;

verus! {

/// The position of the first field from `from` on whose accessor is named
/// `name`, or the number of fields if there is none.
pub open spec fn accessor_position(fields: Seq<PackedField>, name: Seq<char>, from: nat) -> nat
    decreases fields.len() - from,
{
    if from >= fields.len() {
        fields.len()
    } else if fields[from as int].accessor_name(from) == Some(name) {
        from
    } else {
        accessor_position(fields, name, from + 1)
    }
}

/// The fields of a value that was checked as a whole need no check: each
/// holds a value of its own type, in its own bytes.
pub proof fn lemma_field_holds(container: Container, bytes: Seq<u8>, index: int)
    requires
        container.well_defined(),
        bytes.len() == container.spec_size(),
        container.accepts(bytes),
        0 <= index < container.spec_fields().len(),
    ensures
        container.spec_fields()[index].ty.well_defined(),
        field_bytes(container.spec_fields(), bytes, index).len()
            == container.spec_fields()[index].ty.spec_size(),
        container.spec_fields()[index].ty.accepts(
            field_bytes(container.spec_fields(), bytes, index),
        ),
{
    let fields = container.spec_fields();
    lemma_fields_accept_each(fields, bytes);
    lemma_field_range(fields, index);
    assert(fields[index].ty.accepts(field_bytes(fields, bytes, index)));
}

impl PackedField {
    /// The name of the accessor of the field, which stands at position
    /// `index`, if it has an accessor.
    pub open spec fn accessor_name(&self, index: nat) -> Option<Seq<char>> {
        match self.attributes.accessor {
            AccessorType::Ignore => None,
            AccessorType::Custom(name) => Some(name@),
            AccessorType::Default => match self.ident {
                Some(ident) => Some(ident@),
                None => Some("_"@ + decimal(index)),
            },
        }
    }

    /// The name of the accessor of the field, which stands at position
    /// `index`, if it has an accessor.
    pub fn accessor(&self, index: usize) -> (name: Option<String>)
        ensures
            match self.accessor_name(index as nat) {
                Some(expected) => name is Some && name.unwrap()@ == expected,
                None => name is None,
            },
    {
        match &self.attributes.accessor {
            AccessorType::Ignore => None,
            AccessorType::Custom(name) => Some(name.clone()),
            AccessorType::Default => match &self.ident {
                Some(ident) => Some(ident.clone()),
                None => {
                    let mut name = String::from_str("_");
                    push_decimal(&mut name, index as u128);
                    Some(name)
                },
            },
        }
    }
}

impl Container {
    /// The fields of a composite; of another type, none.
    pub open spec fn spec_fields(&self) -> Seq<PackedField> {
        match self.data {
            Data::Tuple(tuple) => tuple.fields@,
            Data::Struct(structure) => structure.fields@,
            _ => Seq::<PackedField>::empty(),
        }
    }

    /// The fields of a composite.
    pub fn fields(&self) -> (fields: Option<&Vec<PackedField>>)
        ensures
            match fields {
                Some(fields) => fields@ == self.spec_fields() && (self.data is Tuple
                    || self.data is Struct),
                None => self.spec_fields().len() == 0 && !(self.data is Tuple
                    || self.data is Struct),
            },
    {
        match &self.data {
            Data::Tuple(tuple) => Some(&tuple.fields),
            Data::Struct(structure) => Some(&structure.fields),
            _ => None,
        }
    }

    /// The position of the first field whose accessor is named `name`, if
    /// there is one.
    pub fn find_accessor(&self, name: &str) -> (index: Option<usize>)
        ensures
            match index {
                Some(index) => index < self.spec_fields().len() && index == accessor_position(
                    self.spec_fields(),
                    name@,
                    0,
                ),
                None => accessor_position(self.spec_fields(), name@, 0)
                    == self.spec_fields().len(),
            },
    {
        let fields = match self.fields() {
            Some(fields) => fields,
            None => {
                return None;
            },
        };
        let wanted = String::from_str(name);
        let mut i: usize = 0;
        while i < fields.len()
            invariant
                i <= fields@.len(),
                fields@ == self.spec_fields(),
                wanted@ == name@,
                accessor_position(fields@, name@, 0) == accessor_position(fields@, name@, i as nat),
            decreases fields@.len() - i,
        {
            match fields[i].accessor(i) {
                Some(candidate) => {
                    if candidate == wanted {
                        return Some(i);
                    }
                },
                None => {},
            }
            i = i + 1;
        }
        None
    }

    /// Where the field at position `index` starts and where it ends.
    pub fn field_range(&self, index: usize) -> (range: (usize, usize))
        requires
            self.well_defined(),
            index < self.spec_fields().len(),
        ensures
            range.0 == field_start(self.spec_fields(), index as int),
            range.1 == field_end(self.spec_fields(), index as int),
            range.1 == range.0 + self.spec_fields()[index as int].ty.spec_size(),
            range.1 <= self.spec_size(),
    {
        let fields = match self.fields() {
            Some(fields) => fields,
            None => {
                return (0, 0);
            },
        };
        let mut start: usize = 0;
        let mut i: usize = 0;
        proof {
            assert(fields@.take(0) =~= Seq::<PackedField>::empty());
            lemma_field_range(fields@, index as int);
        }
        while i < index
            invariant
                i <= index < fields@.len(),
                fields_defined(fields@),
                fields_size(fields@) <= usize::MAX,
                start == fields_size(fields@.take(i as int)),
            decreases index - i,
        {
            proof {
                lemma_field_range(fields@, i as int);
                lemma_take_step(fields@, i as int);
            }
            start = start + fields[i].ty.size();
            i = i + 1;
        }
        (start, start + fields[index].ty.size())
    }
}

/// An accessor: its name, and where the bytes of its field start and end.
pub struct Accessor {
    pub name: String,
    pub start: usize,
    pub end: usize,
}

/// The accessors of the first `n` fields, in the order of the fields: for
/// each field that has an accessor, its name and the range of the bytes of
/// the field.
pub open spec fn accessors_of(fields: Seq<PackedField>, n: nat) -> Seq<(Seq<char>, nat, nat)>
    decreases n,
{
    if n == 0 {
        Seq::<(Seq<char>, nat, nat)>::empty()
    } else {
        let index = (n - 1) as nat;
        let front = accessors_of(fields, index);
        match fields[index as int].accessor_name(index) {
            Some(name) => front.push(
                (name, field_start(fields, index as int), field_end(fields, index as int)),
            ),
            None => front,
        }
    }
}

impl Accessor {
    /// The name and the range of the accessor.
    pub open spec fn model(&self) -> (Seq<char>, nat, nat) {
        (self.name@, self.start as nat, self.end as nat)
    }
}

impl Container {
    /// The accessors of the fields of a composite, in the order of the
    /// fields. A field without accessor takes its bytes, and has no entry.
    pub fn accessors(&self) -> (list: Vec<Accessor>)
        requires
            self.well_defined(),
        ensures
            list@.len() == accessors_of(self.spec_fields(), self.spec_fields().len()).len(),
            forall|i: int|
                0 <= i < list@.len() ==> (#[trigger] list@[i]).model() == accessors_of(
                    self.spec_fields(),
                    self.spec_fields().len(),
                )[i],
    {
        let mut list: Vec<Accessor> = Vec::new();
        let fields = match self.fields() {
            Some(fields) => fields,
            None => {
                return list;
            },
        };
        let mut start: usize = 0;
        let mut i: usize = 0;
        proof {
            assert(fields@.take(0) =~= Seq::<PackedField>::empty());
        }
        while i < fields.len()
            invariant
                i <= fields@.len(),
                fields_defined(fields@),
                fields_size(fields@) <= usize::MAX,
                start == fields_size(fields@.take(i as int)),
                list@.len() == accessors_of(fields@, i as nat).len(),
                forall|j: int|
                    0 <= j < list@.len() ==> (#[trigger] list@[j]).model() == accessors_of(
                        fields@,
                        i as nat,
                    )[j],
            decreases fields@.len() - i,
        {
            proof {
                lemma_field_range(fields@, i as int);
                lemma_take_step(fields@, i as int);
            }
            let end = start + fields[i].ty.size();
            match fields[i].accessor(i) {
                Some(name) => {
                    list.push(Accessor { name, start, end });
                },
                None => {},
            }
            start = end;
            i = i + 1;
        }
        list
    }
}

impl<'a> View<'a, Container> {
    /// The view of the field at position `index`, if the layout is a
    /// composite with that many fields.
    pub fn field(self, index: usize) -> (field: Option<View<'a, Type>>)
        ensures
            match field {
                Some(field) => {
                    &&& index < self.layout().spec_fields().len()
                    &&& field.layout() == self.layout().spec_fields()[index as int].ty
                    &&& field.bytes() == field_bytes(
                        self.layout().spec_fields(),
                        self.bytes(),
                        index as int,
                    )
                },
                None => index >= self.layout().spec_fields().len(),
            },
    {
        let schema = self.schema();
        let slice = self.as_slice();
        let fields = match schema.fields() {
            Some(fields) => fields,
            None => {
                return None;
            },
        };
        if index >= fields.len() {
            return None;
        }
        let (start, end) = schema.field_range(index);
        proof {
            lemma_field_holds(*schema, slice@, index as int);
        }
        Some(View::unchecked_from_slice(&fields[index].ty, &slice[start..end]))
    }

    /// The view of the first field whose accessor is named `name`, if there
    /// is one.
    pub fn accessor(self, name: &str) -> (field: Option<View<'a, Type>>)
        ensures
            match field {
                Some(field) => {
                    let index = accessor_position(self.layout().spec_fields(), name@, 0) as int;
                    &&& index < self.layout().spec_fields().len()
                    &&& field.layout() == self.layout().spec_fields()[index].ty
                    &&& field.bytes() == field_bytes(
                        self.layout().spec_fields(),
                        self.bytes(),
                        index,
                    )
                },
                None => accessor_position(self.layout().spec_fields(), name@, 0)
                    == self.layout().spec_fields().len(),
            },
    {
        match self.schema().find_accessor(name) {
            Some(index) => self.field(index),
            None => None,
        }
    }
}

/// The items of an array that was checked as a whole need no check: each
/// holds a value of the type of the items, in its own bytes.
pub proof fn lemma_item_holds(element: Type, len: nat, bytes: Seq<u8>, index: int)
    requires
        element.well_defined(),
        bytes.len() == len * element.spec_size(),
        items_accept(element, len, bytes),
        0 <= index < len,
    ensures
        item_bytes(element, bytes, index).len() == element.spec_size(),
        element.accepts(item_bytes(element, bytes, index)),
{
    lemma_item_range(element.spec_size(), len, index);
    lemma_items_prefix(element, len, (index + 1) as nat, bytes);
}

impl<'a> View<'a, Type> {
    /// The view of the item at position `index`, if the layout is an array
    /// of that many items.
    pub fn item(self, index: usize) -> (item: Option<View<'a, Type>>)
        ensures
            match self.layout() {
                Type::Array(element, len) => if index < len {
                    &&& item is Some
                    &&& item.unwrap().layout() == *element
                    &&& item.unwrap().bytes() == item_bytes(*element, self.bytes(), index as int)
                } else {
                    item is None
                },
                _ => item is None,
            },
    {
        let slice = self.as_slice();
        match self.schema() {
            Type::Array(element, len) => {
                if index >= *len {
                    return None;
                }
                proof {
                    lemma_item_holds(**element, *len as nat, slice@, index as int);
                    lemma_item_range(element.spec_size(), *len as nat, index as int);
                }
                let size = element.size();
                let start = index * size;
                Some(View::unchecked_from_slice(&**element, &slice[start..start + size]))
            },
            _ => None,
        }
    }

    /// The view of the same bytes as a value of the described type that the
    /// type is, if it is one.
    pub fn described(self) -> (view: Option<View<'a, Container>>)
        ensures
            match self.layout() {
                Type::Packed(container) => view is Some && view.unwrap().layout() == *container
                    && view.unwrap().bytes() == self.bytes(),
                _ => view is None,
            },
    {
        let slice = self.as_slice();
        match self.schema() {
            Type::Packed(container) => Some(View::unchecked_from_slice(&**container, slice)),
            _ => None,
        }
    }
}

} // verus!
