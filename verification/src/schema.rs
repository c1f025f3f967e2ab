//! Layouts made of descriptions.
//!
//! A [`Definition`] is a description that is well defined, kept together
//! with that fact. Its operations ask nothing of the caller: what could go
//! wrong is reported in the result.

use vstd::prelude::*;
use vstd::view::View as _;

use crate::accessors::{accessors_of, Accessor};
use crate::ast::Container;
use crate::definition::{check, check_layout, lemma_fault, Fault};
use crate::error::{Error, ErrorView};
use crate::packet::Packet;
use crate::value::Value;
use crate::view::View;

verus! {

/// A description that defines a layout.
#[derive(Debug)]
pub struct Definition {
    container: Container,
}

impl Definition {
    #[verifier::type_invariant]
    spec fn defines_a_layout(self) -> bool {
        self.container.well_defined()
    }

    /// The description that the layout was made of.
    pub closed spec fn description(self) -> Container {
        self.container
    }

    /// The description that the layout was made of.
    pub fn container(&self) -> (container: &Container)
        ensures
            *container == self.description(),
            container.well_defined(),
    {
        proof {
            use_type_invariant(self);
        }
        &self.container
    }

    /// The size of the layout.
    pub fn size(&self) -> (size: usize)
        ensures
            size == self.description().spec_size(),
    {
        self.container().size()
    }

    /// The accessors of the fields of a composite, in the order of the
    /// fields.
    pub fn accessors(&self) -> (list: Vec<Accessor>)
        ensures
            list@.len() == accessors_of(
                self.description().spec_fields(),
                self.description().spec_fields().len(),
            ).len(),
            forall|i: int|
                0 <= i < list@.len() ==> (#[trigger] list@[i]).model() == accessors_of(
                    self.description().spec_fields(),
                    self.description().spec_fields().len(),
                )[i],
    {
        self.container().accessors()
    }

    /// The view of `slice` as a value of the layout, if it holds one.
    ///
    /// A slice of another length than the size of the layout is refused as
    /// such. A slice of the right length that the layout does not accept is
    /// refused with the error of the check.
    pub fn view<'a>(&'a self, slice: &'a [u8]) -> (result: Result<View<'a, Container>, Error>)
        ensures
            slice@.len() != self.description().spec_size() ==> result is Err && result->Err_0@
                == (ErrorView::InvalidSize {
                ty: self.description().data.spec_ident()@,
                received: slice@.len(),
                expected: self.description().spec_size(),
            }),
            slice@.len() == self.description().spec_size() && !self.description().accepts(slice@)
                ==> result is Err && result->Err_0@ == self.description().failure(slice@),
            slice@.len() == self.description().spec_size() && self.description().accepts(slice@)
                ==> result is Ok && result->Ok_0.layout() == self.description()
                && result->Ok_0.bytes() == slice@,
    {
        View::try_from_slice(self.container(), slice)
    }

    /// Encodes `value` into a packet of its own, if it is a value of the
    /// layout.
    pub fn pack<'a>(&'a self, value: &Value) -> (packet: Option<Packet<'a, Container>>)
        ensures
            packet is Some <==> self.description().admits(value@),
            packet is Some ==> packet.unwrap().layout() == self.description()
                && packet.unwrap().bytes() == self.description().encode(value@),
    {
        let container = self.container();
        if container.admits_value(value) {
            Some(Packet::pack(container, value))
        } else {
            None
        }
    }
}

/// Makes a layout of a description, or finds what is wrong with it: the
/// first rule that it breaks, or else what keeps it from having a layout.
pub fn packed_definitions(container: Container) -> (result: Result<Definition, Fault>)
    ensures
        match result {
            Ok(definition) => definition.description() == container && container.well_defined(),
            Err(fault) => container.fault() == Some(fault),
        },
{
    proof {
        lemma_fault(container);
    }
    match check(&container) {
        Err(fault) => Err(fault),
        Ok(()) => match check_layout(&container) {
            Err(fault) => Err(fault),
            Ok(()) => Ok(Definition { container }),
        },
    }
}

} // verus!
