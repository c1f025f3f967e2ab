//! The values that layouts decode to.

use vstd::prelude::*;

use crate::primitives::Integer;

verus! {

/// A decoded value.
#[derive(Debug, PartialEq, Eq)]
pub enum Value {
    /// the one value of a unit type
    Unit,
    /// a value of an integer type
    Integer(Integer),
    /// a value of a byte array
    Bytes(Vec<u8>),
    /// a value of an enumeration: the position of the variant
    Variant(usize),
    /// a value of a composite or of an array: the values of its fields or of
    /// its items, in their order
    Fields(Vec<Value>),
}

/// The mathematical content of a [`Value`].
pub enum ValueView {
    Unit,
    Integer(Integer),
    Bytes(Seq<u8>),
    Variant(nat),
    Fields(Seq<ValueView>),
}

/// The contents of a sequence of values.
pub open spec fn models(values: Seq<Value>) -> Seq<ValueView>
    decreases values,
{
    if values.len() == 0 {
        Seq::<ValueView>::empty()
    } else {
        models(values.drop_last()).push(values.last().model())
    }
}

impl Value {
    /// The mathematical content of the value.
    pub open spec fn model(&self) -> ValueView
        decreases self,
    {
        match self {
            Value::Unit => ValueView::Unit,
            Value::Integer(value) => ValueView::Integer(*value),
            Value::Bytes(bytes) => ValueView::Bytes(bytes@),
            Value::Variant(index) => ValueView::Variant(*index as nat),
            Value::Fields(values) => ValueView::Fields(models(values@)),
        }
    }
}

impl View for Value {
    type V = ValueView;

    open spec fn view(&self) -> ValueView {
        self.model()
    }
}

/// `models` keeps the length and takes the content of each value.
pub proof fn lemma_models(values: Seq<Value>)
    ensures
        models(values).len() == values.len(),
        forall|i: int| 0 <= i < values.len() ==> (#[trigger] models(values)[i]) == values[i]@,
    decreases values.len(),
{
    if values.len() > 0 {
        lemma_models(values.drop_last());
    }
}

} // verus!
