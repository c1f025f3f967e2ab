//! The discriminated-unit engine: enumerations without payload, stored as
//! the discriminant of the variant in a fixed-width integer.
//!
//! A value of an enumeration is the position of a variant in the
//! declaration. Decoding is stateless: it reads the integer and finds the
//! first variant that declares it.

use vstd::prelude::*;
use vstd::string::StringExecFns;

use crate::ast::{PackedEnum, PackedVariant};
use crate::bytes::splice;
use crate::error::{Error, ErrorView};
use crate::primitives::{IntType, Integer};
use crate::text::{push_integer, signed_decimal};

verus! {

/// The position of the first variant from `from` on whose discriminant is
/// `found`, or the number of variants if there is none.
pub open spec fn position(variants: Seq<PackedVariant>, found: Integer, from: nat) -> nat
    decreases variants.len() - from,
{
    if from >= variants.len() {
        variants.len()
    } else if variants[from as int].discriminant == Some(found) {
        from
    } else {
        position(variants, found, from + 1)
    }
}

/// The discriminants of the first `n` variants in decimal, with a comma
/// and a space between one and the next.
pub open spec fn listed(variants: Seq<PackedVariant>, n: nat) -> Seq<char>
    decreases n,
{
    if n == 0 {
        Seq::<char>::empty()
    } else if n == 1 {
        signed_decimal(variants[0].discriminant.unwrap().as_int())
    } else {
        listed(variants, (n - 1) as nat) + ", "@ + signed_decimal(
            variants[n - 1].discriminant.unwrap().as_int(),
        )
    }
}

/// `position` finds a variant with the discriminant, and the first one;
/// where it finds none, there is none.
pub proof fn lemma_position(variants: Seq<PackedVariant>, found: Integer, from: nat)
    requires
        from <= variants.len(),
    ensures
        from <= position(variants, found, from) <= variants.len(),
        position(variants, found, from) < variants.len() ==> variants[position(
            variants,
            found,
            from,
        ) as int].discriminant == Some(found),
        forall|i: int|
            from <= i < position(variants, found, from) ==> variants[i].discriminant != Some(
                found,
            ),
    decreases variants.len() - from,
{
    if from < variants.len() && variants[from as int].discriminant != Some(found) {
        lemma_position(variants, found, from + 1);
    }
}

/// Where no two variants declare the same discriminant, the variant that
/// declares a discriminant is the one that `position` finds.
pub proof fn lemma_position_of(enumeration: PackedEnum, index: int)
    requires
        enumeration.distinct(),
        0 <= index < enumeration.variants@.len(),
        enumeration.variants@[index].discriminant is Some,
    ensures
        enumeration.variant_of(enumeration.variants@[index].discriminant.unwrap()) == index,
{
    let found = enumeration.variants@[index].discriminant.unwrap();
    lemma_position(enumeration.variants@, found, 0);
    let first = position(enumeration.variants@, found, 0) as int;
    if first < index {
        assert(enumeration.variants@[first].discriminant == enumeration.variants@[index].discriminant);
    }
}

impl PackedEnum {
    /// No two variants declare the same discriminant.
    pub open spec fn distinct(&self) -> bool {
        forall|i: int, j: int|
            0 <= i < j < self.variants@.len() ==> (#[trigger] self.variants@[i]).discriminant != (
            #[trigger] self.variants@[j]).discriminant
    }

    /// Every variant declares a discriminant, and one that is a value of
    /// `repr`.
    pub open spec fn discriminants_in(&self, repr: IntType) -> bool {
        forall|i: int|
            0 <= i < self.variants@.len() ==> {
                &&& (#[trigger] self.variants@[i]).discriminant is Some
                &&& repr.admits(self.variants@[i].discriminant.unwrap())
            }
    }

    /// Whether some variant declares `found` for its discriminant.
    pub open spec fn declares(&self, found: Integer) -> bool {
        exists|i: int|
            0 <= i < self.variants@.len() && (#[trigger] self.variants@[i]).discriminant == Some(
                found,
            )
    }

    /// The position of the first variant that declares `found`.
    pub open spec fn variant_of(&self, found: Integer) -> nat {
        position(self.variants@, found, 0)
    }

    /// The discriminants of all the variants, as diagnostics list them.
    pub open spec fn options(&self) -> Seq<char> {
        listed(self.variants@, self.variants@.len())
    }

    /// Whether `bytes` hold the discriminant of a variant.
    pub open spec fn accepts(&self, repr: IntType, bytes: Seq<u8>) -> bool {
        self.declares(repr.decode(bytes))
    }

    /// The error of `bytes` that hold no variant's discriminant: the number
    /// found, and every discriminant that is declared.
    pub open spec fn mismatch(&self, repr: IntType, bytes: Seq<u8>) -> ErrorView {
        ErrorView::InvalidDiscriminant {
            ty: self.ident@,
            options: self.options(),
            found: repr.decode(bytes).as_int(),
        }
    }

    /// The variant that `bytes` hold.
    pub open spec fn decode(&self, repr: IntType, bytes: Seq<u8>) -> nat {
        self.variant_of(repr.decode(bytes))
    }

    /// The bytes that store the variant at position `index`.
    pub open spec fn encode(&self, repr: IntType, index: nat) -> Seq<u8> {
        repr.encode(self.variants@[index as int].discriminant.unwrap())
    }

    /// The position of the first variant that declares `found`, if there is
    /// one.
    pub fn find(&self, found: Integer) -> (index: Option<usize>)
        ensures
            index is Some <==> self.declares(found),
            index is Some ==> index.unwrap() == self.variant_of(found) && index.unwrap()
                < self.variants@.len(),
    {
        let mut i: usize = 0;
        while i < self.variants.len()
            invariant
                i <= self.variants@.len(),
                position(self.variants@, found, 0) == position(self.variants@, found, i as nat),
                forall|j: int| 0 <= j < i ==> self.variants@[j].discriminant != Some(found),
            decreases self.variants@.len() - i,
        {
            match self.variants[i].discriminant {
                Some(declared) => {
                    if declared == found {
                        return Some(i);
                    }
                },
                None => {},
            }
            i = i + 1;
        }
        None
    }

    /// The discriminants of all the variants, as diagnostics list them.
    pub fn list_options(&self) -> (options: String)
        requires
            forall|i: int|
                0 <= i < self.variants@.len() ==> (
                #[trigger] self.variants@[i]).discriminant is Some,
        ensures
            options@ == self.options(),
    {
        let mut options = String::new();
        let mut i: usize = 0;
        while i < self.variants.len()
            invariant
                i <= self.variants@.len(),
                options@ == listed(self.variants@, i as nat),
                forall|i: int|
                    0 <= i < self.variants@.len() ==> (
                    #[trigger] self.variants@[i]).discriminant is Some,
            decreases self.variants@.len() - i,
        {
            assert(self.variants@[i as int].discriminant is Some);
            if i > 0 {
                options.append(", ");
            }
            match self.variants[i].discriminant {
                Some(declared) => {
                    push_integer(&mut options, declared);
                },
                None => {},
            }
            proof {
                if i == 0 {
                    assert(Seq::<char>::empty() + signed_decimal(
                        self.variants@[0].discriminant.unwrap().as_int(),
                    ) =~= listed(self.variants@, 1));
                }
            }
            i = i + 1;
        }
        options
    }

    /// Tells whether `slice` holds the discriminant of a variant, and if
    /// not, which number it holds instead.
    pub fn check(&self, repr: IntType, slice: &[u8]) -> (result: Result<(), Error>)
        requires
            self.discriminants_in(repr),
            slice@.len() == repr.spec_width(),
        ensures
            self.accepts(repr, slice@) ==> result is Ok,
            !self.accepts(repr, slice@) ==> result is Err && result->Err_0@ == self.mismatch(
                repr,
                slice@,
            ),
    {
        let found = repr.read(slice);
        match self.find(found) {
            Some(_) => Ok(()),
            None => {
                let options = self.list_options();
                Err(
                    Error::InvalidDiscriminant {
                        ty: String::from_str(self.ident.as_str()),
                        options,
                        found,
                    },
                )
            },
        }
    }

    /// The position of the variant that `slice` holds.
    pub fn read(&self, repr: IntType, slice: &[u8]) -> (index: usize)
        requires
            slice@.len() == repr.spec_width(),
            self.accepts(repr, slice@),
        ensures
            index == self.decode(repr, slice@),
            index < self.variants@.len(),
    {
        let found = repr.read(slice);
        match self.find(found) {
            Some(index) => index,
            None => 0,
        }
    }

    /// Writes the discriminant of the variant at position `index` into
    /// `slice` from position `start` on.
    pub fn write_at(&self, repr: IntType, index: usize, slice: &mut [u8], start: usize)
        requires
            self.discriminants_in(repr),
            index < self.variants@.len(),
            start + repr.spec_width() <= old(slice)@.len(),
        ensures
            final(slice)@ == splice(old(slice)@, start as int, self.encode(repr, index as nat)),
    {
        assert(self.variants@[index as int].discriminant is Some);
        match self.variants[index].discriminant {
            Some(declared) => repr.write_at(declared, slice, start),
            None => {
                assert(false);
            },
        }
    }
}

} // verus!
