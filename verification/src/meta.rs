//! The options that attributes set.
//!
//! Options are written as a list: `packed(value = "tag")`,
//! `packed(accessor = "name")`, `packed(accessor = false)`, `repr(u8)`. An
//! attribute that is no list sets nothing and is a fault, and so is an entry
//! of a list that is no option.

use vstd::prelude::*;
use vstd::string::StringExecFns;

use crate::ast::{AccessorType, Lit, Meta, NestedMeta, PackedAttribute};
use crate::definition::Fault;
use crate::primitives::IntType;

verus! {

/// The option that one entry of a list sets; `is_repr` tells that the list
/// is that of a `repr` attribute, where a bare name is in order.
pub open spec fn spec_from_nested(is_repr: bool, nested: NestedMeta) -> Result<
    PackedAttribute,
    Fault,
> {
    match nested {
        NestedMeta::Lit(lit) => Err(Fault::UnexpectedLiteral),
        NestedMeta::Meta(Meta::List { path, nested }) => Err(Fault::UnexpectedMetaList),
        NestedMeta::Meta(Meta::Path(path)) => if !is_repr {
            Err(Fault::UnexpectedMetaPath)
        } else {
            match IntType::spec_from_name(path@) {
                Some(repr) => Ok(PackedAttribute::Repr(repr)),
                None => Ok(PackedAttribute::Layout(path)),
            }
        },
        NestedMeta::Meta(Meta::NameValue { path, lit }) => if path@ == "value"@ {
            Ok(PackedAttribute::Value(lit))
        } else if path@ == "accessor"@ {
            match lit {
                Lit::Str { token, value } => Ok(
                    PackedAttribute::Accessor(AccessorType::Custom(value)),
                ),
                Lit::Bool { value } => if value {
                    Ok(PackedAttribute::Accessor(AccessorType::Default))
                } else {
                    Ok(PackedAttribute::Accessor(AccessorType::Ignore))
                },
                _ => Err(Fault::AccessorNotString),
            }
        } else {
            Err(Fault::UnknownMetaAttribute)
        },
    }
}

/// The options that the entries from position `from` on set, up to the
/// first that is a fault.
pub open spec fn spec_from_entries(is_repr: bool, entries: Seq<NestedMeta>) -> Result<
    Seq<PackedAttribute>,
    Fault,
>
    decreases entries.len(),
{
    if entries.len() == 0 {
        Ok(Seq::<PackedAttribute>::empty())
    } else {
        match spec_from_entries(is_repr, entries.drop_last()) {
            Err(fault) => Err(fault),
            Ok(front) => match spec_from_nested(is_repr, entries.last()) {
                Err(fault) => Err(fault),
                Ok(attribute) => Ok(front.push(attribute)),
            },
        }
    }
}

/// The options that an attribute sets.
pub open spec fn spec_from(meta: Meta) -> Result<Seq<PackedAttribute>, Fault> {
    match meta {
        Meta::List { path, nested } => spec_from_entries(path@ == "repr"@, nested@),
        _ => Err(Fault::ExpectingList),
    }
}

/// Tells whether `path` is the name `name`.
fn is_ident(path: &String, name: &str) -> (same: bool)
    ensures
        same == (path@ == name@),
{
    let wanted = String::from_str(name);
    *path == wanted
}

impl PackedAttribute {
    /// The option that one entry of a list sets; `is_repr` tells that the
    /// list is that of a `repr` attribute, where a bare name is in order.
    pub fn from_nested(is_repr: bool, nested: NestedMeta) -> (result: Result<
        PackedAttribute,
        Fault,
    >)
        ensures
            result == spec_from_nested(is_repr, nested),
    {
        match nested {
            NestedMeta::Lit(lit) => Err(Fault::UnexpectedLiteral),
            NestedMeta::Meta(Meta::List { path, nested }) => Err(Fault::UnexpectedMetaList),
            NestedMeta::Meta(Meta::Path(path)) => {
                if !is_repr {
                    Err(Fault::UnexpectedMetaPath)
                } else {
                    match IntType::from_name(path.as_str()) {
                        Some(repr) => Ok(PackedAttribute::Repr(repr)),
                        None => Ok(PackedAttribute::Layout(path)),
                    }
                }
            },
            NestedMeta::Meta(Meta::NameValue { path, lit }) => {
                if is_ident(&path, "value") {
                    Ok(PackedAttribute::Value(lit))
                } else if is_ident(&path, "accessor") {
                    match lit {
                        Lit::Str { token, value } => Ok(
                            PackedAttribute::Accessor(AccessorType::Custom(value)),
                        ),
                        Lit::Bool { value } => {
                            if value {
                                Ok(PackedAttribute::Accessor(AccessorType::Default))
                            } else {
                                Ok(PackedAttribute::Accessor(AccessorType::Ignore))
                            }
                        },
                        _ => Err(Fault::AccessorNotString),
                    }
                } else {
                    Err(Fault::UnknownMetaAttribute)
                }
            },
        }
    }

    /// The options that an attribute sets: those of the entries of its
    /// list, in their order, up to the first entry that is a fault.
    pub fn from(meta: Meta) -> (result: Result<Vec<PackedAttribute>, Fault>)
        ensures
            match (result, spec_from(meta)) {
                (Ok(list), Ok(expected)) => list@ == expected,
                (Err(fault), Err(expected)) => fault == expected,
                _ => false,
            },
    {
        match meta {
            Meta::List { path, nested } => {
                let is_repr = is_ident(&path, "repr");
                let mut list: Vec<PackedAttribute> = Vec::new();
                let mut rest = nested;
                let ghost all = rest@;
                let ghost mut done: int = 0;
                proof {
                    assert(all.take(0) =~= Seq::<NestedMeta>::empty());
                }
                while rest.len() > 0
                    invariant
                        0 <= done <= all.len(),
                        spec_from(meta) == spec_from_entries(is_repr, all),
                        rest@ == all.skip(done),
                        spec_from_entries(is_repr, all.take(done)) == Ok::<
                            Seq<PackedAttribute>,
                            Fault,
                        >(list@),
                    decreases rest@.len(),
                {
                    let entry = rest.remove(0);
                    proof {
                        assert(entry == all[done]);
                        assert(all.take(done + 1).drop_last() =~= all.take(done));
                        assert(rest@ =~= all.skip(done + 1));
                    }
                    match PackedAttribute::from_nested(is_repr, entry) {
                        Ok(attribute) => {
                            list.push(attribute);
                        },
                        Err(fault) => {
                            proof {
                                assert(all.take(done + 1).last() == all[done]);
                                assert(spec_from_entries(is_repr, all.take(done + 1)) == Err::<
                                    Seq<PackedAttribute>,
                                    Fault,
                                >(fault));
                                lemma_entries_fault(is_repr, all, done + 1);
                            }
                            return Err(fault);
                        },
                    }
                    proof {
                        done = done + 1;
                    }
                }
                proof {
                    assert(all.take(done) =~= all);
                }
                Ok(list)
            },
            _ => Err(Fault::ExpectingList),
        }
    }
}

/// Where the first `n` entries hold a fault, all the entries hold that
/// fault.
proof fn lemma_entries_fault(is_repr: bool, entries: Seq<NestedMeta>, n: int)
    requires
        0 <= n <= entries.len(),
        spec_from_entries(is_repr, entries.take(n)) is Err,
    ensures
        spec_from_entries(is_repr, entries) == spec_from_entries(is_repr, entries.take(n)),
    decreases entries.len(),
{
    if n < entries.len() {
        assert(entries.drop_last().take(n) =~= entries.take(n));
        lemma_entries_fault(is_repr, entries.drop_last(), n);
    } else {
        assert(entries.take(n) =~= entries);
    }
}

} // verus!
