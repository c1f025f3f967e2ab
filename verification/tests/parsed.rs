use packtool::ast::{PackedAttributes, PackedField, PackedStruct, PackedTuple, PackedUnit, Type};
use packtool::primitives::IntType;

fn fields_of(item: &syn::ItemStruct) -> Vec<PackedField> {
    item.fields
        .iter()
        .map(|field| {
            let ty = match &field.ty {
                syn::Type::Path(path) => path
                    .path
                    .get_ident()
                    .and_then(|ident| IntType::from_name(&ident.to_string()))
                    .map(Type::Int)
                    .unwrap_or(Type::Bytes(0)),
                _ => Type::Bytes(0),
            };
            PackedField {
                attributes: PackedAttributes::none(),
                ident: field.ident.as_ref().map(|ident| ident.to_string()),
                ty,
            }
        })
        .collect()
}

fn structure(text: &str) -> PackedStruct {
    let item: syn::ItemStruct = syn::parse_str(text).unwrap();
    assert!(matches!(item.fields, syn::Fields::Named(_)));
    PackedStruct { ident: item.ident.to_string(), fields: fields_of(&item) }
}

fn tuple(text: &str) -> PackedTuple {
    let item: syn::ItemStruct = syn::parse_str(text).unwrap();
    assert!(matches!(item.fields, syn::Fields::Unnamed(_)));
    PackedTuple { ident: item.ident.to_string(), fields: fields_of(&item) }
}

#[test]
fn packed_structure_equivalence_to_packed_unit() {
    let tuple: PackedStruct = structure("struct Unit {}");
    assert!(tuple.equivalent_to_packed_unit());

    let _unit: PackedUnit = tuple.into_unit();
}

#[test]
fn packed_tuple_equivalence_to_packed_unit() {
    let tuple: PackedTuple = tuple("struct Unit();");
    assert!(tuple.equivalent_to_packed_unit());

    let _unit: PackedUnit = tuple.into_unit();
}

#[test]
fn composites_with_fields_are_no_units() {
    let composite = structure("struct Unit { f1: u8, f2: u16 }");
    assert!(!composite.equivalent_to_packed_unit());
    assert_eq!(composite.ident(), "Unit");
    assert_eq!(composite.fields.len(), 2);
    let composite = tuple("struct Pair(u8, u32);");
    assert!(!composite.equivalent_to_packed_unit());
    assert_eq!(composite.fields.len(), 2);
}
