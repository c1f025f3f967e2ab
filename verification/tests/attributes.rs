use packtool::ast::{
    AccessorType, Container, Data, Lit, Meta, NestedMeta, PackedAttribute, PackedEnum,
    PackedField, PackedStruct, PackedTuple, PackedVariant, Type,
};
use packtool::definition::{find_fault, Fault};
use packtool::primitives::{IntType, Integer};
use packtool::text::parse_decimal;
use packtool::{packed_definitions, View};

fn name_value(path: &str, lit: Lit) -> NestedMeta {
    NestedMeta::Meta(Meta::NameValue { path: String::from(path), lit })
}

fn list(path: &str, nested: Vec<NestedMeta>) -> Meta {
    Meta::List { path: String::from(path), nested }
}

#[test]
fn value_is_an_option() {
    let attribute =
        PackedAttribute::from_nested(false, name_value("value", Lit::string("\"tag\"", "tag")))
            .unwrap();
    match attribute {
        PackedAttribute::Value(Lit::Str { token, value }) => {
            assert_eq!(token, "\"tag\"");
            assert_eq!(value, "tag");
        }
        other => panic!("unexpected attribute: {:?}", other),
    }
}

#[test]
fn accessor_is_a_name_or_a_switch() {
    let named = PackedAttribute::from_nested(
        false,
        name_value("accessor", Lit::string("\"epoch\"", "epoch")),
    )
    .unwrap();
    assert!(matches!(named, PackedAttribute::Accessor(AccessorType::Custom(ref name)) if name == "epoch"));
    let on = PackedAttribute::from_nested(false, name_value("accessor", Lit::Bool { value: true }))
        .unwrap();
    assert!(matches!(on, PackedAttribute::Accessor(AccessorType::Default)));
    let off =
        PackedAttribute::from_nested(false, name_value("accessor", Lit::Bool { value: false }))
            .unwrap();
    assert!(matches!(off, PackedAttribute::Accessor(AccessorType::Ignore)));
    let number = PackedAttribute::from_nested(
        false,
        name_value("accessor", Lit::integer("1u8", Integer::Unsigned(1), IntType::U8)),
    );
    assert_eq!(number.unwrap_err(), Fault::AccessorNotString);
    assert_eq!(
        Fault::AccessorNotString.message(),
        "Set the value of the accessor: expecting a string literal"
    );
}

#[test]
fn entries_that_are_no_option_are_faults() {
    let literal = PackedAttribute::from_nested(false, NestedMeta::Lit(Lit::Bool { value: true }));
    assert_eq!(literal.unwrap_err(), Fault::UnexpectedLiteral);
    let nested = PackedAttribute::from_nested(false, NestedMeta::Meta(list("inner", vec![])));
    assert_eq!(nested.unwrap_err(), Fault::UnexpectedMetaList);
    let bare = PackedAttribute::from_nested(false, NestedMeta::Meta(Meta::Path(String::from("u8"))));
    assert_eq!(bare.unwrap_err(), Fault::UnexpectedMetaPath);
    let unknown = PackedAttribute::from_nested(false, name_value("size", Lit::Bool { value: true }));
    assert_eq!(unknown.unwrap_err(), Fault::UnknownMetaAttribute);
    assert_eq!(Fault::UnexpectedLiteral.message(), "Unexpected literal");
    assert_eq!(Fault::UnexpectedMetaList.message(), "unexpected meta list");
    assert_eq!(Fault::UnexpectedMetaPath.message(), "unexpected meta path");
    assert_eq!(Fault::UnknownMetaAttribute.message(), "Unknown meta attribute");
}

#[test]
fn repr_names_the_width() {
    let width =
        PackedAttribute::from_nested(true, NestedMeta::Meta(Meta::Path(String::from("u16"))))
            .unwrap();
    assert!(matches!(width, PackedAttribute::Repr(IntType::U16)));
    let layout =
        PackedAttribute::from_nested(true, NestedMeta::Meta(Meta::Path(String::from("C"))))
            .unwrap();
    assert!(matches!(layout, PackedAttribute::Layout(ref name) if name == "C"));
}

#[test]
fn attributes_are_lists() {
    let attributes = PackedAttribute::from(list(
        "packed",
        vec![
            name_value("value", Lit::string("\"tag\"", "tag")),
            name_value("accessor", Lit::Bool { value: false }),
        ],
    ))
    .unwrap();
    assert_eq!(attributes.len(), 2);
    assert!(matches!(attributes[0], PackedAttribute::Value(_)));
    assert!(matches!(attributes[1], PackedAttribute::Accessor(AccessorType::Ignore)));

    let attributes = PackedAttribute::from(list(
        "repr",
        vec![
            NestedMeta::Meta(Meta::Path(String::from("C"))),
            NestedMeta::Meta(Meta::Path(String::from("i64"))),
        ],
    ))
    .unwrap();
    assert!(matches!(attributes[0], PackedAttribute::Layout(_)));
    assert!(matches!(attributes[1], PackedAttribute::Repr(IntType::I64)));

    assert!(PackedAttribute::from(list("packed", vec![])).unwrap().is_empty());

    let bare = PackedAttribute::from(Meta::Path(String::from("packed")));
    assert_eq!(bare.unwrap_err(), Fault::ExpectingList);
    let assigned = PackedAttribute::from(Meta::NameValue {
        path: String::from("packed"),
        lit: Lit::Bool { value: true },
    });
    assert_eq!(assigned.unwrap_err(), Fault::ExpectingList);
    assert_eq!(
        Fault::ExpectingList.message(),
        "expecting a list of packed parameters ([\"value\", \"accessor\"])"
    );
}

#[test]
fn first_faulty_entry_is_reported() {
    let attributes = PackedAttribute::from(list(
        "packed",
        vec![
            name_value("value", Lit::string("\"tag\"", "tag")),
            name_value("size", Lit::Bool { value: true }),
            NestedMeta::Lit(Lit::Bool { value: true }),
        ],
    ));
    assert_eq!(attributes.unwrap_err(), Fault::UnknownMetaAttribute);
    // a bare name is in order in `repr` only
    let attributes = PackedAttribute::from(list(
        "packed",
        vec![NestedMeta::Meta(Meta::Path(String::from("u8")))],
    ));
    assert_eq!(attributes.unwrap_err(), Fault::UnexpectedMetaPath);
}

#[test]
fn decimal_digits_are_numbers() {
    assert_eq!(parse_decimal("0"), Some(0));
    assert_eq!(parse_decimal("42"), Some(42));
    assert_eq!(parse_decimal("007"), Some(7));
    assert_eq!(
        parse_decimal("340282366920938463463374607431768211455"),
        Some(u128::MAX)
    );
    assert_eq!(parse_decimal("340282366920938463463374607431768211456"), None);
    assert_eq!(parse_decimal("3402823669209384634633746074317682114550"), None);
    assert_eq!(parse_decimal(""), None);
    assert_eq!(parse_decimal("-1"), None);
    assert_eq!(parse_decimal("1_000"), None);
    assert_eq!(parse_decimal("12a"), None);
    assert_eq!(parse_decimal("\u{0661}"), None);
}

#[test]
fn integers_are_read_with_sign_and_range() {
    assert_eq!(Integer::from_decimal(false, "42", false), Some(Integer::Unsigned(42)));
    assert_eq!(Integer::from_decimal(false, "42", true), Some(Integer::Signed(42)));
    assert_eq!(Integer::from_decimal(true, "42", false), Some(Integer::Signed(-42)));
    assert_eq!(Integer::from_decimal(true, "0", true), Some(Integer::Signed(0)));
    assert_eq!(
        Integer::from_decimal(true, "170141183460469231731687303715884105728", true),
        Some(Integer::Signed(i128::MIN))
    );
    assert_eq!(
        Integer::from_decimal(true, "170141183460469231731687303715884105729", true),
        None
    );
    assert_eq!(
        Integer::from_decimal(false, "170141183460469231731687303715884105727", true),
        Some(Integer::Signed(i128::MAX))
    );
    assert_eq!(
        Integer::from_decimal(false, "170141183460469231731687303715884105728", true),
        None
    );
    assert_eq!(
        Integer::from_decimal(false, "170141183460469231731687303715884105728", false),
        Some(Integer::Unsigned(1 << 127))
    );
    assert_eq!(Integer::from_decimal(false, "x", false), None);
}

#[test]
fn integer_literals_from_their_digits() {
    match Lit::from_digits("0b0010_1010u8", false, "42", "u8").unwrap() {
        Lit::Int { token, value, suffix } => {
            assert_eq!(token, "0b0010_1010u8");
            assert_eq!(value, Integer::Unsigned(42));
            assert_eq!(suffix, Some(IntType::U8));
        }
        other => panic!("unexpected literal: {:?}", other),
    }
    match Lit::from_digits("0x0011i16", false, "17", "i16").unwrap() {
        Lit::Int { value, suffix, .. } => {
            assert_eq!(value, Integer::Signed(17));
            assert_eq!(suffix, Some(IntType::I16));
        }
        other => panic!("unexpected literal: {:?}", other),
    }
    match Lit::from_digits("-1i8", true, "1", "i8").unwrap() {
        Lit::Int { value, .. } => assert_eq!(value, Integer::Signed(-1)),
        other => panic!("unexpected literal: {:?}", other),
    }
    match Lit::from_digits("12", false, "12", "").unwrap() {
        Lit::Int { value, suffix, .. } => {
            assert_eq!(value, Integer::Unsigned(12));
            assert_eq!(suffix, None);
        }
        other => panic!("unexpected literal: {:?}", other),
    }
    assert_eq!(
        Lit::from_digits("1f32", false, "1", "f32").unwrap_err(),
        Fault::UnknownSuffix
    );
    assert_eq!(
        Lit::from_digits("1", false, "", "u8").unwrap_err(),
        Fault::IntegerOutOfRange
    );
    // a literal that its type has no room for is made, and refused as a definition
    let wide = Lit::from_digits("256u8", false, "256", "u8").unwrap();
    assert_eq!(find_fault(&Container::unit("Wide", wide)), Err(Fault::IntegerOutOfRange));

    let tag = Lit::from_digits("0x0011u16", false, "17", "u16").unwrap();
    let definition = packed_definitions(Container::unit("Tag", tag)).unwrap();
    assert!(definition.view(&[0x11, 0x00]).is_ok());
    assert_eq!(
        definition.view(&[0x11, 0x01]).unwrap_err().to_string(),
        "Assumption `int == 0x0011u16` failed for u16: Invalid packed integer, expected 17 but received 273"
    );
}

#[test]
fn composites_without_fields_become_units() {
    let data = Data::from_tuple(PackedTuple { ident: String::from("Unit"), fields: vec![] });
    assert!(matches!(data, Data::Unit(ref unit) if unit.ident == "Unit"));
    let data = Data::from_struct(PackedStruct { ident: String::from("Unit"), fields: vec![] });
    assert!(matches!(data, Data::Unit(ref unit) if unit.ident == "Unit"));
    let data = Data::from_tuple(PackedTuple {
        ident: String::from("One"),
        fields: vec![PackedField::unnamed(Type::Int(IntType::U8))],
    });
    assert!(matches!(data, Data::Tuple(ref tuple) if tuple.fields.len() == 1));
    let data = Data::from_struct(PackedStruct {
        ident: String::from("One"),
        fields: vec![PackedField::named("a", Type::Int(IntType::U8))],
    });
    assert!(matches!(data, Data::Struct(ref structure) if structure.fields.len() == 1));
    assert_eq!(data.ident(), "One");

    let empty = Data::from_enum(PackedEnum { ident: String::from("Never"), variants: vec![] });
    assert_eq!(empty.unwrap_err(), Fault::NoVariant);
    let data = Data::from_enum(PackedEnum {
        ident: String::from("One"),
        variants: vec![PackedVariant::new("A", Integer::Unsigned(1))],
    })
    .unwrap();
    assert!(matches!(data, Data::Enum(_)));
}

#[test]
fn accessors_are_listed_with_their_ranges() {
    let schema = Container::structure(
        "Header",
        vec![
            PackedField::named("version", Type::Int(IntType::I32))
                .with_accessor(AccessorType::Custom(String::from("get_version"))),
            PackedField::named("prev_block", Type::Bytes(32)).with_accessor(AccessorType::Ignore),
            PackedField::named("merkle_root", Type::Bytes(32)),
            PackedField::named("timestamp", Type::Int(IntType::U32)),
            PackedField::named("difficulty_target", Type::Int(IntType::U32)),
            PackedField::named("nonce", Type::Int(IntType::U32)),
        ],
    );
    let definition = packed_definitions(schema).unwrap();
    assert_eq!(definition.size(), 80);
    let accessors: Vec<(String, usize, usize)> = definition
        .accessors()
        .into_iter()
        .map(|accessor| (accessor.name, accessor.start, accessor.end))
        .collect();
    assert_eq!(
        accessors,
        vec![
            (String::from("get_version"), 0, 4),
            (String::from("merkle_root"), 36, 68),
            (String::from("timestamp"), 68, 72),
            (String::from("difficulty_target"), 72, 76),
            (String::from("nonce"), 76, 80),
        ]
    );

    let mut block = [0u8; 80];
    block[0] = 2;
    block[68..72].copy_from_slice(&0x5454_1b35u32.to_le_bytes());
    let view = definition.view(&block).unwrap();
    assert_eq!(
        view.accessor("get_version").unwrap().unpack(),
        packtool::value::Value::Integer(Integer::Signed(2))
    );
    assert_eq!(
        view.accessor("timestamp").unwrap().unpack(),
        packtool::value::Value::Integer(Integer::Unsigned(0x5454_1b35))
    );
    assert!(view.accessor("version").is_none());
    let bytes: &[u8] = view.as_ref();
    assert_eq!(bytes, &block[..]);
    let _copy: View<'_, Container> = view;

    let unit = packed_definitions(Container::unit("Tag", Lit::byte("b'x'", b'x'))).unwrap();
    assert!(unit.accessors().is_empty());
}
