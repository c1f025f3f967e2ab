use std::cmp::Ordering;
use std::collections::hash_map::DefaultHasher;
use std::hash::{Hash, Hasher};

use packtool::ast::{AccessorType, Container, Lit, PackedField, PackedVariant, Type};
use packtool::definition::find_fault;
use packtool::primitives::{IntType, Integer};
use packtool::value::Value;
use packtool::{packed_definitions, Packed, Packet, View};

fn tag() -> Container {
    Container::unit("packcoin::Tag", Lit::string("\"packcoin\"", "packcoin"))
}

fn version() -> Container {
    Container::enumeration(
        "packcoin::Version",
        IntType::U8,
        vec![
            PackedVariant::new("V1", Integer::Unsigned(1)),
            PackedVariant::new("V2", Integer::Unsigned(2)),
        ],
    )
}

fn block_number() -> Container {
    Container::tuple(
        "packcoin::BlockNumber",
        vec![
            PackedField::unnamed(Type::Int(IntType::U32)),
            PackedField::unnamed(Type::Int(IntType::U32))
                .with_accessor(AccessorType::Custom(String::from("slot"))),
        ],
    )
}

fn header() -> Container {
    Container::structure(
        "packcoin::Header",
        vec![
            PackedField::named("tag", Type::packed(tag())),
            PackedField::named("version", Type::packed(version())),
            PackedField::named("block_number", Type::packed(block_number())),
            PackedField::named("hash", Type::Bytes(4)).with_accessor(AccessorType::Ignore),
        ],
    )
}

fn header_value() -> Value {
    Value::Fields(vec![
        Value::Unit,
        Value::Variant(0),
        Value::Fields(vec![
            Value::Integer(Integer::Unsigned(0)),
            Value::Integer(Integer::Unsigned(1)),
        ]),
        Value::Bytes(vec![9, 8, 7, 6]),
    ])
}

const HEADER: &[u8] = b"packcoin\x01\0\0\0\0\x01\0\0\0\x09\x08\x07\x06";

#[test]
fn sizes_add_up() {
    assert_eq!(Packed::size(&version()), 1);
    assert_eq!(Packed::size(&block_number()), 8);
    assert_eq!(Packed::size(&tag()), 8);
    let schema = header();
    assert_eq!(find_fault(&schema), Ok(()));
    assert_eq!(Packed::size(&schema), 21);
    assert_eq!(schema.field_range(0), (0, 8));
    assert_eq!(schema.field_range(1), (8, 9));
    assert_eq!(schema.field_range(2), (9, 17));
    assert_eq!(schema.field_range(3), (17, 21));
}

#[test]
fn pack_then_view_then_unpack() {
    let schema = header();
    assert_eq!(find_fault(&schema), Ok(()));
    assert!(schema.admits_value(&header_value()));
    let packet = Packet::pack(&schema, &header_value());
    assert_eq!(packet.as_slice(), HEADER);
    let view = packet.view();
    assert_eq!(view.as_slice(), HEADER);
    assert_eq!(view.unpack(), header_value());
    assert_eq!(packet.unpack(), header_value());
    let owned = view.to_owned();
    assert_eq!(owned.as_slice(), HEADER);
    assert_eq!(owned.unpack(), header_value());
    let copy = owned.clone();
    assert!(copy == owned);
    assert_eq!(copy.as_slice().as_ptr() == owned.as_slice().as_ptr(), false);
    let borrowed: &[u8] = std::borrow::Borrow::borrow(&copy);
    assert_eq!(borrowed, HEADER);
    let bytes: &[u8] = copy.as_ref();
    assert_eq!(bytes, HEADER);
    assert_eq!(Packed::name(&schema), "packcoin::Header");
}

#[test]
fn accessors_give_the_fields_without_copying() {
    let schema = header();
    assert_eq!(find_fault(&schema), Ok(()));
    let view = View::try_from_slice(&schema, HEADER).unwrap();

    let tag = view.accessor("tag").unwrap();
    assert_eq!(tag.as_slice(), b"packcoin");
    assert_eq!(tag.as_slice().as_ptr(), HEADER.as_ptr());
    assert_eq!(tag.unpack(), Value::Unit);

    let version = view.accessor("version").unwrap();
    assert_eq!(version.unpack(), Value::Variant(0));

    let block_number = view.accessor("block_number").unwrap();
    assert_eq!(block_number.as_slice(), &HEADER[9..17]);
    let block_number = block_number.described().unwrap();
    let epoch = block_number.accessor("_0").unwrap();
    assert_eq!(epoch.unpack(), Value::Integer(Integer::Unsigned(0)));
    assert!(epoch.described().is_none());
    let slot = block_number.accessor("slot").unwrap().unpack();
    assert_eq!(slot, Value::Integer(Integer::Unsigned(1)));
    assert!(block_number.accessor("_1").is_none());

    assert!(view.accessor("hash").is_none());
    assert!(view.accessor("nothing").is_none());
    let hash = view.field(3).unwrap();
    assert_eq!(hash.unpack(), Value::Bytes(vec![9, 8, 7, 6]));
    assert!(view.field(4).is_none());
}

#[test]
fn accessor_names() {
    let schema = block_number();
    let fields = schema.fields().unwrap();
    assert_eq!(fields[0].accessor(0), Some(String::from("_0")));
    assert_eq!(fields[0].accessor(12), Some(String::from("_12")));
    assert_eq!(fields[1].accessor(1), Some(String::from("slot")));
    assert_eq!(schema.find_accessor("_0"), Some(0));
    assert_eq!(schema.find_accessor("slot"), Some(1));
    assert_eq!(schema.find_accessor("_1"), None);
    let schema = header();
    assert_eq!(schema.find_accessor("version"), Some(1));
    assert_eq!(schema.find_accessor("hash"), None);
    assert!(tag().fields().is_none());
    assert_eq!(tag().find_accessor("tag"), None);
    let view_schema = tag();
    let view = View::try_from_slice(&view_schema, b"packcoin").unwrap();
    assert!(view.field(0).is_none());
}

#[test]
fn views_compare_by_their_bytes() {
    let schema = version();
    let other = Type::Int(IntType::U8);
    let one = View::try_from_slice(&schema, &[1]).unwrap();
    let two = View::try_from_slice(&schema, &[2]).unwrap();
    let plain_one = View::try_from_slice(&other, &[1]).unwrap();
    let plain_nine = View::try_from_slice(&other, &[9]).unwrap();
    assert!(one == one);
    assert!(one != two);
    assert!(one == plain_one);
    assert!(one != plain_nine);
    assert!(one < two);
    assert!(two < plain_nine);
    assert_eq!(one.partial_cmp(&plain_one), Some(Ordering::Equal));
    assert_eq!(two.partial_cmp(&plain_one), Some(Ordering::Greater));

    let short_schema = Type::Bytes(1);
    let long_schema = Type::Bytes(2);
    let short = View::try_from_slice(&short_schema, &[1]).unwrap();
    let long = View::try_from_slice(&long_schema, &[1, 0]).unwrap();
    assert!(short < long);
    assert!(short != long);
    assert_eq!(long.partial_cmp(&short), Some(Ordering::Greater));
}

fn hash_of<T: Hash + ?Sized>(value: &T) -> u64 {
    let mut hasher = DefaultHasher::new();
    value.hash(&mut hasher);
    hasher.finish()
}

#[test]
fn equal_bytes_hash_alike() {
    let schema = version();
    let other = Type::Int(IntType::U8);
    let one = View::try_from_slice(&schema, &[1]).unwrap();
    let plain_one = View::try_from_slice(&other, &[1]).unwrap();
    assert_eq!(hash_of(&one), hash_of(&plain_one));
    assert_eq!(hash_of(&one), hash_of(&[1u8][..]));
    assert_eq!(hash_of(&one.to_owned()), hash_of(&one));
}

#[test]
fn packets_compare_by_their_bytes() {
    let schema = version();
    let other = Type::Int(IntType::U8);
    let one = Packet::pack(&schema, &Value::Variant(0));
    let two = Packet::pack(&schema, &Value::Variant(1));
    let plain = Packet::pack(&other, &Value::Integer(Integer::Unsigned(1)));
    assert!(one == plain);
    assert!(one != two);
    assert!(one < two);
    assert_eq!(two.partial_cmp(&plain), Some(Ordering::Greater));
}

#[test]
fn definition_asks_nothing_of_the_caller() {
    let definition = packed_definitions(header()).unwrap();
    assert_eq!(definition.size(), 21);
    assert_eq!(definition.container().ident(), "packcoin::Header");
    let view = definition.view(HEADER).unwrap();
    assert_eq!(view.unpack(), header_value());
    assert_eq!(
        definition.view(&HEADER[1..]).unwrap_err().to_string(),
        "Invalid size for packcoin::Header: expected 21 bytes but received 20 bytes"
    );
    let packet = definition.pack(&header_value()).unwrap();
    assert_eq!(packet.as_slice(), HEADER);
    assert!(definition.pack(&Value::Unit).is_none());
    assert!(definition
        .pack(&Value::Fields(vec![Value::Unit, Value::Variant(2)]))
        .is_none());
}

#[test]
fn values_of_another_shape_are_not_admitted() {
    let schema = header();
    assert!(schema.admits_value(&header_value()));
    assert!(!schema.admits_value(&Value::Unit));
    assert!(!schema.admits_value(&Value::Fields(vec![])));
    assert!(!schema.admits_value(&Value::Fields(vec![
        Value::Unit,
        Value::Variant(2),
        Value::Fields(vec![
            Value::Integer(Integer::Unsigned(0)),
            Value::Integer(Integer::Unsigned(1)),
        ]),
        Value::Bytes(vec![9, 8, 7, 6]),
    ])));
    assert!(!schema.admits_value(&Value::Fields(vec![
        Value::Unit,
        Value::Variant(1),
        Value::Fields(vec![
            Value::Integer(Integer::Unsigned(0)),
            Value::Integer(Integer::Unsigned(1 << 32)),
        ]),
        Value::Bytes(vec![9, 8, 7, 6]),
    ])));
    assert!(!schema.admits_value(&Value::Fields(vec![
        Value::Unit,
        Value::Variant(1),
        Value::Fields(vec![
            Value::Integer(Integer::Unsigned(0)),
            Value::Integer(Integer::Unsigned(1)),
        ]),
        Value::Bytes(vec![9, 8, 7]),
    ])));
    assert!(Type::Int(IntType::I8).admits_value(&Value::Integer(Integer::Signed(-1))));
    assert!(!Type::Int(IntType::I8).admits_value(&Value::Integer(Integer::Unsigned(1))));
    assert!(!Type::Bytes(2).admits_value(&Value::Integer(Integer::Unsigned(1))));
    assert!(!tag().admits_value(&Value::Variant(0)));
    assert!(!version().admits_value(&Value::Unit));
}

#[test]
fn read_decodes_a_view() {
    let schema = header();
    assert_eq!(find_fault(&schema), Ok(()));
    let view = View::try_from_slice(&schema, HEADER).unwrap();
    assert_eq!(packtool::packed::read(view), header_value());
    let version = view.accessor("version").unwrap();
    assert_eq!(packtool::packed::read(version), Value::Variant(0));
}
