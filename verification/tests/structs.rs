use packtool::ast::{Container, Lit, PackedField, Type};
use packtool::definition::find_fault;
use packtool::error::Error;
use packtool::primitives::{IntType, Integer};
use packtool::value::Value;
use packtool::{Packed, View};

fn tag_tuple() -> Container {
    Container::unit("struct::TagTuple", Lit::byte_string("b\"tuple\"", b"tuple"))
}

fn tag_struct() -> Container {
    Container::unit("struct::TagStruct", Lit::byte_string("b\"struct\"", b"struct"))
}

fn tuple1_schema() -> Container {
    Container::tuple(
        "struct::Tuple1",
        vec![PackedField::unnamed(Type::Int(IntType::U8))],
    )
}

fn tuple2_schema() -> Container {
    Container::tuple(
        "struct::Tuple2",
        vec![
            PackedField::unnamed(Type::Int(IntType::U32)),
            PackedField::unnamed(Type::Int(IntType::U16)),
        ],
    )
}

fn tuple3_schema() -> Container {
    Container::tuple(
        "struct::Tuple3",
        vec![
            PackedField::unnamed(Type::packed(tag_struct())),
            PackedField::unnamed(Type::packed(tag_struct())),
            PackedField::unnamed(Type::packed(tag_tuple())),
        ],
    )
}

fn struct2_schema() -> Container {
    Container::structure(
        "struct::Struct2",
        vec![
            PackedField::named("tag", Type::packed(tag_struct())),
            PackedField::named("value", Type::Int(IntType::U16)),
        ],
    )
}

fn unsigned(value: u128) -> Value {
    Value::Integer(Integer::Unsigned(value))
}

fn accepts(schema: &Container, object: Value, slice: &[u8]) {
    assert_eq!(find_fault(schema), Ok(()));
    let view = View::try_from_slice(schema, slice).unwrap();
    let decoded = view.unpack();
    assert_eq!(decoded, object);

    let mut written = vec![0u8; Packed::size(schema)];
    schema.unchecked_write_to_slice(&object, &mut written);
    assert_eq!(slice, &written[..]);
}

#[test]
fn tuple1() {
    accepts(&tuple1_schema(), Value::Fields(vec![unsigned(0)]), &[0u8]);
    accepts(&tuple1_schema(), Value::Fields(vec![unsigned(42)]), &[42u8]);

    let schema = tuple1_schema();
    let _err = View::try_from_slice(&schema, &[0u8; 2]).unwrap_err();
}

#[test]
fn tuple2() {
    accepts(
        &tuple2_schema(),
        Value::Fields(vec![unsigned(0xFF), unsigned(0)]),
        &[0xFFu8, 0, 0, 0, 0, 0],
    );
}

#[test]
fn tuple3() {
    accepts(
        &tuple3_schema(),
        Value::Fields(vec![Value::Unit, Value::Unit, Value::Unit]),
        b"structstructtuple",
    );
}

#[test]
fn struct2() {
    accepts(
        &struct2_schema(),
        Value::Fields(vec![Value::Unit, unsigned(42)]),
        b"struct\x2a\x00",
    );
}

#[test]
fn wrong_size_is_reported_before_any_field() {
    let schema = tuple1_schema();
    assert_eq!(find_fault(&schema), Ok(()));
    match View::try_from_slice(&schema, &[0u8; 2]).unwrap_err() {
        Error::InvalidSize { ty, received, expected } => {
            assert_eq!(ty, "struct::Tuple1");
            assert_eq!(received, 2);
            assert_eq!(expected, 1);
        }
        other => panic!("unexpected error: {:?}", other),
    }
    let schema = tuple3_schema();
    assert_eq!(
        View::try_from_slice(&schema, b"xxxxxxstructtuple!")
            .unwrap_err()
            .to_string(),
        "Invalid size for struct::Tuple3: expected 17 bytes but received 18 bytes"
    );
}

#[test]
fn one_byte_short_or_long_is_an_invalid_size() {
    let schema = struct2_schema();
    assert_eq!(find_fault(&schema), Ok(()));
    assert_eq!(Packed::size(&schema), 8);
    assert_eq!(
        View::try_from_slice(&schema, b"struct\x2a").unwrap_err().to_string(),
        "Invalid size for struct::Struct2: expected 8 bytes but received 7 bytes"
    );
    assert_eq!(
        View::try_from_slice(&schema, b"struct\x2a\x00\x00").unwrap_err().to_string(),
        "Invalid size for struct::Struct2: expected 8 bytes but received 9 bytes"
    );
    assert!(View::try_from_slice(&schema, b"struct\x2a\x00").is_ok());
}

#[test]
fn first_failing_field_is_reported() {
    let schema = tuple3_schema();
    assert_eq!(find_fault(&schema), Ok(()));
    // the first and the third field are both wrong
    let error = View::try_from_slice(&schema, b"STRUCTstructTUPLE").unwrap_err();
    match &error {
        Error::Context { ty, error, cause } => {
            assert_eq!(ty, "()");
            match &**error {
                Error::InvalidTuple { ty, index } => {
                    assert_eq!(ty, "struct::TagStruct");
                    assert_eq!(*index, 0);
                }
                other => panic!("unexpected error: {:?}", other),
            }
            assert_eq!(
                cause.to_string(),
                "Assumption `slice == b\"struct\"` failed for struct::TagStruct: Invalid string, expected [115, 116, 114, 117, 99, 116] but received [83, 84, 82, 85, 67, 84]"
            );
        }
        other => panic!("unexpected error: {:?}", other),
    }
    assert_eq!(
        error.to_string(),
        "(): Tuple entry struct::TagStruct.0 is not valid"
    );

    // only the third field is wrong
    let error = View::try_from_slice(&schema, b"structstructTUPLE").unwrap_err();
    assert_eq!(
        error.to_string(),
        "(): Tuple entry struct::TagTuple.2 is not valid"
    );
}

#[test]
fn nested_failures_are_wrapped_at_every_level() {
    let inner = Container::structure(
        "Inner",
        vec![
            PackedField::named("count", Type::Int(IntType::U8)),
            PackedField::named("tag", Type::packed(tag_tuple())),
        ],
    );
    let outer = Container::tuple(
        "Outer",
        vec![
            PackedField::unnamed(Type::Bytes(2)),
            PackedField::unnamed(Type::packed(inner)),
        ],
    );
    assert_eq!(find_fault(&outer), Ok(()));
    assert_eq!(Packed::size(&outer), 8);
    let error = View::try_from_slice(&outer, b"\x00\x01\x07tuplE").unwrap_err();
    assert_eq!(error.to_string(), "(): Tuple entry Inner.1 is not valid");
    let inner_error = error.source().unwrap();
    assert_eq!(
        inner_error.to_string(),
        "(): Field tag of struct::TagTuple is not valid"
    );
    let leaf = inner_error.source().unwrap();
    assert_eq!(
        leaf.to_string(),
        "Assumption `slice == b\"tuple\"` failed for struct::TagTuple: Invalid string, expected [116, 117, 112, 108, 101] but received [116, 117, 112, 108, 69]"
    );
    assert!(leaf.source().is_none());

    let causes: Vec<String> = error.causes().iter().map(|cause| cause.to_string()).collect();
    assert_eq!(
        causes,
        vec![
            String::from("(): Field tag of struct::TagTuple is not valid"),
            String::from("Assumption `slice == b\"tuple\"` failed for struct::TagTuple: Invalid string, expected [116, 117, 112, 108, 101] but received [116, 117, 112, 108, 69]"),
        ]
    );
    assert!(leaf.causes().is_empty());

    let view = View::try_from_slice(&outer, b"\x00\x01\x07tuple").unwrap();
    assert_eq!(
        view.unpack(),
        Value::Fields(vec![
            Value::Bytes(vec![0, 1]),
            Value::Fields(vec![unsigned(7), Value::Unit]),
        ])
    );
}

#[test]
fn array_field_is_named_by_its_length() {
    assert_eq!(Type::Bytes(32).name(), "[u8; 32]");
    assert_eq!(Type::Int(IntType::I128).name(), "i128");
    assert_eq!(Type::packed(tag_tuple()).name(), "struct::TagTuple");
}

#[test]
fn empty_composite_takes_no_bytes() {
    let schema = Container::tuple("Empty", vec![]);
    assert_eq!(find_fault(&schema), Ok(()));
    assert_eq!(Packed::size(&schema), 0);
    let view = View::try_from_slice(&schema, &[]).unwrap();
    assert_eq!(view.unpack(), Value::Fields(vec![]));
}
