use packtool::ast::{Container, PackedVariant};
use packtool::definition::{find_fault, Fault};
use packtool::error::Error;
use packtool::primitives::{IntType, Integer};
use packtool::value::Value;
use packtool::{Packed, View};

fn one_u8_schema() -> Container {
    Container::enumeration(
        "enum::OneU8",
        IntType::U8,
        vec![PackedVariant::new("One", Integer::Unsigned(1))],
    )
}

fn two_u8_schema() -> Container {
    Container::enumeration(
        "enum::TwoU8",
        IntType::U32,
        vec![
            PackedVariant::new("One", Integer::Unsigned(42)),
            PackedVariant::new("Two", Integer::Unsigned(0x00FF00FF)),
        ],
    )
}

fn accepts(schema: &Container, variant: Value, slice: &[u8]) {
    assert_eq!(find_fault(schema), Ok(()));
    let view = View::try_from_slice(schema, slice).unwrap();
    let decoded = view.unpack();
    assert_eq!(decoded, variant);

    let mut written = vec![0; Packed::size(schema)];
    schema.unchecked_write_to_slice(&variant, &mut written);
    assert_eq!(slice, &written[..]);
}

fn rejects(schema: &Container, message: &str, slice: &[u8]) {
    assert_eq!(find_fault(schema), Ok(()));
    let err = View::try_from_slice(schema, slice).unwrap_err();

    assert_eq!(err.to_string(), message);
}

#[test]
fn one_u8() {
    accepts(&one_u8_schema(), Value::Variant(0), &[1u8]);

    rejects(&one_u8_schema(), "Invalid discriminant for enum::OneU8, received 0 while expecting one of: [ 1]", &[0u8]);
    rejects(&one_u8_schema(), "Invalid size for enum::OneU8: expected 1 bytes but received 2 bytes", &[0u8, 1]);
}

#[test]
fn two_u8() {
    accepts(&two_u8_schema(), Value::Variant(0), &[42, 0, 0, 0]);
    accepts(&two_u8_schema(), Value::Variant(1), &[0xFF, 0, 0xFF, 0]);

    rejects(&two_u8_schema(), "Invalid size for enum::TwoU8: expected 4 bytes but received 1 bytes", &[0]);
    rejects(&two_u8_schema(), "Invalid discriminant for enum::TwoU8, received 0 while expecting one of: [ 42, 16711935]", &[0, 0, 0, 0]);
    rejects(&two_u8_schema(), "Invalid size for enum::TwoU8: expected 4 bytes but received 6 bytes", &[0, 0, 0, 0, 0, 0]);
}

#[test]
fn invalid_discriminant_carries_found_and_options() {
    let schema = one_u8_schema();
    assert_eq!(find_fault(&schema), Ok(()));
    match View::try_from_slice(&schema, &[0u8]).unwrap_err() {
        Error::InvalidDiscriminant { ty, options, found } => {
            assert_eq!(ty, "enum::OneU8");
            assert_eq!(options, "1");
            assert_eq!(found, Integer::Unsigned(0));
        }
        other => panic!("unexpected error: {:?}", other),
    }
}

#[test]
fn signed_discriminants() {
    let schema = Container::enumeration(
        "Sign",
        IntType::I8,
        vec![
            PackedVariant::new("Minus", Integer::Signed(-1)),
            PackedVariant::new("Zero", Integer::Signed(0)),
            PackedVariant::new("Least", Integer::Signed(-128)),
        ],
    );
    accepts(&schema, Value::Variant(0), &[0xFF]);
    accepts(&schema, Value::Variant(1), &[0x00]);
    accepts(&schema, Value::Variant(2), &[0x80]);
    rejects(
        &schema,
        "Invalid discriminant for Sign, received -2 while expecting one of: [ -1, 0, -128]",
        &[0xFE],
    );
}

#[test]
fn every_undeclared_byte_is_rejected() {
    let schema = two_u8_schema();
    assert_eq!(find_fault(&schema), Ok(()));
    for low in 0..=255u8 {
        let slice = [low, 0, 0, 0];
        let result = View::try_from_slice(&schema, &slice);
        if low == 42 {
            assert_eq!(result.unwrap().unpack(), Value::Variant(0));
        } else {
            let message = result.unwrap_err().to_string();
            assert!(message.ends_with("while expecting one of: [ 42, 16711935]"));
        }
    }
}

#[test]
fn equal_discriminants_are_refused() {
    let schema = Container::enumeration(
        "Twice",
        IntType::U8,
        vec![
            PackedVariant::new("A", Integer::Unsigned(7)),
            PackedVariant::new("B", Integer::Unsigned(8)),
            PackedVariant::new("C", Integer::Unsigned(7)),
        ],
    );
    assert_eq!(find_fault(&schema), Err(Fault::DuplicateDiscriminant));
    assert_eq!(
        Fault::DuplicateDiscriminant.message(),
        "discriminant value assigned more than once"
    );
}

#[test]
fn every_variant_round_trips() {
    let schema = two_u8_schema();
    assert_eq!(find_fault(&schema), Ok(()));
    for index in 0..2 {
        let mut slice = [0u8; 4];
        schema.unchecked_write_to_slice(&Value::Variant(index), &mut slice);
        let decoded = View::try_from_slice(&schema, &slice).unwrap().unpack();
        assert_eq!(decoded, Value::Variant(index));
    }
}
