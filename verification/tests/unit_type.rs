use packtool::ast::{Container, Lit};
use packtool::definition::find_fault;
use packtool::error::Error;
use packtool::primitives::{IntType, Integer};
use packtool::value::Value;
use packtool::{Packed, View};

const INVALID_SLICE: &[u8] = b"invalid slice of random length";

fn accepts(schema: &Container, slice: &[u8]) {
    assert_eq!(find_fault(schema), Ok(()));
    let tag = View::try_from_slice(schema, slice).unwrap();
    let value = tag.unpack();
    assert_eq!(value, Value::Unit);

    let mut written = vec![0; Packed::size(schema)];
    schema.unchecked_write_to_slice(&Value::Unit, &mut written);

    assert_eq!(written, slice);
}

fn rejects(schema: &Container, slice: &[u8], message: &str) {
    assert_eq!(find_fault(schema), Ok(()));
    let err = View::try_from_slice(schema, slice).unwrap_err();

    assert_eq!(err.to_string(), message);
}

fn unsigned(ident: &str, token: &str, value: u128, suffix: IntType) -> Container {
    Container::unit(ident, Lit::integer(token, Integer::Unsigned(value), suffix))
}

fn signed(ident: &str, token: &str, value: i128, suffix: IntType) -> Container {
    Container::unit(ident, Lit::integer(token, Integer::Signed(value), suffix))
}

#[test]
fn struct_tuple_unit() {
    let schema = unsigned("unit_type::StructTupleUnit", "1u8", 1, IntType::U8);
    accepts(&schema, &[1]);
    rejects(&schema, INVALID_SLICE, "Invalid size for unit_type::StructTupleUnit: expected 1 bytes but received 30 bytes");
}

#[test]
fn struct_brace_unit() {
    let schema = unsigned("unit_type::StructBraceUnit", "1u8", 1, IntType::U8);
    accepts(&schema, &[1]);
    rejects(&schema, INVALID_SLICE, "Invalid size for unit_type::StructBraceUnit: expected 1 bytes but received 30 bytes");
}

#[test]
fn string() {
    let schema = Container::unit("unit_type::TagString", Lit::string("\"string\"", "string"));
    assert_eq!(Packed::size(&schema), 6);
    accepts(&schema, b"string");
    rejects(&schema, INVALID_SLICE, "Invalid size for unit_type::TagString: expected 6 bytes but received 30 bytes");
    rejects(&schema, b"almost", "Assumption `slice == \"string\".as_bytes()` failed for unit_type::TagString: Invalid string, expected string but received almost");
}

#[test]
fn string_mismatch_is_an_assumption() {
    let schema = Container::unit("unit_type::TagString", Lit::string("\"string\"", "string"));
    assert_eq!(find_fault(&schema), Ok(()));
    match View::try_from_slice(&schema, b"almost").unwrap_err() {
        Error::Assumption { ty, assumption, message } => {
            assert_eq!(ty, "unit_type::TagString");
            assert_eq!(assumption, "slice == \"string\".as_bytes()");
            assert_eq!(message, "Invalid string, expected string but received almost");
        }
        other => panic!("unexpected error: {:?}", other),
    }
}

#[test]
fn string_that_is_not_utf8_is_shown_with_replacements() {
    let schema = Container::unit("Tag", Lit::string("\"ab\"", "ab"));
    rejects(&schema, &[0x61, 0xFF], "Assumption `slice == \"ab\".as_bytes()` failed for Tag: Invalid string, expected ab but received a\u{FFFD}");
}

#[test]
fn string_of_several_bytes_per_character() {
    let schema = Container::unit("Tag", Lit::string("\"h\u{e9}\u{20ac}\"", "h\u{e9}\u{20ac}"));
    assert_eq!(find_fault(&schema), Ok(()));
    assert_eq!(Packed::size(&schema), 6);
    accepts(&schema, "h\u{e9}\u{20ac}".as_bytes());
}

#[test]
fn bytes() {
    let schema = Container::unit("unit_type::TagBytes", Lit::byte_string("b\"bytes\"", b"bytes"));
    accepts(&schema, b"bytes");
    rejects(&schema, INVALID_SLICE, "Invalid size for unit_type::TagBytes: expected 5 bytes but received 30 bytes");
    rejects(&schema, b"about", "Assumption `slice == b\"bytes\"` failed for unit_type::TagBytes: Invalid string, expected [98, 121, 116, 101, 115] but received [97, 98, 111, 117, 116]");
}

#[test]
fn empty_byte_string() {
    let schema = Container::unit("Nothing", Lit::byte_string("b\"\"", b""));
    assert_eq!(find_fault(&schema), Ok(()));
    assert_eq!(Packed::size(&schema), 0);
    accepts(&schema, b"");
    rejects(&schema, b"x", "Invalid size for Nothing: expected 0 bytes but received 1 bytes");
}

#[test]
fn single_byte() {
    let schema = Container::unit("Tag", Lit::byte("b'a'", b'a'));
    assert_eq!(find_fault(&schema), Ok(()));
    assert_eq!(Packed::size(&schema), 1);
    accepts(&schema, b"a");
    rejects(&schema, b"\xAF", "Assumption `slice[0] == b'a'` failed for Tag: Invalid byte string, expected 61 but received AF");
    rejects(&schema, b"\x0A", "Assumption `slice[0] == b'a'` failed for Tag: Invalid byte string, expected 61 but received A");
}

#[test]
fn char() {
    let schema = Container::unit("unit_type::TagChar", Lit::character("'a'", 'a'));
    accepts(&schema, b"a");
    rejects(&schema, INVALID_SLICE, "Invalid size for unit_type::TagChar: expected 1 bytes but received 30 bytes");
    rejects(&schema, b"A", "Assumption `c.chars().next() == Some('a')` failed for unit_type::TagChar: Invalid UTF8 encoded char, expected a but received A");
}

#[test]
fn char_of_three_bytes() {
    let schema = Container::unit("Euro", Lit::character("'\u{20ac}'", '\u{20ac}'));
    assert_eq!(find_fault(&schema), Ok(()));
    assert_eq!(Packed::size(&schema), 3);
    accepts(&schema, &[0xE2, 0x82, 0xAC]);
    rejects(&schema, b"abc", "Assumption `c.chars().next() == Some('\u{20ac}')` failed for Euro: Invalid UTF8 encoded char, expected \u{20ac} but received abc");
}

#[test]
fn char_that_is_not_utf8() {
    let schema = Container::unit("unit_type::TagChar", Lit::character("'a'", 'a'));
    assert_eq!(find_fault(&schema), Ok(()));
    let error = View::try_from_slice(&schema, &[0xFF]).unwrap_err();
    assert_eq!(
        error.to_string(),
        "&str: Failed to parse valid utf8 char from the slice"
    );
    let expected = std::str::from_utf8(&[0xFF]).unwrap_err().to_string();
    assert_eq!(error.source().unwrap().to_string(), expected);
    match error {
        Error::Context { ty, error, cause } => {
            assert_eq!(ty, "&str");
            assert!(matches!(*error, Error::Message(_)));
            assert!(matches!(*cause, Error::Custom(_)));
        }
        other => panic!("unexpected error: {:?}", other),
    }
}

#[test]
fn tag_u8() {
    let schema = unsigned("unit_type::TagU8", "0b0010_1010u8", 0b0010_1010, IntType::U8);
    accepts(&schema, &[42]);
    rejects(&schema, INVALID_SLICE, "Invalid size for unit_type::TagU8: expected 1 bytes but received 30 bytes");
    rejects(&schema, &[41], "Assumption `int == 0b0010_1010u8` failed for u8: Invalid packed integer, expected 42 but received 41");
}

#[test]
fn tag_u16() {
    let schema = unsigned("unit_type::TagU16", "0x0011u16", 0x0011, IntType::U16);
    accepts(&schema, &[0x11, 0x00]);
    rejects(&schema, INVALID_SLICE, "Invalid size for unit_type::TagU16: expected 2 bytes but received 30 bytes");
    rejects(&schema, &[0xAB, 0x00], "Assumption `int == 0x0011u16` failed for u16: Invalid packed integer, expected 17 but received 171");
}

#[test]
fn tag_u32() {
    let schema = unsigned("unit_type::TagU32", "0x0011_2233u32", 0x0011_2233, IntType::U32);
    accepts(&schema, &[0x33, 0x22, 0x11, 0x00]);
    rejects(&schema, INVALID_SLICE, "Invalid size for unit_type::TagU32: expected 4 bytes but received 30 bytes");
    rejects(&schema, &[0x33, 0x20, 0x11, 0x00], "Assumption `int == 0x0011_2233u32` failed for u32: Invalid packed integer, expected 1122867 but received 1122355");
}

#[test]
fn tag_u64() {
    let schema = unsigned("unit_type::TagU64", "0x0011_2233_4455_6677u64", 0x0011_2233_4455_6677, IntType::U64);
    accepts(&schema, &[0x77, 0x66, 0x55, 0x44, 0x33, 0x22, 0x11, 0x00]);
    rejects(&schema, INVALID_SLICE, "Invalid size for unit_type::TagU64: expected 8 bytes but received 30 bytes");
    rejects(&schema, &[0x77, 0xFF, 0xFF, 0x44, 0x44, 0x22, 0x11, 0x01], "Assumption `int == 0x0011_2233_4455_6677u64` failed for u64: Invalid packed integer, expected 4822678189205111 but received 76880345252757367");
}

#[test]
fn tag_u128() {
    let schema = unsigned(
        "unit_type::TagU128",
        "0x0011_2233_4455_6677_8899_AABB_CCDD_EEFFu128",
        0x0011_2233_4455_6677_8899_AABB_CCDD_EEFF,
        IntType::U128,
    );
    accepts(&schema, &[
        0xFF, 0xEE, 0xDD, 0xCC, 0xBB, 0xAA, 0x99, 0x88, 0x77, 0x66, 0x55, 0x44, 0x33, 0x22, 0x11, 0x00,
    ]);
    rejects(&schema, INVALID_SLICE, "Invalid size for unit_type::TagU128: expected 16 bytes but received 30 bytes");
    rejects(&schema, &[0; 16], "Assumption `int == 0x0011_2233_4455_6677_8899_AABB_CCDD_EEFFu128` failed for u128: Invalid packed integer, expected 88962710306127702866241727433142015 but received 0");
}

#[test]
fn tag_i8() {
    let schema = signed("unit_type::TagI8", "-1i8", -1, IntType::I8);
    accepts(&schema, &[0xFF]);
    rejects(&schema, INVALID_SLICE, "Invalid size for unit_type::TagI8: expected 1 bytes but received 30 bytes");
    rejects(&schema, &[0x01], "Assumption `int == -1i8` failed for i8: Invalid packed integer, expected -1 but received 1");
}

#[test]
fn tag_i16() {
    let schema = signed("unit_type::TagI16", "0x0011i16", 0x0011, IntType::I16);
    accepts(&schema, &[0x11, 0x00]);
    rejects(&schema, INVALID_SLICE, "Invalid size for unit_type::TagI16: expected 2 bytes but received 30 bytes");
    rejects(&schema, &[0xAB, 0x00], "Assumption `int == 0x0011i16` failed for i16: Invalid packed integer, expected 17 but received 171");
}

#[test]
fn tag_i32() {
    let schema = signed("unit_type::TagI32", "0x0011_2233i32", 0x0011_2233, IntType::I32);
    accepts(&schema, &[0x33, 0x22, 0x11, 0x00]);
    rejects(&schema, INVALID_SLICE, "Invalid size for unit_type::TagI32: expected 4 bytes but received 30 bytes");
    rejects(&schema, &[0x33, 0x20, 0x11, 0x00], "Assumption `int == 0x0011_2233i32` failed for i32: Invalid packed integer, expected 1122867 but received 1122355");
}

#[test]
fn tag_i64() {
    let schema = signed("unit_type::TagI64", "0x0011_2233_4455_6677i64", 0x0011_2233_4455_6677, IntType::I64);
    accepts(&schema, &[0x77, 0x66, 0x55, 0x44, 0x33, 0x22, 0x11, 0x00]);
    rejects(&schema, INVALID_SLICE, "Invalid size for unit_type::TagI64: expected 8 bytes but received 30 bytes");
    rejects(&schema, &[0x77, 0xFF, 0xFF, 0x44, 0x44, 0x22, 0x11, 0x01], "Assumption `int == 0x0011_2233_4455_6677i64` failed for i64: Invalid packed integer, expected 4822678189205111 but received 76880345252757367");
}

#[test]
fn tag_i128() {
    let schema = signed(
        "unit_type::TagI128",
        "0x0011_2233_4455_6677_8899_AABB_CCDD_EEFFi128",
        0x0011_2233_4455_6677_8899_AABB_CCDD_EEFF,
        IntType::I128,
    );
    accepts(&schema, &[
        0xFF, 0xEE, 0xDD, 0xCC, 0xBB, 0xAA, 0x99, 0x88, 0x77, 0x66, 0x55, 0x44, 0x33, 0x22, 0x11, 0x00,
    ]);
    rejects(&schema, INVALID_SLICE, "Invalid size for unit_type::TagI128: expected 16 bytes but received 30 bytes");
    rejects(&schema, &[0; 16], "Assumption `int == 0x0011_2233_4455_6677_8899_AABB_CCDD_EEFFi128` failed for i128: Invalid packed integer, expected 88962710306127702866241727433142015 but received 0");
}

#[test]
fn negative_integers_are_received_with_their_sign() {
    let schema = signed("Least", "-128i8", -128, IntType::I8);
    accepts(&schema, &[0x80]);
    rejects(&schema, &[0x81], "Assumption `int == -128i8` failed for i8: Invalid packed integer, expected -128 but received -127");
    let schema = signed("Wide", "-2i128", -2, IntType::I128);
    accepts(&schema, &[0xFE, 0xFF, 0xFF, 0xFF, 0xFF, 0xFF, 0xFF, 0xFF, 0xFF, 0xFF, 0xFF, 0xFF, 0xFF, 0xFF, 0xFF, 0xFF]);
    rejects(&schema, &[0, 0, 0, 0, 0, 0, 0, 0, 0, 0, 0, 0, 0, 0, 0, 0x80], "Assumption `int == -2i128` failed for i128: Invalid packed integer, expected -2 but received -170141183460469231731687303715884105728");
}

#[test]
fn mismatches_are_made_of_what_was_received() {
    let error = packtool::unit::string_mismatch("Tag", "\"tag\"", "tag", "TAG");
    assert_eq!(
        error.to_string(),
        "Assumption `slice == \"tag\".as_bytes()` failed for Tag: Invalid string, expected tag but received TAG"
    );
    let error = packtool::unit::char_mismatch("Tag", "'a'", 'a', Ok("b"));
    assert_eq!(
        error.to_string(),
        "Assumption `c.chars().next() == Some('a')` failed for Tag: Invalid UTF8 encoded char, expected a but received b"
    );
    let error = packtool::unit::char_mismatch("Tag", "'a'", 'a', Err(String::from("no text")));
    assert_eq!(
        error.to_string(),
        "&str: Failed to parse valid utf8 char from the slice"
    );
    assert_eq!(error.source().unwrap().to_string(), "no text");
    assert!(matches!(error, Error::Context { .. }));
}
