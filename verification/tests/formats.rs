use packtool::ast::{AccessorType, Container, Lit, PackedField, PackedVariant, Type};
use packtool::primitives::{IntType, Integer};
use packtool::value::Value;
use packtool::packed_definitions;

fn bytes_of(ident: &str, len: usize) -> Type {
    Type::packed(Container::tuple(ident, vec![PackedField::unnamed(Type::Bytes(len))]))
}

fn number_of(ident: &str, ty: IntType) -> Type {
    Type::packed(Container::tuple(ident, vec![PackedField::unnamed(Type::Int(ty))]))
}

fn type_flag() -> Container {
    Container::enumeration(
        "tar::TypeFlag",
        IntType::U8,
        vec![
            PackedVariant::new("NormalFile", Integer::Unsigned(0x30)),
            PackedVariant::new("HardLink", Integer::Unsigned(0x31)),
            PackedVariant::new("SymbolicLink", Integer::Unsigned(0x32)),
            PackedVariant::new("CharacterSpecial", Integer::Unsigned(0x33)),
            PackedVariant::new("BlockSpecial", Integer::Unsigned(0x34)),
            PackedVariant::new("Directory", Integer::Unsigned(0x35)),
            PackedVariant::new("Fifo", Integer::Unsigned(0x36)),
            PackedVariant::new("ContiguousFile", Integer::Unsigned(0x37)),
            PackedVariant::new("GlobalExtended", Integer::Unsigned(0x67)),
            PackedVariant::new("ExtendedHeader", Integer::Unsigned(0x78)),
        ],
    )
}

fn archive_header() -> Container {
    let ustar = Container::unit("tar::UStar", Lit::byte_string("b\"ustar\\x00\"", b"ustar\x00"));
    let version = Container::unit("tar::Version", Lit::byte_string("b\"00\"", b"00"));
    let padding = Container::unit(
        "tar::HeaderPadding",
        Lit::byte_string(
            "b\"\\x00\\x00\\x00\\x00\\x00\\x00\\x00\\x00\\x00\\x00\\x00\\x00\"",
            &[0u8; 12],
        ),
    );
    Container::structure(
        "tar::Header",
        vec![
            PackedField::named("filename", bytes_of("tar::FileName", 100)),
            PackedField::named("file_mode", bytes_of("tar::FileMode", 8)),
            PackedField::named("owner", number_of("tar::Owner", IntType::U64)),
            PackedField::named("group", number_of("tar::Group", IntType::U64)),
            PackedField::named("file_size", bytes_of("tar::FileSize", 12)),
            PackedField::named("last_update", bytes_of("tar::LastUpdate", 12)),
            PackedField::named("checksum", bytes_of("tar::Checksum", 8)),
            PackedField::named("type_flag", Type::packed(type_flag())),
            PackedField::named("linked_file", bytes_of("tar::FileName", 100)),
            PackedField::named("ustar", Type::packed(ustar)),
            PackedField::named("version", Type::packed(version)),
            PackedField::named("user_name", bytes_of("tar::OwnerUserName", 32)),
            PackedField::named("group_name", bytes_of("tar::OwnerGroupName", 32)),
            PackedField::named("device_major_number", bytes_of("tar::DeviceMajorNumber", 8)),
            PackedField::named("device_minor_number", bytes_of("tar::DeviceMinorNumber", 8)),
            PackedField::named("filename_prefix", bytes_of("tar::FileNamePrefix", 155)),
            PackedField::named("_padding", Type::packed(padding)),
        ],
    )
}

fn entry() -> Vec<u8> {
    let mut entry = vec![0u8; 512];
    entry[..9].copy_from_slice(b"hello.txt");
    entry[100..108].copy_from_slice(b"0000644\0");
    entry[124..136].copy_from_slice(b"00000000015\0");
    entry[156] = b'0';
    entry[257..263].copy_from_slice(b"ustar\0");
    entry[263..265].copy_from_slice(b"00");
    entry
}

#[test]
fn archive_header_takes_512_bytes() {
    let header = packed_definitions(archive_header()).unwrap();
    assert_eq!(header.size(), 512);

    let entry = entry();
    let view = header.view(&entry).unwrap();
    let name = view.accessor("filename").unwrap();
    assert_eq!(&name.as_slice()[..9], b"hello.txt");
    let size = view.accessor("file_size").unwrap();
    assert_eq!(size.as_slice(), b"00000000015\0");
    let flag = view.accessor("type_flag").unwrap();
    assert_eq!(flag.unpack(), Value::Variant(0));

    let packet = header.pack(&view.unpack()).unwrap();
    assert_eq!(packet.as_slice(), &entry[..]);
}

#[test]
fn archive_header_with_a_wrong_magic_is_refused() {
    let header = packed_definitions(archive_header()).unwrap();
    let mut entry = entry();
    entry[257..263].copy_from_slice(b"USTAR\0");
    entry[156] = b'9';
    let error = header.view(&entry).unwrap_err();
    // the flag comes first, so it is the flag that is reported
    assert_eq!(error.to_string(), "(): Field type_flag of tar::TypeFlag is not valid");
    entry[156] = b'5';
    let error = header.view(&entry).unwrap_err();
    assert_eq!(error.to_string(), "(): Field ustar of tar::UStar is not valid");
    assert_eq!(
        error.source().unwrap().to_string(),
        "Assumption `slice == b\"ustar\\x00\"` failed for tar::UStar: Invalid string, expected [117, 115, 116, 97, 114, 0] but received [85, 83, 84, 65, 82, 0]"
    );
}

#[test]
fn block_header_takes_80_bytes() {
    let hash = |name: &str| {
        PackedField::named(
            name,
            Type::packed(Container::tuple(
                "bitcoin::Hash",
                vec![PackedField::unnamed(Type::Bytes(32)).with_accessor(AccessorType::Ignore)],
            )),
        )
    };
    let header = Container::structure(
        "bitcoin::Header",
        vec![
            PackedField::named("version", number_of("bitcoin::Version", IntType::I32))
                .with_accessor(AccessorType::Custom(String::from("get_version"))),
            hash("prev_block"),
            hash("merkle_root"),
            PackedField::named("timestamp", Type::Int(IntType::U32)),
            PackedField::named("difficulty_target", Type::Int(IntType::U32)),
            PackedField::named("nonce", Type::Int(IntType::U32)),
        ],
    );
    let header = packed_definitions(header).unwrap();
    assert_eq!(header.size(), 80);

    let block: [u8; 80] = [
        0x02, 0x00, 0x00, 0x00, 0x03, 0x5a, 0xb1, 0x54, 0x18, 0x35, 0x70, 0x28, 0x2c, 0xe9, 0xaf,
        0xc0, 0xb4, 0x94, 0xc9, 0xfc, 0x6a, 0x3c, 0xfe, 0xa0, 0x5a, 0xa8, 0xc1, 0xad, 0xd2, 0xec,
        0xc5, 0x64, 0x90, 0x00, 0x00, 0x00, 0x03, 0x8b, 0xa3, 0xd7, 0x8e, 0x45, 0x00, 0xa5, 0xa7,
        0x57, 0x0d, 0xbe, 0x61, 0x96, 0x03, 0x98, 0xad, 0xd4, 0x41, 0x0d, 0x27, 0x8b, 0x21, 0xcd,
        0x97, 0x08, 0xe6, 0xd9, 0x74, 0x3f, 0x37, 0x4d, 0x54, 0x4f, 0xc0, 0x55, 0x22, 0x7f, 0x10,
        0x01, 0xc2, 0x9c, 0x1e, 0xa3,
    ];
    let view = header.view(&block).unwrap();
    let version = view.accessor("get_version").unwrap().described().unwrap();
    assert_eq!(
        version.unpack(),
        Value::Fields(vec![Value::Integer(Integer::Signed(2))])
    );
    let timestamp = view.accessor("timestamp").unwrap().unpack();
    assert_eq!(timestamp, Value::Integer(Integer::Unsigned(0x55c0_4f54)));
    let previous = view.accessor("prev_block").unwrap().described().unwrap();
    assert!(previous.accessor("_0").is_none());
    assert_eq!(previous.field(0).unwrap().as_slice(), &block[4..36]);
}
