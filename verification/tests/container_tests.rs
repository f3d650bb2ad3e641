use adf::container::serialize;
use adf::hashing::hash_little32;
use adf::parse::parse;
use adf::types::{
    AdfEnum, AdfFile, AdfInstance, AdfMember, AdfMemberOffsets, AdfMemberValue, AdfParseError,
    AdfPrimitive, AdfScalarType, AdfType, AdfVersion, AdfWriteError,
};

fn le32(v: u32) -> Vec<u8> {
    vec![
        (v & 0xff) as u8,
        ((v >> 8) & 0xff) as u8,
        ((v >> 16) & 0xff) as u8,
        ((v >> 24) & 0xff) as u8,
    ]
}

fn header_only_bytes() -> Vec<u8> {
    let mut b = Vec::new();
    b.extend_from_slice(&[0x20, 0x46, 0x44, 0x41]);
    b.extend_from_slice(&le32(4));
    for _ in 0..8 {
        b.extend_from_slice(&le32(0));
    }
    // the file-size field counts the header and the description terminator
    b.truncate(40);
    b.extend_from_slice(&le32(65));
    b.extend_from_slice(&[0u8; 20]);
    b.push(0);
    b
}

fn scalar_type(name: &[u8], hash: u32, size: u32) -> AdfType {
    AdfType {
        primitive: AdfPrimitive::Scalar,
        size,
        alignment: size,
        type_hash: hash,
        name: name.to_vec(),
        flags: 0,
        scalar_type: AdfScalarType::Unsigned,
        element_type_hash: 0,
        element_length: 0,
        members: Vec::new(),
        enumerations: Vec::new(),
    }
}

#[test]
fn empty_file_serializes_to_header_only() {
    let f = AdfFile::default();
    let bytes = serialize(&f).expect("write");
    assert_eq!(bytes, header_only_bytes());
    assert_eq!(bytes.len(), 65);
}

#[test]
fn empty_file_round_trips_byte_identically() {
    let bytes = header_only_bytes();
    let parsed = parse(&bytes).expect("parse");
    assert_eq!(parsed.types.len(), 0);
    assert_eq!(parsed.instances.len(), 0);
    assert_eq!(parsed.hashes.len(), 0);
    assert_eq!(parsed.description, Vec::<u8>::new());
    let again = serialize(&parsed).expect("write");
    assert_eq!(again, bytes);
}

#[test]
fn parse_rejects_bad_magic() {
    let mut bytes = header_only_bytes();
    bytes[0] = 0x21;
    assert_eq!(parse(&bytes), Err(AdfParseError::BadMagic));
}

#[test]
fn parse_rejects_bad_version() {
    let mut bytes = header_only_bytes();
    bytes[4] = 5;
    assert_eq!(parse(&bytes), Err(AdfParseError::BadVersion));
}

#[test]
fn parse_rejects_truncated_header() {
    let bytes = vec![0x20, 0x46, 0x44, 0x41, 4, 0];
    assert_eq!(parse(&bytes), Err(AdfParseError::Truncated));
}

#[test]
fn file_with_type_and_instance_round_trips() {
    let t = scalar_type(b"u32", 0x1234, 4);
    let inst = AdfInstance {
        name: b"x".to_vec(),
        type_hash: 0x1234,
        buffer: vec![0xEF, 0xBE, 0xAD, 0xDE],
        alignment: 128,
    };
    let f = AdfFile {
        version: AdfVersion::V4,
        instances: vec![inst],
        types: vec![t],
        hashes: Vec::new(),
        description: b"demo".to_vec(),
    };
    let bytes = serialize(&f).expect("write");
    // the file-size field must equal the byte count produced
    let size_field = u32::from_le_bytes([bytes[40], bytes[41], bytes[42], bytes[43]]);
    assert_eq!(size_field as usize, bytes.len());
    let parsed = parse(&bytes).expect("parse");
    assert_eq!(parsed.types, f.types);
    assert_eq!(parsed.instances, f.instances);
    assert_eq!(parsed.description, f.description);
    // a second pass is byte-identical
    let again = serialize(&parsed).expect("write");
    assert_eq!(again, bytes);
    let parsed2 = parse(&again).expect("parse");
    assert_eq!(parsed2, parsed);
}

#[test]
fn instance_record_carries_its_name_hash() {
    let t = scalar_type(b"u32", 7, 4);
    let f = AdfFile {
        version: AdfVersion::V4,
        instances: vec![AdfInstance {
            name: b"box".to_vec(),
            type_hash: 7,
            buffer: vec![0; 4],
            alignment: 128,
        }],
        types: vec![t],
        hashes: Vec::new(),
        description: Vec::new(),
    };
    let bytes = serialize(&f).expect("write");
    let inst_off = u32::from_le_bytes([bytes[12], bytes[13], bytes[14], bytes[15]]) as usize;
    let stored = u32::from_le_bytes([
        bytes[inst_off],
        bytes[inst_off + 1],
        bytes[inst_off + 2],
        bytes[inst_off + 3],
    ]);
    assert_eq!(stored, hash_little32(b"box"));
    // a corrupted name hash is rejected on read
    let mut bad = bytes.clone();
    bad[inst_off] ^= 1;
    assert!(matches!(parse(&bad), Err(AdfParseError::Instance(_))));
}

#[test]
fn zero_size_instance_is_accepted() {
    let t = scalar_type(b"unit", 9, 0);
    let f = AdfFile {
        version: AdfVersion::V4,
        instances: vec![AdfInstance {
            name: b"nothing".to_vec(),
            type_hash: 9,
            buffer: Vec::new(),
            alignment: 128,
        }],
        types: vec![t],
        hashes: Vec::new(),
        description: Vec::new(),
    };
    let bytes = serialize(&f).expect("write");
    let parsed = parse(&bytes).expect("parse");
    assert_eq!(parsed.instances[0].buffer.len(), 0);
    assert_eq!(serialize(&parsed).expect("write"), bytes);
}

#[test]
fn pooled_string_lengths_zero_and_max_round_trip() {
    let t0 = scalar_type(b"", 1, 4);
    let t255 = scalar_type(&[0x61u8; 255], 2, 4);
    let f = AdfFile {
        version: AdfVersion::V4,
        instances: Vec::new(),
        types: vec![t0, t255],
        hashes: Vec::new(),
        description: Vec::new(),
    };
    let bytes = serialize(&f).expect("write");
    let parsed = parse(&bytes).expect("parse");
    assert_eq!(parsed.types[0].name.len(), 0);
    assert_eq!(parsed.types[1].name.len(), 255);
    assert_eq!(serialize(&parsed).expect("write"), bytes);
}

#[test]
fn pooled_string_longer_than_255_is_refused() {
    let t = scalar_type(&[0x61u8; 256], 3, 4);
    let f = AdfFile {
        version: AdfVersion::V4,
        instances: Vec::new(),
        types: vec![t],
        hashes: Vec::new(),
        description: Vec::new(),
    };
    assert_eq!(serialize(&f), Err(AdfWriteError::LengthOverflow));
}

#[test]
fn structure_and_enumeration_records_round_trip() {
    let member = AdfMember {
        name: b"field".to_vec(),
        type_hash: 42,
        alignment: 4,
        offsets: AdfMemberOffsets { byte_offset: 4, bit_offset: 3 },
        value: AdfMemberValue::InlineValue(77),
    };
    let st = AdfType {
        primitive: AdfPrimitive::Structure,
        size: 8,
        alignment: 4,
        type_hash: 100,
        name: b"pair".to_vec(),
        flags: 1,
        scalar_type: AdfScalarType::Signed,
        element_type_hash: 0,
        element_length: 0,
        members: vec![member],
        enumerations: Vec::new(),
    };
    let en = AdfType {
        primitive: AdfPrimitive::Enumeration,
        size: 4,
        alignment: 4,
        type_hash: 200,
        name: b"mode".to_vec(),
        flags: 0,
        scalar_type: AdfScalarType::Signed,
        element_type_hash: 0,
        element_length: 0,
        members: Vec::new(),
        enumerations: vec![
            AdfEnum { name: b"low".to_vec(), value: -1 },
            AdfEnum { name: b"high".to_vec(), value: 2 },
        ],
    };
    let f = AdfFile {
        version: AdfVersion::V4,
        instances: Vec::new(),
        types: vec![st, en],
        hashes: Vec::new(),
        description: Vec::new(),
    };
    let bytes = serialize(&f).expect("write");
    let parsed = parse(&bytes).expect("parse");
    assert_eq!(parsed.types, f.types);
    assert_eq!(serialize(&parsed).expect("write"), bytes);
}

#[test]
fn member_instance_reference_resolves_by_name_hash() {
    let target = AdfInstance {
        name: b"shared".to_vec(),
        type_hash: 5,
        buffer: vec![1, 2, 3, 4],
        alignment: 128,
    };
    let member = AdfMember {
        name: b"link".to_vec(),
        type_hash: 5,
        alignment: 4,
        offsets: AdfMemberOffsets { byte_offset: 0, bit_offset: 0 },
        value: AdfMemberValue::InstanceValue(0),
    };
    let st = AdfType {
        primitive: AdfPrimitive::Structure,
        size: 4,
        alignment: 4,
        type_hash: 77,
        name: b"holder".to_vec(),
        flags: 0,
        scalar_type: AdfScalarType::Signed,
        element_type_hash: 0,
        element_length: 0,
        members: vec![member],
        enumerations: Vec::new(),
    };
    let t5 = scalar_type(b"u32", 5, 4);
    let f = AdfFile {
        version: AdfVersion::V4,
        instances: vec![target],
        types: vec![t5, st],
        hashes: Vec::new(),
        description: Vec::new(),
    };
    let bytes = serialize(&f).expect("write");
    let parsed = parse(&bytes).expect("parse");
    assert_eq!(
        parsed.types[1].members[0].value,
        AdfMemberValue::InstanceValue(0)
    );
    assert_eq!(serialize(&parsed).expect("write"), bytes);
}
