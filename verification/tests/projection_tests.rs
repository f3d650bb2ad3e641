use adf::reflect::{
    AdfReflectedPrimitive, AdfReflectedScalar, AdfReflectedValue, AdfReflectionContext,
    ADF_REFLECT_FUEL,
};
use adf::typed::{read_shared, write_shared, AdfReaderRefs, AdfWriterRefs};
use adf::types::{AdfFile, AdfMember, AdfMemberOffsets, AdfMemberValue, AdfPrimitive,
    AdfReadWriteError, AdfScalarType, AdfType, AdfVersion};
use adf::xml::{AdfXml, AdfXmlType, AdfXmlValue};

fn scalar_type(name: &[u8], hash: u32, size: u32) -> AdfType {
    AdfType {
        primitive: AdfPrimitive::Scalar,
        size,
        alignment: size,
        type_hash: hash,
        name: name.to_vec(),
        flags: 0,
        scalar_type: AdfScalarType::Unsigned,
        element_type_hash: 0,
        element_length: 0,
        members: Vec::new(),
        enumerations: Vec::new(),
    }
}

fn record_type(hash: u32, elem: u32) -> AdfType {
    AdfType {
        primitive: AdfPrimitive::Structure,
        size: 8,
        alignment: 4,
        type_hash: hash,
        name: b"Record".to_vec(),
        flags: 0,
        scalar_type: AdfScalarType::Unsigned,
        element_type_hash: 0,
        element_length: 0,
        members: vec![
            AdfMember {
                name: b"cols".to_vec(),
                type_hash: elem,
                alignment: 4,
                offsets: AdfMemberOffsets { byte_offset: 0, bit_offset: 0 },
                value: AdfMemberValue::UninitializedValue,
            },
            AdfMember {
                name: b"rows".to_vec(),
                type_hash: elem,
                alignment: 4,
                offsets: AdfMemberOffsets { byte_offset: 4, bit_offset: 0 },
                value: AdfMemberValue::UninitializedValue,
            },
        ],
        enumerations: Vec::new(),
    }
}

fn ctx_with(types: Vec<AdfType>) -> AdfReflectionContext {
    let mut ctx = AdfReflectionContext::new();
    ctx.load_types_from_file(&AdfFile {
        version: AdfVersion::V4,
        instances: Vec::new(),
        types,
        hashes: Vec::new(),
        description: Vec::new(),
    });
    ctx
}

#[test]
fn projection_and_reverse_reproduce_instance_bytes() {
    let ctx = ctx_with(vec![scalar_type(b"uint32", 0x2000, 4), record_type(0x1000, 0x2000)]);
    let mut f = AdfFile::default();
    let value = AdfReflectedValue(
        0x1000,
        AdfReflectedPrimitive::Structure(vec![
            AdfReflectedValue(0x2000, AdfReflectedPrimitive::Scalar(AdfReflectedScalar::U32(3))),
            AdfReflectedValue(0x2000, AdfReflectedPrimitive::Scalar(AdfReflectedScalar::U32(9))),
        ]),
    );
    ctx.write_instance(b"Book", &value, &mut f).expect("pack");
    let original = f.instances[0].buffer.clone();

    // project the file, rebuild each node, and pack it into a fresh file
    let xml = AdfXml::new(&f, &ctx, b"xlsc");
    assert_eq!(xml.extension, b"xlsc".to_vec());
    assert!(!xml.embedded_types);
    assert_eq!(xml.instances.len(), 1);
    assert_eq!(xml.instances[0].name, Some(b"Book".to_vec()));
    assert_eq!(xml.instances[0].members.len(), 2);
    assert_eq!(xml.instances[0].members[0].value, b"3".to_vec());
    // the used types appear once each, sorted by display name
    let labels: Vec<&[u8]> = xml.types.iter().map(|t| t.type_label.as_slice()).collect();
    assert_eq!(labels, vec![b"Record".as_slice(), b"u32".as_slice()]);

    let back = xml.convert(&ctx, ADF_REFLECT_FUEL).expect("rebuild");
    assert_eq!(back.instances.len(), 1);
    assert_eq!(back.instances[0].name, b"Book".to_vec());
    assert_eq!(back.instances[0].buffer, original);
}

#[test]
fn embedded_types_are_copied_with_defaults_cleared() {
    let ctx = ctx_with(vec![scalar_type(b"uint32", 0x2000, 4), record_type(0x1000, 0x2000)]);
    let xml = AdfXml {
        extension: b"xlsc".to_vec(),
        embedded_types: true,
        types: vec![
            AdfXmlType { type_label: b"Record".to_vec(), type_hash: 0x1000 },
            AdfXmlType { type_label: b"u32".to_vec(), type_hash: 0x2000 },
        ],
        instances: Vec::new(),
    };
    let back = xml.convert(&ctx, ADF_REFLECT_FUEL).expect("rebuild");
    // the scalar definition stays with the built-in table; the structure is
    // embedded with its member defaults cleared
    assert_eq!(back.types.len(), 1);
    assert_eq!(back.types[0].type_hash, 0x1000);
    assert!(back.types[0]
        .members
        .iter()
        .all(|m| m.value == AdfMemberValue::UninitializedValue));
}

#[test]
fn rebuilding_scalar_text_round_trips() {
    let ctx = ctx_with(vec![scalar_type(b"uint32", 0x2000, 4)]);
    let types = vec![AdfXmlType { type_label: b"u32".to_vec(), type_hash: 0x2000 }];
    let node = AdfXmlValue::leaf(b"u32".to_vec(), b"3405691582".to_vec());
    let v = node.to_value(&types, &ctx, 64).expect("rebuild");
    assert_eq!(v.0, 0x2000);
    match v.1 {
        AdfReflectedPrimitive::Scalar(AdfReflectedScalar::U32(x)) => {
            assert_eq!(x, 0xCAFEBABE)
        }
        other => panic!("unexpected payload: {:?}", other),
    }
    // an unknown display name is refused
    let bad = AdfXmlValue::leaf(b"u64".to_vec(), b"1".to_vec());
    assert!(bad.to_value(&types, &ctx, 64).is_err());
}

#[test]
fn shared_payload_is_written_once_and_slots_agree() {
    // a 16-byte head with two pointer slots sharing one payload
    let mut buf = vec![0u8; 16];
    let mut refs = AdfWriterRefs { tail: 16, entries: Vec::new() };
    let payload = b"shared-data";
    write_shared(&mut buf, 0, 7, payload, 1, 42, &mut refs).expect("first");
    let len_after_first = buf.len();
    write_shared(&mut buf, 8, 7, payload, 1, 42, &mut refs).expect("second");
    // the second emission appends nothing and records nothing new
    assert_eq!(buf.len(), len_after_first);
    assert_eq!(refs.entries.len(), 1);
    let s1 = u64::from_le_bytes(buf[0..8].try_into().unwrap());
    let s2 = u64::from_le_bytes(buf[8..16].try_into().unwrap());
    assert_eq!(s1, s2);
    assert_eq!(s1, 16);
    assert_eq!(&buf[16..16 + payload.len()], payload);
    // the same key under another type identity is refused
    assert!(matches!(
        write_shared(&mut buf, 8, 7, payload, 1, 43, &mut refs),
        Err(AdfReadWriteError::ReferenceError(7))
    ));
}

#[test]
fn shared_identity_is_restored_on_read() {
    let mut buf = vec![0u8; 16];
    buf[0] = 16;
    buf[8] = 16;
    let mut refs = AdfReaderRefs { entries: Vec::new() };
    let (k1, fresh1) = read_shared(&buf, 0, 42, &mut refs).expect("first");
    let (k2, fresh2) = read_shared(&buf, 8, 42, &mut refs).expect("second");
    assert_eq!(k1, 16);
    assert_eq!(k2, k1);
    assert!(fresh1);
    assert!(!fresh2);
    assert_eq!(refs.entries.len(), 1);
    // the same offset revisited as another type is refused
    assert!(matches!(
        read_shared(&buf, 8, 43, &mut refs),
        Err(AdfReadWriteError::ReferenceError(16))
    ));
}

#[test]
fn parse_project_rebuild_keeps_instances() {
    // a file that embeds only its structure type, as workbook files do
    let ctx = ctx_with(vec![scalar_type(b"uint32", 0x2000, 4), record_type(0x1000, 0x2000)]);
    let f = AdfFile {
        version: AdfVersion::V4,
        instances: vec![adf::types::AdfInstance {
            name: b"Book".to_vec(),
            type_hash: 0x1000,
            buffer: vec![3, 0, 0, 0, 9, 0, 0, 0],
            alignment: 8,
        }],
        types: vec![record_type(0x1000, 0x2000)],
        hashes: Vec::new(),
        description: Vec::new(),
    };
    let bytes = adf::container::serialize(&f).expect("write");
    let parsed = adf::parse::parse(&bytes).expect("parse");
    let xml = AdfXml::new(&parsed, &ctx, b"xlsc");
    assert!(xml.embedded_types);
    let back = xml.convert(&ctx, ADF_REFLECT_FUEL).expect("rebuild");
    assert_eq!(back.instances.len(), 1);
    assert_eq!(back.instances[0].name, b"Book".to_vec());
    assert_eq!(back.instances[0].buffer, parsed.instances[0].buffer);
    assert_eq!(back.types.len(), 1);
    assert_eq!(back.types[0].type_hash, 0x1000);
    // the rebuilt file serializes and parses like any other
    let bytes2 = adf::container::serialize(&back).expect("write");
    let parsed2 = adf::parse::parse(&bytes2).expect("parse");
    assert_eq!(parsed2.instances[0].buffer, parsed.instances[0].buffer);
}

#[test]
fn string_length_error_names_the_failing_position() {
    // corrupt a pool length byte so the first string's measured length
    // disagrees; the error carries the string's file position
    let f = AdfFile {
        version: AdfVersion::V4,
        instances: Vec::new(),
        types: vec![scalar_type(b"abc", 1, 4)],
        hashes: Vec::new(),
        description: Vec::new(),
    };
    let bytes = adf::container::serialize(&f).expect("write");
    let str_off = u32::from_le_bytes([bytes[36], bytes[37], bytes[38], bytes[39]]) as usize;
    let mut bad = bytes.clone();
    bad[str_off] = 5;
    match adf::parse::parse(&bad) {
        Err(adf::types::AdfParseError::StringLengthMismatch(pos)) => {
            assert_eq!(pos as usize, str_off + 1)
        }
        other => panic!("unexpected outcome: {:?}", other),
    }
}

#[test]
fn projection_emits_exactly_the_readable_instances_in_order() {
    let ctx = ctx_with(vec![scalar_type(b"uint32", 0x2000, 4)]);
    let mut f = AdfFile::default();
    let first = AdfReflectedValue(
        0x2000,
        AdfReflectedPrimitive::Scalar(AdfReflectedScalar::U32(7)),
    );
    let third = AdfReflectedValue(
        0x2000,
        AdfReflectedPrimitive::Scalar(AdfReflectedScalar::U32(11)),
    );
    ctx.write_instance(b"a", &first, &mut f).expect("pack");
    ctx.write_instance(b"c", &third, &mut f).expect("pack");
    // wedge an unreadable instance between the two: its type is unknown
    f.instances.insert(
        1,
        adf::types::AdfInstance {
            name: b"b".to_vec(),
            type_hash: 0xDEAD,
            buffer: vec![0, 0, 0, 0],
            alignment: 128,
        },
    );
    let xml = AdfXml::new(&f, &ctx, b"xlsc");
    // the bad instance is skipped; the good ones keep their file order
    assert_eq!(xml.instances.len(), 2);
    assert_eq!(xml.instances[0].name, Some(b"a".to_vec()));
    assert_eq!(xml.instances[1].name, Some(b"c".to_vec()));
}

#[test]
fn rebuild_rejects_a_node_without_a_name() {
    let ctx = ctx_with(vec![scalar_type(b"uint32", 0x2000, 4)]);
    let nameless = AdfXmlValue::leaf(b"u32".to_vec(), b"5".to_vec());
    let xml = AdfXml {
        extension: b"xlsc".to_vec(),
        embedded_types: false,
        types: vec![AdfXmlType { type_label: b"u32".to_vec(), type_hash: 0x2000 }],
        instances: vec![nameless],
    };
    match xml.convert(&ctx, ADF_REFLECT_FUEL) {
        Err(adf::xml::AdfXmlError::BadShape) => {}
        other => panic!("expected a shape error, got {:?}", other),
    }
}
