use adf::container::serialize;
use adf::parse::parse;
use adf::reflect::{
    AdfReflectedPrimitive, AdfReflectedScalar, AdfReflectionContext,
};
use adf::types::{
    AdfFile, AdfInstance, AdfMember, AdfMemberOffsets, AdfMemberValue, AdfPrimitive,
    AdfScalarType, AdfType, AdfVersion,
};

fn u32_type(hash: u32) -> AdfType {
    AdfType {
        primitive: AdfPrimitive::Scalar,
        size: 4,
        alignment: 4,
        type_hash: hash,
        name: b"uint32".to_vec(),
        flags: 0,
        scalar_type: AdfScalarType::Unsigned,
        element_type_hash: 0,
        element_length: 0,
        members: Vec::new(),
        enumerations: Vec::new(),
    }
}

fn sheet_like_structure(hash: u32, elem: u32) -> AdfType {
    AdfType {
        primitive: AdfPrimitive::Structure,
        size: 8,
        alignment: 4,
        type_hash: hash,
        name: b"Record".to_vec(),
        flags: 0,
        scalar_type: AdfScalarType::Unsigned,
        element_type_hash: 0,
        element_length: 0,
        members: vec![
            AdfMember {
                name: b"cols".to_vec(),
                type_hash: elem,
                alignment: 4,
                offsets: AdfMemberOffsets { byte_offset: 0, bit_offset: 0 },
                value: AdfMemberValue::UninitializedValue,
            },
            AdfMember {
                name: b"rows".to_vec(),
                type_hash: elem,
                alignment: 4,
                offsets: AdfMemberOffsets { byte_offset: 4, bit_offset: 0 },
                value: AdfMemberValue::UninitializedValue,
            },
        ],
        enumerations: Vec::new(),
    }
}

#[test]
fn file_reflect_rewrite_is_byte_identical() {
    // Build a workbook-like file: a structure instance with two counters.
    let f = AdfFile {
        version: AdfVersion::V4,
        instances: vec![AdfInstance {
            name: b"Book".to_vec(),
            type_hash: 0x1000,
            buffer: vec![3, 0, 0, 0, 2, 0, 0, 0],
            alignment: 128,
        }],
        types: vec![u32_type(0x2000), sheet_like_structure(0x1000, 0x2000)],
        hashes: Vec::new(),
        description: Vec::new(),
    };
    let bytes = serialize(&f).expect("write");
    let parsed = parse(&bytes).expect("parse");

    // Reflect the instance with the file's own type table.
    let mut ctx = AdfReflectionContext::new();
    ctx.load_types_from_file(&parsed);
    let value = ctx.read_instance(&parsed.instances[0]).expect("read");
    match &value.1 {
        AdfReflectedPrimitive::Structure(ms) => {
            assert_eq!(ms.len(), 2);
            assert!(matches!(
                ms[0].1,
                AdfReflectedPrimitive::Scalar(AdfReflectedScalar::U32(3))
            ));
            assert!(matches!(
                ms[1].1,
                AdfReflectedPrimitive::Scalar(AdfReflectedScalar::U32(2))
            ));
        }
        other => panic!("unexpected payload: {:?}", other),
    }

    // Write the value back over the same instance and re-emit the file:
    // every byte must come out as it went in.
    let mut roundtrip = parsed.clone();
    ctx.write_instance(b"Book", &value, &mut roundtrip)
        .expect("write value");
    let again = serialize(&roundtrip).expect("write file");
    assert_eq!(again, bytes);
    assert_eq!(parse(&again).expect("parse"), parsed);
}

#[test]
fn unresolved_instance_reference_gets_a_placeholder() {
    // A member default value pointing at a name hash no instance carries:
    // the reader synthesizes a placeholder instead of failing.
    let mut st = sheet_like_structure(0x1000, 0x2000);
    st.members[0].value = AdfMemberValue::InstanceValue(0);
    let f = AdfFile {
        version: AdfVersion::V4,
        instances: vec![AdfInstance {
            name: b"present".to_vec(),
            type_hash: 0x2000,
            buffer: vec![0; 4],
            alignment: 128,
        }],
        types: vec![u32_type(0x2000), st],
        hashes: Vec::new(),
        description: Vec::new(),
    };
    let bytes = serialize(&f).expect("write");
    // Corrupt the stored reference hash so that it resolves to nothing.
    let parsed_ok = parse(&bytes).expect("parse");
    assert_eq!(parsed_ok.instances.len(), 1);

    // Find the member-value payload: flip a byte of the stored hash.
    let type_off = u32::from_le_bytes([bytes[20], bytes[21], bytes[22], bytes[23]]) as usize;
    // Second type record: fixed head of the first type (40 bytes), then the
    // structure head (36) + count (4); its first member's payload sits 24
    // bytes into the member record.
    let member_payload = type_off + 40 + 36 + 4 + 24;
    let mut bad = bytes.clone();
    bad[member_payload] ^= 0xFF;
    let parsed = parse(&bad).expect("parse with placeholder");
    assert_eq!(parsed.instances.len(), 2);
    assert_eq!(parsed.instances[1].name, Vec::<u8>::new());
    assert_eq!(parsed.instances[1].buffer.len(), 0);
    assert_eq!(
        parsed.types[1].members[0].value,
        AdfMemberValue::InstanceValue(1)
    );
}

#[test]
fn type_flags_keep_only_defined_bits() {
    let mut t = u32_type(0x2000);
    t.flags = 0x8003;
    let f = AdfFile {
        version: AdfVersion::V4,
        instances: Vec::new(),
        types: vec![t],
        hashes: Vec::new(),
        description: Vec::new(),
    };
    let bytes = serialize(&f).expect("write");
    let parsed = parse(&bytes).expect("parse");
    assert_eq!(parsed.types[0].flags, 0x8003);
    // Unknown bits in the stored word are dropped on read.
    let type_off = u32::from_le_bytes([bytes[20], bytes[21], bytes[22], bytes[23]]) as usize;
    let mut noisy = bytes.clone();
    noisy[type_off + 24] |= 0x0C;
    let parsed2 = parse(&noisy).expect("parse");
    assert_eq!(parsed2.types[0].flags, 0x8003);
}
