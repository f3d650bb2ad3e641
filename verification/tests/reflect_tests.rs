use adf::reflect::{
    AdfReflectedPrimitive, AdfReflectedScalar, AdfReflectedValue, AdfReflectionContext,
};
use adf::types::{
    AdfFile, AdfInstance, AdfMember, AdfMemberOffsets, AdfPrimitive, AdfScalarType, AdfType,
    AdfMemberValue, AdfVersion,
};
use adf::xml::AdfXmlValue;

fn scalar_type(name: &[u8], hash: u32, size: u32, st: AdfScalarType) -> AdfType {
    AdfType {
        primitive: AdfPrimitive::Scalar,
        size,
        alignment: size,
        type_hash: hash,
        name: name.to_vec(),
        flags: 0,
        scalar_type: st,
        element_type_hash: 0,
        element_length: 0,
        members: Vec::new(),
        enumerations: Vec::new(),
    }
}

fn ctx_with(types: Vec<AdfType>) -> AdfReflectionContext {
    let mut ctx = AdfReflectionContext::new();
    let f = AdfFile {
        version: AdfVersion::V4,
        instances: Vec::new(),
        types,
        hashes: Vec::new(),
        description: Vec::new(),
    };
    ctx.load_types_from_file(&f);
    ctx
}

#[test]
fn scalar_instance_reads_and_writes_back() {
    let h = 0xAA55;
    let ctx = ctx_with(vec![scalar_type(b"u32", h, 4, AdfScalarType::Unsigned)]);
    let inst = AdfInstance {
        name: b"x".to_vec(),
        type_hash: h,
        buffer: vec![0xEF, 0xBE, 0xAD, 0xDE],
        alignment: 128,
    };
    let v = ctx.read_instance(&inst).expect("read");
    assert_eq!(v.0, h);
    match &v.1 {
        AdfReflectedPrimitive::Scalar(sc) => {
            assert_eq!(*sc, AdfReflectedScalar::U32(0xDEADBEEF))
        }
        other => panic!("unexpected payload: {:?}", other),
    }
    // writing the value back into a fresh file reproduces the bytes
    let mut f = AdfFile::default();
    ctx.write_instance(b"x", &v, &mut f).expect("write");
    assert_eq!(f.instances.len(), 1);
    assert_eq!(f.instances[0].buffer, vec![0xEF, 0xBE, 0xAD, 0xDE]);
}

#[test]
fn string_indirection_reads_and_rewrites() {
    let h = 0x5757;
    let mut st = scalar_type(b"String", h, 8, AdfScalarType::Unsigned);
    st.primitive = AdfPrimitive::String;
    let ctx = ctx_with(vec![st]);
    let mut buffer = vec![0u8; 16];
    buffer[0] = 16;
    buffer.extend_from_slice(b"hello\0");
    let inst = AdfInstance {
        name: b"s".to_vec(),
        type_hash: h,
        buffer,
        alignment: 128,
    };
    let v = ctx.read_instance(&inst).expect("read");
    match &v.1 {
        AdfReflectedPrimitive::StringData(bs) => assert_eq!(bs, b"hello"),
        other => panic!("unexpected payload: {:?}", other),
    }
    // writing into a fresh 8-byte payload appends the text at the tail
    let mut f = AdfFile::default();
    ctx.write_instance(b"s", &v, &mut f).expect("write");
    let out = &f.instances[0].buffer;
    assert_eq!(out.len(), 14);
    assert_eq!(u64::from_le_bytes(out[0..8].try_into().unwrap()), 8);
    assert_eq!(&out[8..14], b"hello\0");
}

fn bitfield_member_type(hash: u32, width: u32) -> AdfType {
    AdfType {
        primitive: AdfPrimitive::Bitfield,
        size: 4,
        alignment: 4,
        type_hash: hash,
        name: b"bits".to_vec(),
        flags: 0,
        scalar_type: AdfScalarType::Unsigned,
        element_type_hash: 0,
        element_length: width,
        members: Vec::new(),
        enumerations: Vec::new(),
    }
}

#[test]
fn structure_of_bitfields_round_trips() {
    let m0t = bitfield_member_type(11, 3);
    let m1t = bitfield_member_type(12, 5);
    let p = AdfType {
        primitive: AdfPrimitive::Structure,
        size: 4,
        alignment: 4,
        type_hash: 99,
        name: b"P".to_vec(),
        flags: 0,
        scalar_type: AdfScalarType::Unsigned,
        element_type_hash: 0,
        element_length: 0,
        members: vec![
            AdfMember {
                name: b"m0".to_vec(),
                type_hash: 11,
                alignment: 4,
                offsets: AdfMemberOffsets { byte_offset: 0, bit_offset: 0 },
                value: AdfMemberValue::UninitializedValue,
            },
            AdfMember {
                name: b"m1".to_vec(),
                type_hash: 12,
                alignment: 4,
                offsets: AdfMemberOffsets { byte_offset: 0, bit_offset: 3 },
                value: AdfMemberValue::UninitializedValue,
            },
        ],
        enumerations: Vec::new(),
    };
    let ctx = ctx_with(vec![m0t, m1t, p]);
    let value = AdfReflectedValue(
        99,
        AdfReflectedPrimitive::Structure(vec![
            AdfReflectedValue(11, AdfReflectedPrimitive::Bitfield(AdfReflectedScalar::U32(5))),
            AdfReflectedValue(12, AdfReflectedPrimitive::Bitfield(AdfReflectedScalar::U32(9))),
        ]),
    );
    let mut f = AdfFile::default();
    ctx.write_instance(b"p", &value, &mut f).expect("write");
    let buf = &f.instances[0].buffer;
    let word = u32::from_le_bytes(buf[0..4].try_into().unwrap());
    assert_eq!(word, (5 & 0x7) | ((9 & 0x1F) << 3));
    // reading the instance back yields the same member values
    let back = ctx.read_instance(&f.instances[0]).expect("read");
    match &back.1 {
        AdfReflectedPrimitive::Structure(ms) => {
            assert_eq!(ms.len(), 2);
            match (&ms[0].1, &ms[1].1) {
                (
                    AdfReflectedPrimitive::Bitfield(AdfReflectedScalar::U32(a)),
                    AdfReflectedPrimitive::Bitfield(AdfReflectedScalar::U32(b)),
                ) => {
                    assert_eq!(*a, 5);
                    assert_eq!(*b, 9);
                }
                other => panic!("unexpected members: {:?}", other),
            }
        }
        other => panic!("unexpected payload: {:?}", other),
    }
}

#[test]
fn full_width_bitfield_reads_whole_word_and_writes_back() {
    let bt = bitfield_member_type(21, 32);
    let ctx = ctx_with(vec![bt]);
    let inst = AdfInstance {
        name: b"w".to_vec(),
        type_hash: 21,
        buffer: vec![0x78, 0x56, 0x34, 0x12],
        alignment: 128,
    };
    let v = ctx.read_instance(&inst).expect("read");
    match &v.1 {
        AdfReflectedPrimitive::Bitfield(sc) => {
            assert_eq!(*sc, AdfReflectedScalar::U32(0x12345678))
        }
        other => panic!("unexpected payload: {:?}", other),
    }
    let mut f = AdfFile::default();
    ctx.write_instance(b"w", &v, &mut f).expect("write");
    assert_eq!(f.instances[0].buffer, vec![0x78, 0x56, 0x34, 0x12]);
}

#[test]
fn inline_array_reads_each_element() {
    let elem = scalar_type(b"u8", 31, 1, AdfScalarType::Unsigned);
    let arr = AdfType {
        primitive: AdfPrimitive::InlineArray,
        size: 3,
        alignment: 1,
        type_hash: 32,
        name: b"trio".to_vec(),
        flags: 0,
        scalar_type: AdfScalarType::Unsigned,
        element_type_hash: 31,
        element_length: 3,
        members: Vec::new(),
        enumerations: Vec::new(),
    };
    let ctx = ctx_with(vec![elem, arr]);
    let inst = AdfInstance {
        name: b"t".to_vec(),
        type_hash: 32,
        buffer: vec![7, 8, 9],
        alignment: 128,
    };
    let v = ctx.read_instance(&inst).expect("read");
    match &v.1 {
        AdfReflectedPrimitive::InlineArray(vs) => {
            assert_eq!(vs.len(), 3);
            for (k, expect) in [(0usize, 7u8), (1, 8), (2, 9)] {
                match &vs[k].1 {
                    AdfReflectedPrimitive::Scalar(AdfReflectedScalar::U8(b)) => {
                        assert_eq!(*b, expect)
                    }
                    other => panic!("unexpected element: {:?}", other),
                }
            }
        }
        other => panic!("unexpected payload: {:?}", other),
    }
}

#[test]
fn unknown_type_hash_is_reported() {
    let ctx = AdfReflectionContext::new();
    let inst = AdfInstance {
        name: b"x".to_vec(),
        type_hash: 1,
        buffer: Vec::new(),
        alignment: 128,
    };
    assert!(matches!(
        ctx.read_instance(&inst),
        Err(adf::reflect::AdfReflectError::TypeUnknown(1))
    ));
}

#[test]
fn reflected_values_project_to_named_text_nodes() {
    let m0t = bitfield_member_type(11, 3);
    let u32t = scalar_type(b"u32", 5, 4, AdfScalarType::Unsigned);
    let p = AdfType {
        primitive: AdfPrimitive::Structure,
        size: 8,
        alignment: 4,
        type_hash: 99,
        name: b"P".to_vec(),
        flags: 0,
        scalar_type: AdfScalarType::Unsigned,
        element_type_hash: 0,
        element_length: 0,
        members: vec![
            AdfMember {
                name: b"m0".to_vec(),
                type_hash: 11,
                alignment: 4,
                offsets: AdfMemberOffsets { byte_offset: 0, bit_offset: 0 },
                value: AdfMemberValue::UninitializedValue,
            },
            AdfMember {
                name: b"count".to_vec(),
                type_hash: 5,
                alignment: 4,
                offsets: AdfMemberOffsets { byte_offset: 4, bit_offset: 0 },
                value: AdfMemberValue::UninitializedValue,
            },
        ],
        enumerations: Vec::new(),
    };
    let ctx = ctx_with(vec![m0t, u32t, p]);
    let value = AdfReflectedValue(
        99,
        AdfReflectedPrimitive::Structure(vec![
            AdfReflectedValue(11, AdfReflectedPrimitive::Bitfield(AdfReflectedScalar::U32(5))),
            AdfReflectedValue(5, AdfReflectedPrimitive::Scalar(AdfReflectedScalar::U32(7))),
        ]),
    );
    let node = AdfXmlValue::from_value(&value, &ctx, 64).expect("project");
    assert_eq!(node.type_label, b"P".to_vec());
    assert_eq!(node.members.len(), 2);
    assert_eq!(node.members[0].name, Some(b"m0".to_vec()));
    assert_eq!(node.members[0].type_label, b"u32: 3".to_vec());
    assert_eq!(node.members[0].value, b"5".to_vec());
    assert_eq!(node.members[1].name, Some(b"count".to_vec()));
    assert_eq!(node.members[1].value, b"7".to_vec());
    let named = AdfXmlValue::from_value_named(&value, b"inst", &ctx, 64).expect("project");
    assert_eq!(named.name, Some(b"inst".to_vec()));
}

fn library_bytes(types: Vec<AdfType>) -> Vec<u8> {
    let f = AdfFile {
        version: AdfVersion::V4,
        instances: Vec::new(),
        types,
        hashes: Vec::new(),
        description: Vec::new(),
    };
    adf::container::serialize(&f).expect("library serializes")
}

#[test]
fn from_extension_loads_builtin_and_matching_libraries() {
    let builtin = adf::typed::AdfTypeLib {
        extension: Vec::new(),
        library: library_bytes(vec![scalar_type(b"u32", 0x100, 4, AdfScalarType::Unsigned)]),
    };
    let libs = vec![
        adf::typed::AdfTypeLib {
            extension: b"xlsc".to_vec(),
            library: library_bytes(vec![scalar_type(b"u16", 0x200, 2, AdfScalarType::Unsigned)]),
        },
        adf::typed::AdfTypeLib {
            extension: b"other".to_vec(),
            library: library_bytes(vec![scalar_type(b"u8", 0x300, 1, AdfScalarType::Unsigned)]),
        },
        // a second matching library that redefines a hash: the later load wins
        adf::typed::AdfTypeLib {
            extension: b"xlsc".to_vec(),
            library: library_bytes(vec![scalar_type(b"s16", 0x200, 2, AdfScalarType::Signed)]),
        },
    ];
    let ctx = AdfReflectionContext::from_extension(&builtin, &libs, b"xlsc").expect("context");
    assert!(ctx.get_type(0x100).is_some(), "built-in type loaded");
    let t = ctx.get_type(0x200).expect("matching library loaded");
    assert_eq!(t.scalar_type, AdfScalarType::Signed, "last matching library wins");
    assert!(ctx.get_type(0x300).is_none(), "non-matching library skipped");
}

#[test]
fn load_types_from_library_rejects_garbage_bytes() {
    let mut ctx = AdfReflectionContext::new();
    let bad = adf::typed::AdfTypeLib {
        extension: b"xlsc".to_vec(),
        library: vec![1, 2, 3],
    };
    assert!(ctx.load_types_from_library(&bad).is_err());
    assert!(ctx.get_type(0x200).is_none());
}
