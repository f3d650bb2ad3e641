use adf::types::{AdfFile, AdfPrimitive, AdfScalarType, AdfType};

fn named_type(name: &[u8], hash: u32, size: u32) -> AdfType {
    AdfType {
        primitive: AdfPrimitive::Scalar,
        size,
        alignment: size,
        type_hash: hash,
        name: name.to_vec(),
        flags: 0,
        scalar_type: AdfScalarType::Unsigned,
        element_type_hash: 0,
        element_length: 0,
        members: Vec::new(),
        enumerations: Vec::new(),
    }
}

#[test]
fn types_resolve_by_hash_and_by_name() {
    let mut f = AdfFile::default();
    f.types.push(named_type(b"first", 10, 4));
    f.types.push(named_type(b"second", 20, 8));
    assert_eq!(f.get_type_by_hash(20).map(|t| t.name.clone()), Some(b"second".to_vec()));
    assert!(f.get_type_by_hash(30).is_none());
    assert_eq!(f.get_type_by_name(b"first").map(|t| t.type_hash), Some(10));
    assert!(f.get_type_by_name(b"third").is_none());
}

#[test]
fn new_instance_creates_once_and_reuses() {
    let mut f = AdfFile::default();
    let t = named_type(b"u32", 10, 4);
    f.types.push(t.clone());
    let a = f.new_instance(b"slot", &t);
    assert_eq!(a, 0);
    assert_eq!(f.instances.len(), 1);
    assert_eq!(f.instances[0].buffer, vec![0u8; 4]);
    assert_eq!(f.instances[0].alignment, 4);
    // asking again for the same name and type returns the same position
    let b = f.new_instance(b"slot", &t);
    assert_eq!(b, 0);
    assert_eq!(f.instances.len(), 1);
    // a different name creates a second instance
    let c = f.new_instance(b"other", &t);
    assert_eq!(c, 1);
    assert_eq!(f.instances.len(), 2);
    assert_eq!(f.get_instance(b"other", &t), Some(1));
    assert_eq!(f.get_instance(b"absent", &t), None);
}

#[test]
fn remove_instance_swaps_in_the_last() {
    let mut f = AdfFile::default();
    let t = named_type(b"u32", 10, 4);
    f.types.push(t.clone());
    f.new_instance(b"a", &t);
    f.new_instance(b"b", &t);
    f.new_instance(b"c", &t);
    assert!(f.remove_instance(0));
    assert_eq!(f.instances.len(), 2);
    assert_eq!(f.instances[0].name, b"c".to_vec());
    assert_eq!(f.instances[1].name, b"b".to_vec());
    assert!(!f.remove_instance(5));
    assert_eq!(f.instances.len(), 2);
}
