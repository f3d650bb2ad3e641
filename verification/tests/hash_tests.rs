use adf::hashing::hash_little32;
use adf::typed::{
    array_type_hash, base_type_hash, inline_array_type_hash, pointer_type_hash,
};

#[test]
fn hash_of_empty_input_is_the_seed() {
    assert_eq!(hash_little32(b""), 0xdeadbeef);
}

#[test]
fn base_identity_matches_direct_hash() {
    assert_eq!(base_type_hash(b"uint32", 0, 4, 4), hash_little32(b"uint32044"));
    assert_eq!(base_type_hash(b"float", 0, 4, 4), hash_little32(b"float044"));
}

#[test]
fn structural_hash_of_float_scalar() {
    assert_eq!(base_type_hash(b"float", 0, 4, 4), 0x7515A207);
}

#[test]
fn structural_hash_of_pointer_to_u32() {
    let h_u32 = base_type_hash(b"uint32", 0, 4, 4);
    assert_eq!(pointer_type_hash(b"uint32", h_u32), 1283401978);
}

#[test]
fn structural_hash_of_float_triple() {
    let h_f32 = base_type_hash(b"float", 0, 4, 4);
    assert_eq!(inline_array_type_hash(b"float", h_f32, 4, 4, 3), 0xE8541F6E);
}

#[test]
fn structural_hash_of_float_array() {
    let h_f32 = base_type_hash(b"float", 0, 4, 4);
    assert_eq!(array_type_hash(b"float", h_f32), 0x168B4EB8);
}
