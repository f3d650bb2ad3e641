use vstd::prelude::*;

use crate::bytes::{
    spec_align_up, spec_le16, spec_le32, spec_le64, spec_zeros, push_bytes, push_le16, push_le32,
    push_le64, push_zeros,
};
use crate::hashing::{hash_little32, spec_hash_little32};
use crate::pools::{
    spec_pool_of_file, spec_pool_index, spec_pool_has, spec_view_pool, build_file_pool, pool_find,
};
use crate::types::{
    AdfEnum, AdfEnumView, AdfFile, AdfFileView, AdfInstance, AdfInstanceView, AdfMember,
    AdfMemberValue, AdfMemberView, AdfPrimitive, AdfReferenceError, AdfScalarType, AdfType,
    AdfTypeView, AdfVersion, AdfWriteError, ADF_FLAG_MASK,
};

verus! {

// The outer file layout: a 64-byte header plus a description, then the type
// table, the instance table with the instance buffers, and the string pool,
// each 16-byte aligned. `spec_serialize` states the exact bytes a write of a
// file produces; the writer is proved against it.

/// The on-disk tag of each primitive kind, in declaration order.
pub open spec fn spec_primitive_tag(p: AdfPrimitive) -> u32 {
    match p {
        AdfPrimitive::Scalar => 0,
        AdfPrimitive::Structure => 1,
        AdfPrimitive::Pointer => 2,
        AdfPrimitive::Array => 3,
        AdfPrimitive::InlineArray => 4,
        AdfPrimitive::String => 5,
        AdfPrimitive::Recursive => 6,
        AdfPrimitive::Bitfield => 7,
        AdfPrimitive::Enumeration => 8,
        AdfPrimitive::StringHash => 9,
        AdfPrimitive::Deferred => 10,
    }
}

pub open spec fn spec_scalar_type_tag(s: AdfScalarType) -> u16 {
    match s {
        AdfScalarType::Signed => 0,
        AdfScalarType::Unsigned => 1,
        AdfScalarType::Float => 2,
    }
}

/// The 32-bit two's-complement image of a signed enumeration value.
pub open spec fn spec_i32_bits(v: i32) -> u32 {
    if v >= 0 {
        v as u32
    } else {
        (v + 0x1_0000_0000) as u32
    }
}

/// The signed value a 32-bit image stands for.
pub open spec fn spec_bits_i32(b: u32) -> i32 {
    if b < 0x8000_0000 {
        b as i32
    } else {
        (b - 0x1_0000_0000) as i32
    }
}

/// A member's default value on disk: a 32-bit tag and a 64-bit payload; an
/// instance reference is stored as the referenced instance's name hash.
pub open spec fn spec_enc_member_value(v: AdfMemberValue, insts: Seq<AdfInstanceView>) -> Seq<u8> {
    match v {
        AdfMemberValue::UninitializedValue => spec_le32(0) + spec_le64(0),
        AdfMemberValue::InlineValue(x) => spec_le32(1) + spec_le64(x),
        AdfMemberValue::InstanceValue(idx) => spec_le32(2) + spec_le64(
            spec_hash_little32(insts[idx as int].name) as u64,
        ),
    }
}

pub open spec fn spec_enc_member(
    m: AdfMemberView,
    pool: Seq<Seq<u8>>,
    insts: Seq<AdfInstanceView>,
) -> Seq<u8> {
    spec_le64(spec_pool_index(pool, m.name) as u64) + spec_le32(m.type_hash) + spec_le32(
        m.alignment,
    ) + spec_le32(m.offsets.spec_packed()) + spec_enc_member_value(m.value, insts)
}

pub open spec fn spec_enc_members_prefix(
    ms: Seq<AdfMemberView>,
    pool: Seq<Seq<u8>>,
    insts: Seq<AdfInstanceView>,
    i: int,
) -> Seq<u8>
    decreases i,
{
    if i <= 0 {
        Seq::empty()
    } else {
        spec_enc_members_prefix(ms, pool, insts, i - 1) + spec_enc_member(ms[i - 1], pool, insts)
    }
}

pub open spec fn spec_enc_enum(e: AdfEnumView, pool: Seq<Seq<u8>>) -> Seq<u8> {
    spec_le64(spec_pool_index(pool, e.name) as u64) + spec_le32(spec_i32_bits(e.value))
}

pub open spec fn spec_enc_enums_prefix(es: Seq<AdfEnumView>, pool: Seq<Seq<u8>>, i: int) -> Seq<u8>
    decreases i,
{
    if i <= 0 {
        Seq::empty()
    } else {
        spec_enc_enums_prefix(es, pool, i - 1) + spec_enc_enum(es[i - 1], pool)
    }
}

/// One type record: the fixed 36-byte head, then the member list of a
/// structure, the entry list of an enumeration, or four bytes of padding.
/// The fixed 36-byte head of a type record.
pub open spec fn spec_enc_type_head(t: AdfTypeView, pool: Seq<Seq<u8>>) -> Seq<u8> {
    spec_le32(spec_primitive_tag(t.primitive)) + spec_le32(t.size) + spec_le32(t.alignment)
        + spec_le32(t.type_hash) + spec_le64(spec_pool_index(pool, t.name) as u64) + spec_le16(
        t.flags,
    ) + spec_le16(spec_scalar_type_tag(t.scalar_type)) + spec_le32(t.element_type_hash)
        + spec_le32(t.element_length)
}

pub open spec fn spec_enc_type(
    t: AdfTypeView,
    pool: Seq<Seq<u8>>,
    insts: Seq<AdfInstanceView>,
) -> Seq<u8> {
    spec_enc_type_head(t, pool) + if t.primitive == AdfPrimitive::Structure {
        spec_le32(t.members.len() as u32) + spec_enc_members_prefix(
            t.members,
            pool,
            insts,
            t.members.len() as int,
        )
    } else if t.primitive == AdfPrimitive::Enumeration {
        spec_le32(t.enumerations.len() as u32) + spec_enc_enums_prefix(
            t.enumerations,
            pool,
            t.enumerations.len() as int,
        )
    } else {
        spec_zeros(4)
    }
}

pub open spec fn spec_enc_types_prefix(
    ts: Seq<AdfTypeView>,
    pool: Seq<Seq<u8>>,
    insts: Seq<AdfInstanceView>,
    i: int,
) -> Seq<u8>
    decreases i,
{
    if i <= 0 {
        Seq::empty()
    } else {
        spec_enc_types_prefix(ts, pool, insts, i - 1) + spec_enc_type(ts[i - 1], pool, insts)
    }
}

/// Where the region before instance buffer `i` ends: the table end for the
/// first buffer, and the previous buffer's end after that.
pub open spec fn spec_prev_end(insts: Seq<AdfInstanceView>, pos0: int, i: int) -> int
    decreases i,
{
    if i <= 0 {
        pos0
    } else {
        spec_align_up(spec_prev_end(insts, pos0, i - 1), insts[i - 1].alignment as int) + insts[i
            - 1].buffer.len()
    }
}

/// The file-absolute offset of instance buffer `i`.
pub open spec fn spec_buf_off(insts: Seq<AdfInstanceView>, pos0: int, i: int) -> int {
    spec_align_up(spec_prev_end(insts, pos0, i), insts[i].alignment as int)
}

/// The buffer region: each buffer aligned to its own alignment, zeros between.
pub open spec fn spec_buffers_prefix(insts: Seq<AdfInstanceView>, pos0: int, i: int) -> Seq<u8>
    decreases i,
{
    if i <= 0 {
        Seq::empty()
    } else {
        spec_buffers_prefix(insts, pos0, i - 1) + spec_zeros(
            spec_buf_off(insts, pos0, i - 1) - spec_prev_end(insts, pos0, i - 1),
        ) + insts[i - 1].buffer
    }
}

/// One 24-byte instance record.
pub open spec fn spec_enc_record(
    inst: AdfInstanceView,
    boff: u32,
    pool: Seq<Seq<u8>>,
) -> Seq<u8> {
    spec_le32(spec_hash_little32(inst.name)) + spec_le32(inst.type_hash) + spec_le32(boff)
        + spec_le32(inst.buffer.len() as u32) + spec_le64(spec_pool_index(pool, inst.name) as u64)
}

pub open spec fn spec_enc_records_prefix(
    insts: Seq<AdfInstanceView>,
    pool: Seq<Seq<u8>>,
    pos0: int,
    i: int,
) -> Seq<u8>
    decreases i,
{
    if i <= 0 {
        Seq::empty()
    } else {
        spec_enc_records_prefix(insts, pool, pos0, i - 1) + spec_enc_record(
            insts[i - 1],
            spec_buf_off(insts, pos0, i - 1) as u32,
            pool,
        )
    }
}

/// The string table's length bytes, one per pooled string.
pub open spec fn spec_strings_lens_prefix(pool: Seq<Seq<u8>>, i: int) -> Seq<u8>
    decreases i,
{
    if i <= 0 {
        Seq::empty()
    } else {
        spec_strings_lens_prefix(pool, i - 1) + seq![(pool[i - 1].len() % 0x100) as u8]
    }
}

/// The pooled strings themselves, each followed by one zero byte.
pub open spec fn spec_strings_data_prefix(pool: Seq<Seq<u8>>, i: int) -> Seq<u8>
    decreases i,
{
    if i <= 0 {
        Seq::empty()
    } else {
        spec_strings_data_prefix(pool, i - 1) + pool[i - 1] + seq![0u8]
    }
}

/// The fixed header: magic, version, counts and offsets, the file size,
/// twenty reserved zero bytes, and the null-terminated description.
pub open spec fn spec_header_bytes(
    instance_count: u32,
    instance_offset: u32,
    type_count: u32,
    type_offset: u32,
    hash_count: u32,
    hash_offset: u32,
    string_count: u32,
    string_offset: u32,
    file_size: u32,
    desc: Seq<u8>,
) -> Seq<u8> {
    seq![0x20u8, 0x46u8, 0x44u8, 0x41u8] + spec_le32(4) + spec_le32(instance_count) + spec_le32(
        instance_offset,
    ) + spec_le32(type_count) + spec_le32(type_offset) + spec_le32(hash_count) + spec_le32(
        hash_offset,
    ) + spec_le32(string_count) + spec_le32(string_offset) + spec_le32(file_size) + spec_zeros(20)
        + desc + seq![0u8]
}

/// Header length: 64 fixed bytes, the description, and its terminator.
pub open spec fn spec_header_len(f: AdfFileView) -> int {
    65 + f.description.len() as int
}

/// Start of the type table, meaningful when the file has types.
pub open spec fn spec_type_table_pos(f: AdfFileView) -> int {
    spec_align_up(spec_header_len(f), 16)
}

pub open spec fn spec_type_table_bytes(f: AdfFileView) -> Seq<u8> {
    spec_enc_types_prefix(f.types, spec_pool_of_file(f), f.instances, f.types.len() as int)
}

/// Where the stream stands after the type table.
pub open spec fn spec_after_types(f: AdfFileView) -> int {
    if f.types.len() > 0 {
        spec_type_table_pos(f) + spec_type_table_bytes(f).len()
    } else {
        spec_header_len(f)
    }
}

/// Start of the instance table, meaningful when the file has instances.
pub open spec fn spec_instance_table_pos(f: AdfFileView) -> int {
    spec_align_up(spec_after_types(f), 16)
}

/// End of the instance records; the first buffer region starts here.
pub open spec fn spec_records_end(f: AdfFileView) -> int {
    spec_instance_table_pos(f) + 24 * f.instances.len()
}

pub open spec fn spec_buffers_bytes(f: AdfFileView) -> Seq<u8> {
    spec_buffers_prefix(f.instances, spec_records_end(f), f.instances.len() as int)
}

pub open spec fn spec_after_instances(f: AdfFileView) -> int {
    if f.instances.len() > 0 {
        spec_records_end(f) + spec_buffers_bytes(f).len()
    } else {
        spec_after_types(f)
    }
}

/// Start of the string table, meaningful when the pool is nonempty.
pub open spec fn spec_string_table_pos(f: AdfFileView) -> int {
    spec_align_up(spec_after_instances(f), 16)
}

pub open spec fn spec_string_table_bytes(f: AdfFileView) -> Seq<u8> {
    let pool = spec_pool_of_file(f);
    spec_strings_lens_prefix(pool, pool.len() as int) + spec_strings_data_prefix(
        pool,
        pool.len() as int,
    )
}

/// The total number of bytes a write of `f` produces; also the header's
/// `file_size` field.
pub open spec fn spec_file_end(f: AdfFileView) -> int {
    if spec_pool_of_file(f).len() > 0 {
        spec_string_table_pos(f) + spec_string_table_bytes(f).len()
    } else {
        spec_after_instances(f)
    }
}

/// Everything a write checks before it can produce a file: list lengths and
/// sizes that fit their 32-bit fields, pooled strings that fit their one
/// length byte, in-range instance references, and nonzero buffer alignments.
pub open spec fn spec_serialize_ok(f: AdfFileView) -> bool {
    let pool = spec_pool_of_file(f);
    &&& f.types.len() <= u32::MAX
    &&& f.instances.len() <= u32::MAX
    &&& pool.len() <= u32::MAX
    &&& (forall|k: int|
        0 <= k < f.types.len() ==> spec_type_enc_ok(#[trigger] f.types[k], f.instances))
    &&& (forall|k: int|
        0 <= k < f.instances.len() ==> (#[trigger] f.instances[k]).alignment >= 1)
    &&& (forall|k: int|
        0 <= k < f.instances.len() ==> (#[trigger] f.instances[k]).buffer.len() <= u32::MAX)
    &&& (forall|k: int| 0 <= k < pool.len() ==> (#[trigger] pool[k]).len() <= 255)
    &&& spec_file_end(f) <= u32::MAX
}

/// What encoding one type record needs: counts that fit the 32-bit length
/// prefix and default-value references that resolve within the file.
pub open spec fn spec_type_enc_ok(t: AdfTypeView, insts: Seq<AdfInstanceView>) -> bool {
    &&& t.members.len() <= u32::MAX
    &&& t.enumerations.len() <= u32::MAX
    &&& (t.primitive == AdfPrimitive::Structure ==> forall|j: int|
        0 <= j < t.members.len() ==> match (#[trigger] t.members[j]).value {
            AdfMemberValue::InstanceValue(idx) => idx < insts.len(),
            _ => true,
        })
}

/// The header a write of `f` emits, its fields computed from the layout.
pub open spec fn spec_ser_header(f: AdfFileView) -> Seq<u8> {
    spec_header_bytes(
        f.instances.len() as u32,
        if f.instances.len() > 0 {
            spec_instance_table_pos(f) as u32
        } else {
            0
        },
        f.types.len() as u32,
        if f.types.len() > 0 {
            spec_type_table_pos(f) as u32
        } else {
            0
        },
        0,
        0,
        spec_pool_of_file(f).len() as u32,
        if spec_pool_of_file(f).len() > 0 {
            spec_string_table_pos(f) as u32
        } else {
            0
        },
        spec_file_end(f) as u32,
        f.description,
    )
}

/// The stream once the type table is out.
pub open spec fn spec_ser_with_types(f: AdfFileView) -> Seq<u8> {
    if f.types.len() > 0 {
        spec_ser_header(f) + spec_zeros(spec_type_table_pos(f) - spec_header_len(f))
            + spec_type_table_bytes(f)
    } else {
        spec_ser_header(f)
    }
}

/// The stream once the instance table and the buffers are out.
pub open spec fn spec_ser_with_instances(f: AdfFileView) -> Seq<u8> {
    if f.instances.len() > 0 {
        spec_ser_with_types(f) + spec_zeros(spec_instance_table_pos(f) - spec_after_types(f))
            + spec_enc_records_prefix(
            f.instances,
            spec_pool_of_file(f),
            spec_records_end(f),
            f.instances.len() as int,
        ) + spec_buffers_bytes(f)
    } else {
        spec_ser_with_types(f)
    }
}

/// The bytes a write of `f` produces.
pub open spec fn spec_serialize(f: AdfFileView) -> Seq<u8> {
    if spec_pool_of_file(f).len() > 0 {
        spec_ser_with_instances(f) + spec_zeros(
            spec_string_table_pos(f) - spec_after_instances(f),
        ) + spec_string_table_bytes(f)
    } else {
        spec_ser_with_instances(f)
    }
}



pub open spec fn spec_iview(insts: Seq<AdfInstance>) -> Seq<AdfInstanceView> {
    insts.map_values(|x: AdfInstance| x@)
}

/// The buffer region before index `i` is exactly as long as the distance
/// from the region's start to the end of buffer `i - 1`.
pub proof fn lemma_buffers_len(insts: Seq<AdfInstanceView>, pos0: int, i: int)
    requires
        0 <= pos0,
        0 <= i <= insts.len(),
        forall|k: int| 0 <= k < insts.len() ==> (#[trigger] insts[k]).alignment >= 1,
    ensures
        spec_prev_end(insts, pos0, i) >= pos0,
        spec_buffers_prefix(insts, pos0, i).len() == spec_prev_end(insts, pos0, i) - pos0,
    decreases i,
{
    if i > 0 {
        lemma_buffers_len(insts, pos0, i - 1);
        crate::bytes::lemma_align_up(spec_prev_end(insts, pos0, i - 1), insts[i - 1].alignment as int);
    }
}

pub proof fn lemma_prev_end_mono(insts: Seq<AdfInstanceView>, pos0: int, i: int, j: int)
    requires
        0 <= pos0,
        0 <= i <= j <= insts.len(),
        forall|k: int| 0 <= k < insts.len() ==> (#[trigger] insts[k]).alignment >= 1,
    ensures
        spec_prev_end(insts, pos0, i) <= spec_prev_end(insts, pos0, j),
    decreases j - i,
{
    if i < j {
        lemma_prev_end_mono(insts, pos0, i, j - 1);
        lemma_buffers_len(insts, pos0, j - 1);
        crate::bytes::lemma_align_up(spec_prev_end(insts, pos0, j - 1), insts[j - 1].alignment as int);
    }
}

/// The section positions never decrease along the stream, so a bound on the
/// file's end bounds every section position.
pub proof fn lemma_layout_monotone(f: AdfFileView)
    requires
        forall|k: int| 0 <= k < f.instances.len() ==> (#[trigger] f.instances[k]).alignment >= 1,
    ensures
        spec_file_end(f) >= spec_after_instances(f),
        spec_after_instances(f) >= spec_after_types(f),
        spec_after_types(f) >= spec_header_len(f),
        spec_header_len(f) >= 65,
        f.types.len() > 0 ==> spec_type_table_pos(f) >= spec_header_len(f),
        f.instances.len() > 0 ==> spec_records_end(f) >= spec_instance_table_pos(f)
            >= spec_after_types(f),
        f.instances.len() > 0 ==> spec_after_instances(f) == spec_prev_end(
            f.instances,
            spec_records_end(f),
            f.instances.len() as int,
        ),
        spec_pool_of_file(f).len() > 0 ==> spec_string_table_pos(f) >= spec_after_instances(f)
            && spec_file_end(f) == spec_string_table_pos(f) + spec_string_table_bytes(f).len(),
{
    crate::bytes::lemma_align_up(spec_header_len(f), 16);
    crate::bytes::lemma_align_up(spec_after_types(f), 16);
    crate::bytes::lemma_align_up(spec_after_instances(f), 16);
    if f.instances.len() > 0 {
        lemma_buffers_len(f.instances, spec_records_end(f), f.instances.len() as int);
    }
}

/// If some buffer's end lies beyond the 32-bit range, the write cannot
/// succeed: the file's end lies at least as far.
pub proof fn lemma_prev_end_overflow(f: AdfFileView, i: int)
    requires
        0 <= i <= f.instances.len(),
        f.instances.len() > 0,
        forall|k: int| 0 <= k < f.instances.len() ==> (#[trigger] f.instances[k]).alignment >= 1,
        spec_prev_end(f.instances, spec_records_end(f), i) > u32::MAX,
    ensures
        !spec_serialize_ok(f),
{
    lemma_prev_end_mono(f.instances, spec_records_end(f), i, f.instances.len() as int);
    lemma_layout_monotone(f);
}

fn i32_bits(v: i32) -> (r: u32)
    ensures
        r == spec_i32_bits(v),
{
    if v >= 0 {
        v as u32
    } else {
        ((v as i64) + 0x1_0000_0000) as u32
    }
}

fn primitive_tag(p: AdfPrimitive) -> (r: u32)
    ensures
        r == spec_primitive_tag(p),
{
    match p {
        AdfPrimitive::Scalar => 0,
        AdfPrimitive::Structure => 1,
        AdfPrimitive::Pointer => 2,
        AdfPrimitive::Array => 3,
        AdfPrimitive::InlineArray => 4,
        AdfPrimitive::String => 5,
        AdfPrimitive::Recursive => 6,
        AdfPrimitive::Bitfield => 7,
        AdfPrimitive::Enumeration => 8,
        AdfPrimitive::StringHash => 9,
        AdfPrimitive::Deferred => 10,
    }
}

fn scalar_type_tag(s: AdfScalarType) -> (r: u16)
    ensures
        r == spec_scalar_type_tag(s),
{
    match s {
        AdfScalarType::Signed => 0,
        AdfScalarType::Unsigned => 1,
        AdfScalarType::Float => 2,
    }
}

pub fn align_up_u64_pub(p: u64, a: u64) -> (r: u64)
    requires
        1 <= a,
        p + a <= u64::MAX,
    ensures
        r == spec_align_up(p as int, a as int),
{
    let rem = p % a;
    let aligned = if rem == 0 {
        p
    } else {
        p + (a - rem)
    };
    assert(aligned == spec_align_up(p as int, a as int)) by (nonlinear_arith)
        requires
            1 <= a,
            p + a <= u64::MAX,
            aligned == if p % a == 0 {
                p as int
            } else {
                p + (a - p % a)
            },
    ;
    aligned
}

fn enc_member_into(
    out: &mut Vec<u8>,
    m: &AdfMember,
    pool: &Vec<Vec<u8>>,
    insts: &Vec<AdfInstance>,
) -> (r: Result<(), AdfWriteError>)
    requires
        spec_pool_has(spec_view_pool(pool@), m@.name),
    ensures
        r matches Ok(u) ==> final(out)@ =~= old(out)@ + spec_enc_member(
            m@,
            spec_view_pool(pool@),
            spec_iview(insts@),
        ) && (match m@.value {
            AdfMemberValue::InstanceValue(idx) => idx < insts@.len(),
            _ => true,
        }),
        r matches Err(e) ==> final(out)@ == old(out)@ && e == AdfWriteError::Reference(
            AdfReferenceError::CollectionFailure,
        ) && !(match m@.value {
            AdfMemberValue::InstanceValue(idx) => idx < insts@.len(),
            _ => true,
        }),
{
    if let AdfMemberValue::InstanceValue(idx) = m.value {
        if idx >= insts.len() {
            return Err(AdfWriteError::Reference(AdfReferenceError::CollectionFailure));
        }
    }
    let name_index = pool_find(pool, m.name.as_slice());
    push_le64(out, name_index as u64);
    push_le32(out, m.type_hash);
    push_le32(out, m.alignment);
    push_le32(out, m.offsets.packed());
    match m.value {
        AdfMemberValue::UninitializedValue => {
            push_le32(out, 0);
            push_le64(out, 0);
        },
        AdfMemberValue::InlineValue(x) => {
            push_le32(out, 1);
            push_le64(out, x);
        },
        AdfMemberValue::InstanceValue(idx) => {
            let h = hash_little32(insts[idx].name.as_slice());
            push_le32(out, 2);
            push_le64(out, h as u64);
            assert(spec_iview(insts@)[idx as int].name == insts@[idx as int]@.name);
        },
    }
    Ok(())
}

fn enc_enum_into(out: &mut Vec<u8>, e: &AdfEnum, pool: &Vec<Vec<u8>>)
    requires
        spec_pool_has(spec_view_pool(pool@), e@.name),
    ensures
        final(out)@ =~= old(out)@ + spec_enc_enum(e@, spec_view_pool(pool@)),
{
    let name_index = pool_find(pool, e.name.as_slice());
    push_le64(out, name_index as u64);
    push_le32(out, i32_bits(e.value));
}

fn enc_type_head_into(out: &mut Vec<u8>, t: &AdfType, pool: &Vec<Vec<u8>>)
    requires
        spec_pool_has(spec_view_pool(pool@), t@.name),
    ensures
        final(out)@ == old(out)@ + spec_enc_type_head(t@, spec_view_pool(pool@)),
{
    push_le32(out, primitive_tag(t.primitive));
    push_le32(out, t.size);
    push_le32(out, t.alignment);
    push_le32(out, t.type_hash);
    let name_index = pool_find(pool, t.name.as_slice());
    push_le64(out, name_index as u64);
    push_le16(out, t.flags);
    push_le16(out, scalar_type_tag(t.scalar_type));
    push_le32(out, t.element_type_hash);
    push_le32(out, t.element_length);
    assert(final(out)@ =~= old(out)@ + spec_enc_type_head(t@, spec_view_pool(pool@)));
}

fn enc_members_section(
    out: &mut Vec<u8>,
    t: &AdfType,
    pool: &Vec<Vec<u8>>,
    insts: &Vec<AdfInstance>,
) -> (r: Result<(), AdfWriteError>)
    requires
        t@.members.len() <= u32::MAX,
        forall|j: int|
            0 <= j < t@.members.len() ==> spec_pool_has(
                spec_view_pool(pool@),
                (#[trigger] t@.members[j]).name,
            ),
    ensures
        r matches Ok(u) ==> final(out)@ == old(out)@ + spec_le32(t@.members.len() as u32)
            + spec_enc_members_prefix(
            t@.members,
            spec_view_pool(pool@),
            spec_iview(insts@),
            t@.members.len() as int,
        ) && (forall|k: int|
            0 <= k < t@.members.len() ==> match (#[trigger] t@.members[k]).value {
                AdfMemberValue::InstanceValue(idx) => idx < insts@.len(),
                _ => true,
            }),
        r is Err ==> !(forall|k: int|
            0 <= k < t@.members.len() ==> match (#[trigger] t@.members[k]).value {
                AdfMemberValue::InstanceValue(idx) => idx < insts@.len(),
                _ => true,
            }),
{
    let ghost pv = spec_view_pool(pool@);
    let ghost iv = spec_iview(insts@);
    let nm = t.members.len();
    push_le32(out, nm as u32);
    let ghost head2 = out@;
    let mut j: usize = 0;
    while j < nm
        invariant
            j <= nm,
            nm == t.members@.len(),
            pv == spec_view_pool(pool@),
            iv == spec_iview(insts@),
            forall|k: int|
                0 <= k < t@.members.len() ==> spec_pool_has(pv, (#[trigger] t@.members[k]).name),
            forall|k: int|
                0 <= k < j ==> match (#[trigger] t@.members[k]).value {
                    AdfMemberValue::InstanceValue(idx) => idx < iv.len(),
                    _ => true,
                },
            iv.len() == insts@.len(),
            out@ == head2 + spec_enc_members_prefix(t@.members, pv, iv, j as int),
        decreases nm - j,
    {
        assert(t@.members[j as int] == t.members@[j as int]@);
        let res = enc_member_into(out, &t.members[j], pool, insts);
        if res.is_err() {
            return Err(AdfWriteError::Reference(AdfReferenceError::CollectionFailure));
        }
        assert(out@ =~= head2 + spec_enc_members_prefix(t@.members, pv, iv, j + 1 as int));
        j = j + 1;
    }
    assert(final(out)@ =~= old(out)@ + spec_le32(t@.members.len() as u32)
        + spec_enc_members_prefix(t@.members, pv, iv, t@.members.len() as int));
    Ok(())
}

fn enc_enums_section(out: &mut Vec<u8>, t: &AdfType, pool: &Vec<Vec<u8>>)
    requires
        t@.enumerations.len() <= u32::MAX,
        forall|j: int|
            0 <= j < t@.enumerations.len() ==> spec_pool_has(
                spec_view_pool(pool@),
                (#[trigger] t@.enumerations[j]).name,
            ),
    ensures
        final(out)@ == old(out)@ + spec_le32(t@.enumerations.len() as u32)
            + spec_enc_enums_prefix(
            t@.enumerations,
            spec_view_pool(pool@),
            t@.enumerations.len() as int,
        ),
{
    let ghost pv = spec_view_pool(pool@);
    let ne = t.enumerations.len();
    push_le32(out, ne as u32);
    let ghost head2 = out@;
    let mut j: usize = 0;
    while j < ne
        invariant
            j <= ne,
            ne == t.enumerations@.len(),
            pv == spec_view_pool(pool@),
            forall|k: int|
                0 <= k < t@.enumerations.len() ==> spec_pool_has(
                    pv,
                    (#[trigger] t@.enumerations[k]).name,
                ),
            out@ == head2 + spec_enc_enums_prefix(t@.enumerations, pv, j as int),
        decreases ne - j,
    {
        assert(t@.enumerations[j as int] == t.enumerations@[j as int]@);
        enc_enum_into(out, &t.enumerations[j], pool);
        assert(out@ =~= head2 + spec_enc_enums_prefix(t@.enumerations, pv, j + 1 as int));
        j = j + 1;
    }
    assert(final(out)@ =~= old(out)@ + spec_le32(t@.enumerations.len() as u32)
        + spec_enc_enums_prefix(t@.enumerations, pv, t@.enumerations.len() as int));
}

fn enc_type_into(
    out: &mut Vec<u8>,
    t: &AdfType,
    pool: &Vec<Vec<u8>>,
    insts: &Vec<AdfInstance>,
) -> (r: Result<(), AdfWriteError>)
    requires
        spec_pool_has(spec_view_pool(pool@), t@.name),
        forall|j: int|
            0 <= j < t@.members.len() ==> spec_pool_has(
                spec_view_pool(pool@),
                (#[trigger] t@.members[j]).name,
            ),
        forall|j: int|
            0 <= j < t@.enumerations.len() ==> spec_pool_has(
                spec_view_pool(pool@),
                (#[trigger] t@.enumerations[j]).name,
            ),
    ensures
        r matches Ok(u) ==> spec_type_enc_ok(t@, spec_iview(insts@)) && final(out)@ == old(out)@
            + spec_enc_type(t@, spec_view_pool(pool@), spec_iview(insts@)),
        r is Err ==> !spec_type_enc_ok(t@, spec_iview(insts@)),
{
    let ghost pv = spec_view_pool(pool@);
    let ghost iv = spec_iview(insts@);
    if t.members.len() as u64 > u32::MAX as u64 {
        return Err(AdfWriteError::LengthOverflow);
    }
    if t.enumerations.len() as u64 > u32::MAX as u64 {
        return Err(AdfWriteError::LengthOverflow);
    }
    enc_type_head_into(out, t, pool);
    let ghost head = out@;
    match t.primitive {
        AdfPrimitive::Structure => {
            let res = enc_members_section(out, t, pool, insts);
            if res.is_err() {
                return Err(AdfWriteError::Reference(AdfReferenceError::CollectionFailure));
            }
            assert(out@ =~= old(out)@ + spec_enc_type(t@, pv, iv));
        },
        AdfPrimitive::Enumeration => {
            enc_enums_section(out, t, pool);
            assert(out@ =~= old(out)@ + spec_enc_type(t@, pv, iv));
        },
        _ => {
            push_zeros(out, 4);
            assert(out@ =~= old(out)@ + spec_enc_type(t@, pv, iv));
        },
    }
    Ok(())
}

fn enc_record_into(out: &mut Vec<u8>, inst: &AdfInstance, boff: u32, pool: &Vec<Vec<u8>>)
    requires
        spec_pool_has(spec_view_pool(pool@), inst@.name),
        inst@.buffer.len() <= u32::MAX,
    ensures
        final(out)@ =~= old(out)@ + spec_enc_record(inst@, boff, spec_view_pool(pool@)),
{
    let h = hash_little32(inst.name.as_slice());
    push_le32(out, h);
    push_le32(out, inst.type_hash);
    push_le32(out, boff);
    push_le32(out, inst.buffer.len() as u32);
    let name_index = pool_find(pool, inst.name.as_slice());
    push_le64(out, name_index as u64);
}


fn header_into(
    out: &mut Vec<u8>,
    instance_count: u32,
    instance_offset: u32,
    type_count: u32,
    type_offset: u32,
    string_count: u32,
    string_offset: u32,
    file_size: u32,
    desc: &Vec<u8>,
)
    ensures
        final(out)@ == old(out)@ + spec_header_bytes(
            instance_count,
            instance_offset,
            type_count,
            type_offset,
            0,
            0,
            string_count,
            string_offset,
            file_size,
            desc@,
        ),
{
    out.push(0x20);
    out.push(0x46);
    out.push(0x44);
    out.push(0x41);
    push_le32(out, 4);
    push_le32(out, instance_count);
    push_le32(out, instance_offset);
    push_le32(out, type_count);
    push_le32(out, type_offset);
    push_le32(out, 0);
    push_le32(out, 0);
    push_le32(out, string_count);
    push_le32(out, string_offset);
    push_le32(out, file_size);
    push_zeros(out, 20);
    push_bytes(out, desc.as_slice());
    out.push(0);
    assert(final(out)@ =~= old(out)@ + spec_header_bytes(
        instance_count,
        instance_offset,
        type_count,
        type_offset,
        0,
        0,
        string_count,
        string_offset,
        file_size,
        desc@,
    ));
}

fn check_pool_strings(pool: &Vec<Vec<u8>>) -> (r: Result<(), AdfWriteError>)
    ensures
        r matches Ok(u) ==> forall|j: int|
            0 <= j < spec_view_pool(pool@).len() ==> (#[trigger] spec_view_pool(pool@)[j]).len()
                <= 255,
        r matches Err(e) ==> e == AdfWriteError::LengthOverflow && exists|j: int|
            0 <= j < spec_view_pool(pool@).len() && (#[trigger] spec_view_pool(pool@)[j]).len()
                > 255,
{
    let ghost pv = spec_view_pool(pool@);
    let np = pool.len();
    let mut k: usize = 0;
    while k < np
        invariant
            k <= np,
            np == pv.len(),
            pv == spec_view_pool(pool@),
            forall|j: int| 0 <= j < k ==> (#[trigger] pv[j]).len() <= 255,
        decreases np - k,
    {
        assert(pv[k as int] == pool@[k as int]@);
        if pool[k].len() > 255 {
            return Err(AdfWriteError::LengthOverflow);
        }
        k = k + 1;
    }
    Ok(())
}

fn check_instances(f: &AdfFile) -> (r: Result<(), AdfWriteError>)
    ensures
        r matches Ok(u) ==> (forall|j: int|
            0 <= j < f@.instances.len() ==> (#[trigger] f@.instances[j]).alignment >= 1) && (
        forall|j: int|
            0 <= j < f@.instances.len() ==> (#[trigger] f@.instances[j]).buffer.len() <= u32::MAX),
        r is Err ==> !spec_serialize_ok(f@),
{
    let ghost iv = f@.instances;
    let ni = f.instances.len();
    let mut k: usize = 0;
    while k < ni
        invariant
            k <= ni,
            ni == f.instances@.len(),
            iv == f@.instances,
            forall|j: int| 0 <= j < k ==> (#[trigger] iv[j]).alignment >= 1,
            forall|j: int| 0 <= j < k ==> (#[trigger] iv[j]).buffer.len() <= u32::MAX,
        decreases ni - k,
    {
        assert(iv[k as int] == f.instances@[k as int]@);
        if f.instances[k].alignment == 0 {
            return Err(AdfWriteError::InvalidAlignment);
        }
        if f.instances[k].buffer.len() as u64 > 0xffff_ffffu64 {
            return Err(AdfWriteError::SizeOverflow);
        }
        k = k + 1;
    }
    Ok(())
}

fn enc_all_types(f: &AdfFile, pool: &Vec<Vec<u8>>) -> (r: Result<Vec<u8>, AdfWriteError>)
    requires
        spec_view_pool(pool@) == spec_pool_of_file(f@),
    ensures
        r matches Ok(tv) ==> tv@ == spec_type_table_bytes(f@) && (forall|j: int|
            0 <= j < f@.types.len() ==> spec_type_enc_ok(#[trigger] f@.types[j], f@.instances)),
        r is Err ==> !spec_serialize_ok(f@),
{
    let ghost fv = f@;
    let ghost pv = spec_view_pool(pool@);
    let ghost iv = fv.instances;
    proof {
        crate::pools::lemma_pool_complete(fv);
        assert(iv =~= spec_iview(f.instances@));
    }
    let nt = f.types.len();
    let mut tv: Vec<u8> = Vec::new();
    let mut i: usize = 0;
    while i < nt
        invariant
            i <= nt,
            nt == f.types@.len(),
            fv == f@,
            pv == spec_view_pool(pool@),
            pv == spec_pool_of_file(fv),
            iv == fv.instances,
            iv =~= spec_iview(f.instances@),
            forall|j: int|
                0 <= j < fv.types.len() ==> spec_pool_has(pv, (#[trigger] fv.types[j]).name),
            forall|j: int, m: int|
                0 <= j < fv.types.len() && 0 <= m < fv.types[j].members.len() ==> spec_pool_has(
                    pv,
                    (#[trigger] fv.types[j].members[m]).name,
                ),
            forall|j: int, m: int|
                0 <= j < fv.types.len() && 0 <= m < fv.types[j].enumerations.len()
                    ==> spec_pool_has(pv, (#[trigger] fv.types[j].enumerations[m]).name),
            forall|j: int| 0 <= j < i ==> spec_type_enc_ok(#[trigger] fv.types[j], iv),
            tv@ == spec_enc_types_prefix(fv.types, pv, iv, i as int),
        decreases nt - i,
    {
        assert(fv.types[i as int] == f.types@[i as int]@);
        let res = enc_type_into(&mut tv, &f.types[i], pool, &f.instances);
        if let Err(e) = res {
            return Err(e);
        }
        assert(tv@ =~= spec_enc_types_prefix(fv.types, pv, iv, i + 1 as int));
        i = i + 1;
    }
    Ok(tv)
}

#[verifier::rlimit(100)]
fn compute_buffer_offsets(f: &AdfFile, recs_end: u64) -> (r: Result<(Vec<u32>, u64), AdfWriteError>)
    requires
        recs_end <= u32::MAX,
        forall|j: int| 0 <= j < f@.instances.len() ==> (#[trigger] f@.instances[j]).alignment >= 1,
        forall|j: int|
            0 <= j < f@.instances.len() ==> (#[trigger] f@.instances[j]).buffer.len() <= u32::MAX,
    ensures
        r matches Ok(p) ==> p.0@.len() == f@.instances.len() && (forall|j: int|
            0 <= j < f@.instances.len() ==> p.0@[j] == spec_buf_off(
                f@.instances,
                recs_end as int,
                j,
            ) as u32 && spec_buf_off(f@.instances, recs_end as int, j) <= u32::MAX) && p.1
            == spec_prev_end(f@.instances, recs_end as int, f@.instances.len() as int) && p.1
            <= u32::MAX,
        r is Err ==> exists|i: int|
            0 < i <= f@.instances.len() && spec_prev_end(f@.instances, recs_end as int, i)
                > u32::MAX,
{
    let ghost fv = f@;
    let ghost iv = fv.instances;
    let ni = f.instances.len();
    let mut offs: Vec<u32> = Vec::new();
    let mut cur: u64 = recs_end;
    let mut bi: usize = 0;
    while bi < ni
        invariant
            bi <= ni,
            ni == f.instances@.len(),
            fv == f@,
            iv == fv.instances,
            cur == spec_prev_end(iv, recs_end as int, bi as int),
            cur <= u32::MAX,
            offs@.len() == bi,
            forall|j: int|
                0 <= j < bi ==> offs@[j] == spec_buf_off(iv, recs_end as int, j) as u32
                    && spec_buf_off(iv, recs_end as int, j) <= u32::MAX,
            forall|j: int| 0 <= j < ni ==> (#[trigger] iv[j]).alignment >= 1,
            forall|j: int| 0 <= j < ni ==> (#[trigger] iv[j]).buffer.len() <= u32::MAX,
        decreases ni - bi,
    {
        assert(iv[bi as int] == f.instances@[bi as int]@);
        let a = f.instances[bi].alignment as u64;
        let off = align_up_u64_pub(cur, a);
        proof {
            crate::bytes::lemma_align_up(cur as int, a as int);
        }
        let end = off + f.instances[bi].buffer.len() as u64;
        assert(off == spec_buf_off(iv, recs_end as int, bi as int));
        assert(end == spec_prev_end(iv, recs_end as int, bi + 1 as int));
        if end > 0xffff_ffffu64 {
            assert(spec_prev_end(iv, recs_end as int, bi + 1 as int) > u32::MAX);
            return Err(AdfWriteError::SizeOverflow);
        }
        proof {
            crate::bytes::lemma_align_up(cur as int, a as int);
        }
        offs.push(off as u32);
        cur = end;
        bi = bi + 1;
    }
    Ok((offs, cur))
}

fn enc_all_records(f: &AdfFile, pool: &Vec<Vec<u8>>, offs: &Vec<u32>, recs_end: u64) -> (rv: Vec<
    u8,
>)
    requires
        spec_view_pool(pool@) == spec_pool_of_file(f@),
        offs@.len() == f@.instances.len(),
        forall|j: int|
            0 <= j < f@.instances.len() ==> offs@[j] == spec_buf_off(
                f@.instances,
                recs_end as int,
                j,
            ) as u32,
        forall|j: int|
            0 <= j < f@.instances.len() ==> (#[trigger] f@.instances[j]).buffer.len() <= u32::MAX,
    ensures
        rv@ == spec_enc_records_prefix(
            f@.instances,
            spec_pool_of_file(f@),
            recs_end as int,
            f@.instances.len() as int,
        ),
{
    let ghost fv = f@;
    let ghost pv = spec_view_pool(pool@);
    let ghost iv = fv.instances;
    proof {
        crate::pools::lemma_pool_complete(fv);
    }
    let ni = f.instances.len();
    let mut rv: Vec<u8> = Vec::new();
    let mut ri: usize = 0;
    while ri < ni
        invariant
            ri <= ni,
            ni == f.instances@.len(),
            fv == f@,
            pv == spec_view_pool(pool@),
            iv == fv.instances,
            forall|j: int| 0 <= j < ni ==> spec_pool_has(pv, (#[trigger] iv[j]).name),
            forall|j: int| 0 <= j < ni ==> (#[trigger] iv[j]).buffer.len() <= u32::MAX,
            offs@.len() == ni,
            forall|j: int| 0 <= j < ni ==> offs@[j] == spec_buf_off(iv, recs_end as int, j) as u32,
            rv@ == spec_enc_records_prefix(iv, pv, recs_end as int, ri as int),
        decreases ni - ri,
    {
        assert(iv[ri as int] == f.instances@[ri as int]@);
        enc_record_into(&mut rv, &f.instances[ri], offs[ri], pool);
        assert(rv@ =~= spec_enc_records_prefix(iv, pv, recs_end as int, ri + 1 as int));
        ri = ri + 1;
    }
    rv
}

fn enc_all_buffers(f: &AdfFile, offs: &Vec<u32>, recs_end: u64) -> (bv: Vec<u8>)
    requires
        offs@.len() == f@.instances.len(),
        recs_end <= u32::MAX,
        forall|j: int|
            0 <= j < f@.instances.len() ==> offs@[j] == spec_buf_off(
                f@.instances,
                recs_end as int,
                j,
            ) as u32 && spec_buf_off(f@.instances, recs_end as int, j) <= u32::MAX,
        forall|j: int| 0 <= j < f@.instances.len() ==> (#[trigger] f@.instances[j]).alignment >= 1,
        forall|j: int|
            0 <= j < f@.instances.len() ==> (#[trigger] f@.instances[j]).buffer.len() <= u32::MAX,
        spec_prev_end(f@.instances, recs_end as int, f@.instances.len() as int) <= u32::MAX,
    ensures
        bv@ == spec_buffers_prefix(f@.instances, recs_end as int, f@.instances.len() as int),
        recs_end + bv@.len() == spec_prev_end(
            f@.instances,
            recs_end as int,
            f@.instances.len() as int,
        ),
{
    let ghost fv = f@;
    let ghost iv = fv.instances;
    let ni = f.instances.len();
    let mut bv: Vec<u8> = Vec::new();
    let mut cur2: u64 = recs_end;
    let mut ci: usize = 0;
    while ci < ni
        invariant
            ci <= ni,
            ni == f.instances@.len(),
            fv == f@,
            iv == fv.instances,
            cur2 == spec_prev_end(iv, recs_end as int, ci as int),
            cur2 <= u32::MAX,
            recs_end + bv@.len() == cur2,
            bv@ == spec_buffers_prefix(iv, recs_end as int, ci as int),
            offs@.len() == ni,
            forall|j: int|
                0 <= j < ni ==> offs@[j] == spec_buf_off(iv, recs_end as int, j) as u32
                    && spec_buf_off(iv, recs_end as int, j) <= u32::MAX,
            forall|j: int| 0 <= j < ni ==> (#[trigger] iv[j]).alignment >= 1,
            forall|j: int| 0 <= j < ni ==> (#[trigger] iv[j]).buffer.len() <= u32::MAX,
            spec_prev_end(iv, recs_end as int, ni as int) <= u32::MAX,
        decreases ni - ci,
    {
        assert(iv[ci as int] == f.instances@[ci as int]@);
        proof {
            crate::bytes::lemma_align_up(cur2 as int, iv[ci as int].alignment as int);
            lemma_prev_end_mono(iv, recs_end as int, ci + 1 as int, ni as int);
        }
        let off = offs[ci];
        assert(off == spec_buf_off(iv, recs_end as int, ci as int));
        push_zeros(&mut bv, (off as u64 - cur2) as usize);
        push_bytes(&mut bv, f.instances[ci].buffer.as_slice());
        assert(bv@ =~= spec_buffers_prefix(iv, recs_end as int, ci + 1 as int));
        cur2 = off as u64 + f.instances[ci].buffer.len() as u64;
        ci = ci + 1;
    }
    bv
}

fn enc_string_table(pool: &Vec<Vec<u8>>) -> (sv: Vec<u8>)
    requires
        forall|j: int|
            0 <= j < spec_view_pool(pool@).len() ==> (#[trigger] spec_view_pool(pool@)[j]).len()
                <= 255,
    ensures
        sv@ == spec_strings_lens_prefix(spec_view_pool(pool@), spec_view_pool(pool@).len() as int)
            + spec_strings_data_prefix(
            spec_view_pool(pool@),
            spec_view_pool(pool@).len() as int,
        ),
{
    let ghost pv = spec_view_pool(pool@);
    let np = pool.len();
    let mut sv: Vec<u8> = Vec::new();
    let mut si: usize = 0;
    while si < np
        invariant
            si <= np,
            np == pv.len(),
            pv == spec_view_pool(pool@),
            forall|j: int| 0 <= j < np ==> (#[trigger] pv[j]).len() <= 255,
            sv@ == spec_strings_lens_prefix(pv, si as int),
        decreases np - si,
    {
        assert(pv[si as int] == pool@[si as int]@);
        sv.push(pool[si].len() as u8);
        assert(sv@ =~= spec_strings_lens_prefix(pv, si + 1 as int));
        si = si + 1;
    }
    let ghost lens_done = sv@;
    let mut di: usize = 0;
    while di < np
        invariant
            di <= np,
            np == pv.len(),
            pv == spec_view_pool(pool@),
            sv@ == lens_done + spec_strings_data_prefix(pv, di as int),
        decreases np - di,
    {
        assert(pv[di as int] == pool@[di as int]@);
        push_bytes(&mut sv, pool[di].as_slice());
        sv.push(0);
        assert(sv@ =~= lens_done + spec_strings_data_prefix(pv, di + 1 as int));
        di = di + 1;
    }
    sv
}

/// Write a file to bytes: the header, the type table, the instance table
/// with the aligned instance buffers, and the string pool, exactly as
/// `spec_serialize` lays them out. Fails when a count, a size or an offset
/// does not fit its on-disk field, when a pooled string is longer than 255
/// bytes, when an instance buffer records alignment zero, or when a member's
/// default value points outside the file's instance list.
#[verifier::rlimit(100)]
pub fn serialize(f: &AdfFile) -> (r: Result<Vec<u8>, AdfWriteError>)
    ensures
        r matches Ok(out) ==> spec_serialize_ok(f@) && out@ == spec_serialize(f@),
        r is Err ==> !spec_serialize_ok(f@),
        (exists|k: int|
            0 <= k < spec_pool_of_file(f@).len() && (#[trigger] spec_pool_of_file(f@)[k]).len()
                > 255) ==> r == Err::<Vec<u8>, AdfWriteError>(AdfWriteError::LengthOverflow),
{
    let ghost fv = f@;
    let pool = build_file_pool(f);
    let ghost pv = spec_view_pool(pool@);
    let nt = f.types.len();
    let ni = f.instances.len();
    let np = pool.len();
    if nt as u64 > 0xffff_ffffu64 || ni as u64 > 0xffff_ffffu64 || np as u64 > 0xffff_ffffu64 {
        return Err(AdfWriteError::LengthOverflow);
    }
    if let Err(e) = check_pool_strings(&pool) {
        return Err(e);
    }
    if let Err(e) = check_instances(f) {
        return Err(e);
    }
    proof {
        lemma_layout_monotone(fv);
    }
    let tv = match enc_all_types(f, &pool) {
        Ok(tv) => tv,
        Err(e) => {
            return Err(e);
        },
    };
    assert(tv@ == spec_type_table_bytes(fv));
    if f.description.len() as u64 > 0xffff_ffffu64 - 65 {
        return Err(AdfWriteError::SizeOverflow);
    }
    let hlen: u64 = 65 + f.description.len() as u64;
    assert(hlen == spec_header_len(fv));
    let pos_t: u64 = align_up_u64_pub(hlen, 16);
    if nt > 0 && (tv.len() as u64 > 0xffff_ffffu64 || pos_t + tv.len() as u64 > 0xffff_ffffu64) {
        return Err(AdfWriteError::SizeOverflow);
    }
    let after_t: u64 = if nt > 0 {
        pos_t + tv.len() as u64
    } else {
        hlen
    };
    assert(after_t == spec_after_types(fv));
    let pos_i: u64 = align_up_u64_pub(after_t, 16);
    let recs_end: u64 = pos_i + 24 * (ni as u64);
    if ni > 0 && recs_end > 0xffff_ffffu64 {
        proof {
            lemma_prev_end_mono(fv.instances, spec_records_end(fv), 0, fv.instances.len() as int);
        }
        return Err(AdfWriteError::SizeOverflow);
    }
    let (offs, bufs_end) = match compute_buffer_offsets(
        f,
        if ni > 0 {
            recs_end
        } else {
            0
        },
    ) {
        Ok(p) => p,
        Err(e) => {
            proof {
                let re: int = if ni > 0 {
                    recs_end as int
                } else {
                    0
                };
                let i = choose|i: int|
                    0 < i <= fv.instances.len() && #[trigger] spec_prev_end(fv.instances, re, i)
                        > u32::MAX;
                if ni > 0 {
                    lemma_prev_end_overflow(fv, i);
                }
            }
            return Err(e);
        },
    };
    let rv = enc_all_records(
        f,
        &pool,
        &offs,
        if ni > 0 {
            recs_end
        } else {
            0
        },
    );
    let bv = enc_all_buffers(
        f,
        &offs,
        if ni > 0 {
            recs_end
        } else {
            0
        },
    );
    let after_i: u64 = if ni > 0 {
        bufs_end
    } else {
        after_t
    };
    assert(after_i == spec_after_instances(fv)) by {
        if ni > 0 {
            lemma_buffers_len(fv.instances, recs_end as int, fv.instances.len() as int);
        }
    }
    let sv = enc_string_table(&pool);
    assert(sv@ == spec_string_table_bytes(fv));
    if np > 0 && sv.len() as u64 > 0xffff_ffffu64 {
        return Err(AdfWriteError::SizeOverflow);
    }
    let pos_s: u64 = align_up_u64_pub(after_i, 16);
    let fsize: u64 = if np > 0 {
        pos_s + sv.len() as u64
    } else {
        after_i
    };
    assert(fsize == spec_file_end(fv));
    if fsize > 0xffff_ffffu64 {
        return Err(AdfWriteError::SizeOverflow);
    }
    let out = assemble_file(
        f,
        tv,
        rv,
        bv,
        sv,
        np as u64,
        pos_t,
        pos_i,
        recs_end,
        pos_s,
        hlen,
        after_t,
        after_i,
        fsize,
    );
    Ok(out)
}

fn assemble_file(
    f: &AdfFile,
    tv: Vec<u8>,
    rv: Vec<u8>,
    bv: Vec<u8>,
    sv: Vec<u8>,
    np: u64,
    pos_t: u64,
    pos_i: u64,
    recs_end: u64,
    pos_s: u64,
    hlen: u64,
    after_t: u64,
    after_i: u64,
    fsize: u64,
) -> (out: Vec<u8>)
    requires
        tv@ == spec_type_table_bytes(f@),
        rv@ == spec_enc_records_prefix(
            f@.instances,
            spec_pool_of_file(f@),
            if f@.instances.len() > 0 {
                spec_records_end(f@)
            } else {
                0
            },
            f@.instances.len() as int,
        ),
        bv@ == spec_buffers_prefix(
            f@.instances,
            if f@.instances.len() > 0 {
                spec_records_end(f@)
            } else {
                0
            },
            f@.instances.len() as int,
        ),
        sv@ == spec_string_table_bytes(f@),
        np == spec_pool_of_file(f@).len(),
        hlen == spec_header_len(f@),
        pos_t == spec_type_table_pos(f@),
        after_t == spec_after_types(f@),
        pos_i == spec_instance_table_pos(f@),
        f@.instances.len() > 0 ==> recs_end == spec_records_end(f@),
        f@.instances.len() > 0 ==> spec_records_end(f@) + bv@.len() == spec_after_instances(f@),
        after_i == spec_after_instances(f@),
        pos_s == spec_string_table_pos(f@),
        fsize == spec_file_end(f@),
        fsize <= u32::MAX,
        f@.types.len() <= u32::MAX,
        f@.instances.len() <= u32::MAX,
        spec_pool_of_file(f@).len() <= u32::MAX,
        forall|k: int|
            0 <= k < f@.instances.len() ==> (#[trigger] f@.instances[k]).alignment >= 1,
    ensures
        out@ == spec_serialize(f@),
{
    let ghost fv = f@;
    proof {
        lemma_layout_monotone(fv);
    }
    let nt = f.types.len();
    let ni = f.instances.len();
    let has_strings = np > 0;
    let mut out: Vec<u8> = Vec::new();
    header_into(
        &mut out,
        ni as u32,
        if ni > 0 {
            pos_i as u32
        } else {
            0
        },
        nt as u32,
        if nt > 0 {
            pos_t as u32
        } else {
            0
        },
        np as u32,
        if has_strings {
            pos_s as u32
        } else {
            0
        },
        fsize as u32,
        &f.description,
    );
    assert(out@ =~= spec_ser_header(fv));
    if nt > 0 {
        push_zeros(&mut out, (pos_t - hlen) as usize);
        push_bytes(&mut out, tv.as_slice());
    }
    assert(out@ == spec_ser_with_types(fv));
    if ni > 0 {
        push_zeros(&mut out, (pos_i - after_t) as usize);
        push_bytes(&mut out, rv.as_slice());
        push_bytes(&mut out, bv.as_slice());
    }
    assert(out@ == spec_ser_with_instances(fv));
    if has_strings {
        push_zeros(&mut out, (pos_s - after_i) as usize);
        push_bytes(&mut out, sv.as_slice());
    }
    assert(out@ == spec_serialize(fv));
    out
}

/// Each instance record is 24 bytes long.
#[verifier::rlimit(100)]
pub proof fn lemma_records_len(
    insts: Seq<AdfInstanceView>,
    pool: Seq<Seq<u8>>,
    pos0: int,
    i: int,
)
    requires
        0 <= i <= insts.len(),
    ensures
        spec_enc_records_prefix(insts, pool, pos0, i).len() == 24 * i,
    decreases i,
{
    if i > 0 {
        lemma_records_len(insts, pool, pos0, i - 1);
    }
}

} // verus!
