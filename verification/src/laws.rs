use vstd::prelude::*;

use crate::bytes::{spec_le32, spec_u32_at};
use crate::container::{
    spec_enc_record, spec_file_end, spec_header_len, spec_serialize, spec_ser_header,
    spec_ser_with_instances, spec_ser_with_types, lemma_buffers_len, lemma_layout_monotone,
    lemma_records_len, spec_after_instances, spec_after_types, spec_records_end,
};
use crate::hashing::spec_hash_little32;
use crate::parse::{
    spec_parse_instance, spec_parse_member, spec_parse_members, spec_parse_type, spec_parse_types,
    spec_parse_type_table, spec_parse,
};
use crate::pools::spec_pool_of_file;
use crate::types::{AdfFileView, AdfInstanceView, AdfPrimitive, AdfTypeView};

verus! {

// The whole-file laws: what every file this library writes or reads
// satisfies, stated over the same specifications the writer's and the
// reader's contracts use.

/// Every instance record a write emits opens with the hash of the
/// instance's name: the first four record bytes encode exactly that hash.
pub proof fn law_written_record_carries_name_hash(
    inst: AdfInstanceView,
    boff: u32,
    pool: Seq<Seq<u8>>,
)
    ensures
        spec_enc_record(inst, boff, pool).take(4) =~= spec_le32(spec_hash_little32(inst.name)),
{
}

/// Every instance record a read accepts carries the hash of the name the
/// instance ends up with: a mismatch is rejected, so acceptance pins the
/// stored hash to the stored name.
pub proof fn law_read_record_name_hash_matches(s: Seq<u8>, pool: Seq<Seq<u8>>, pos: int)
    requires
        spec_parse_instance(s, pool, pos) is Ok,
    ensures
        spec_u32_at(s, pos) == spec_hash_little32(
            spec_parse_instance(s, pool, pos)->Ok_0.name,
        ),
{
}

/// A record whose other fields are in order is accepted exactly when its
/// stored hash is the hash of its resolved name, and a mismatch is
/// rejected with that stored hash's error and no other.
pub proof fn law_record_accepted_iff_name_hash_matches(s: Seq<u8>, pool: Seq<Seq<u8>>, pos: int)
    requires
        0 <= pos,
        pos + 24 <= s.len(),
        crate::bytes::spec_u64_at(s, pos + 16) < pool.len(),
        spec_u32_at(s, pos + 8) + spec_u32_at(s, pos + 12) <= s.len(),
    ensures
        spec_parse_instance(s, pool, pos) is Ok <==> spec_u32_at(s, pos) == spec_hash_little32(
            pool[crate::bytes::spec_u64_at(s, pos + 16) as int],
        ),
        spec_u32_at(s, pos) != spec_hash_little32(
            pool[crate::bytes::spec_u64_at(s, pos + 16) as int],
        ) ==> spec_parse_instance(s, pool, pos) == Err::<
            AdfInstanceView,
            crate::types::AdfParseError,
        >(
            crate::types::AdfParseError::Instance(
                crate::types::AdfInstanceError::InvalidNameHash(spec_u32_at(s, pos)),
            ),
        ),
{
}

/// Only the kind-specific field lists are ever filled on read: a type that
/// is not a structure has no members, and one that is not an enumeration
/// has no entries.
pub open spec fn spec_kind_fields_wf(t: AdfTypeView) -> bool {
    &&& (t.primitive != AdfPrimitive::Structure ==> t.members.len() == 0)
    &&& (t.primitive != AdfPrimitive::Enumeration ==> t.enumerations.len() == 0)
    &&& forall|j: int| 0 <= j < t.members.len() ==> (#[trigger] t.members[j]).offsets.wf()
}

proof fn lemma_parse_members_offsets(
    s: Seq<u8>,
    pool: Seq<Seq<u8>>,
    insts: Seq<AdfInstanceView>,
    pos: int,
    n: int,
)
    requires
        spec_parse_members(s, pool, insts, pos, n) is Ok,
    ensures
        forall|j: int|
            0 <= j < spec_parse_members(s, pool, insts, pos, n)->Ok_0.0.len()
                ==> (#[trigger] spec_parse_members(s, pool, insts, pos, n)->Ok_0.0[j]).offsets.wf(),
    decreases n,
{
    if n > 0 {
        reveal(spec_parse_member);
        let m = spec_parse_member(s, pool, insts, pos)->Ok_0;
        vstd::arithmetic::div_mod::lemma_mod_bound(spec_u32_at(s, pos + 16) as int, 0x1000000);
        assert(m.0.offsets.wf());
        lemma_parse_members_offsets(s, pool, m.1, pos + 32, n - 1);
        let rest = spec_parse_members(s, pool, m.1, pos + 32, n - 1)->Ok_0.0;
        assert(spec_parse_members(s, pool, insts, pos, n)->Ok_0.0[0] == m.0);
        assert forall|j: int|
            0 <= j < spec_parse_members(s, pool, insts, pos, n)->Ok_0.0.len() implies (
        #[trigger] spec_parse_members(s, pool, insts, pos, n)->Ok_0.0[j]).offsets.wf() by {
            if j > 0 {
                assert(spec_parse_members(s, pool, insts, pos, n)->Ok_0.0[j] == rest[j - 1]);
            }
        }
    }
}

proof fn lemma_parse_type_kind_fields(
    s: Seq<u8>,
    pool: Seq<Seq<u8>>,
    insts: Seq<AdfInstanceView>,
    pos: int,
)
    requires
        spec_parse_type(s, pool, insts, pos) is Ok,
    ensures
        spec_kind_fields_wf(spec_parse_type(s, pool, insts, pos)->Ok_0.0),
{
    let t = spec_parse_type(s, pool, insts, pos)->Ok_0.0;
    if t.primitive == AdfPrimitive::Structure {
        let n = spec_u32_at(s, pos + 36);
        lemma_parse_members_offsets(s, pool, insts, pos + 40, n as int);
    }
}

proof fn lemma_parse_types_kind_fields(
    s: Seq<u8>,
    pool: Seq<Seq<u8>>,
    insts: Seq<AdfInstanceView>,
    pos: int,
    n: int,
)
    requires
        spec_parse_types(s, pool, insts, pos, n) is Ok,
    ensures
        forall|k: int|
            0 <= k < spec_parse_types(s, pool, insts, pos, n)->Ok_0.0.len()
                ==> spec_kind_fields_wf(
                #[trigger] spec_parse_types(s, pool, insts, pos, n)->Ok_0.0[k],
            ),
    decreases n,
{
    if n > 0 {
        let step = spec_parse_type(s, pool, insts, pos)->Ok_0;
        lemma_parse_type_kind_fields(s, pool, insts, pos);
        lemma_parse_types_kind_fields(s, pool, step.1, step.2, n - 1);
        let rest = spec_parse_types(s, pool, step.1, step.2, n - 1)->Ok_0.0;
        assert forall|k: int|
            0 <= k < spec_parse_types(s, pool, insts, pos, n)->Ok_0.0.len() implies spec_kind_fields_wf(
            #[trigger] spec_parse_types(s, pool, insts, pos, n)->Ok_0.0[k],
        ) by {
            if k > 0 {
                assert(spec_parse_types(s, pool, insts, pos, n)->Ok_0.0[k] == rest[k - 1]);
            }
        }
    }
}

/// Every file a read accepts matches the kind-specific field schema: no
/// members outside structures, no entries outside enumerations, and every
/// member's byte offset fits its 24 on-disk bits.
pub proof fn law_parsed_types_match_kind_schema(s: Seq<u8>)
    requires
        spec_parse(s) is Ok,
    ensures
        forall|k: int|
            0 <= k < spec_parse(s)->Ok_0.types.len() ==> spec_kind_fields_wf(
                #[trigger] spec_parse(s)->Ok_0.types[k],
            ),
{
    let f = spec_parse(s)->Ok_0;
    let string_count = spec_u32_at(s, 32);
    let string_offset = spec_u32_at(s, 36);
    let pool = crate::parse::spec_parse_string_table(s, string_offset, string_count)->Ok_0;
    let insts = crate::parse::spec_parse_instance_table(
        s,
        pool,
        spec_u32_at(s, 12),
        spec_u32_at(s, 8),
    )->Ok_0;
    let type_offset = spec_u32_at(s, 20);
    let type_count = spec_u32_at(s, 16);
    if type_offset != 0 {
        lemma_parse_types_kind_fields(s, pool, insts, type_offset as int, type_count as int);
    }
}

/// The header's file-size field and the byte count a write produces agree:
/// a write of `f` emits exactly `spec_file_end(f)` bytes, and that number
/// is the one the header states.
pub proof fn law_written_size_matches_header(f: AdfFileView)
    requires
        forall|k: int| 0 <= k < f.instances.len() ==> (#[trigger] f.instances[k]).alignment >= 1,
    ensures
        spec_serialize(f).len() == spec_file_end(f),
        spec_serialize(f).len() >= 44 ==> spec_u32_at(spec_serialize(f), 40) == spec_file_end(
            f,
        ) as u32,
{
    lemma_layout_monotone(f);
    assert(spec_ser_header(f).len() == spec_header_len(f));
    if f.instances.len() > 0 {
        lemma_records_len(
            f.instances,
            spec_pool_of_file(f),
            spec_records_end(f),
            f.instances.len() as int,
        );
        lemma_buffers_len(f.instances, spec_records_end(f), f.instances.len() as int);
    }
    assert(spec_ser_with_types(f).len() == spec_after_types(f));
    assert(spec_ser_with_instances(f).len() == spec_after_instances(f));
    assert(spec_serialize(f).len() == spec_file_end(f));
    if spec_serialize(f).len() >= 44 {
        let hdr = spec_ser_header(f);
        assert(spec_serialize(f)[40] == hdr[40]);
        assert(spec_serialize(f)[41] == hdr[41]);
        assert(spec_serialize(f)[42] == hdr[42]);
        assert(spec_serialize(f)[43] == hdr[43]);
        assert(hdr[40] == spec_le32(spec_file_end(f) as u32)[0]);
        assert(hdr[41] == spec_le32(spec_file_end(f) as u32)[1]);
        assert(hdr[42] == spec_le32(spec_file_end(f) as u32)[2]);
        assert(hdr[43] == spec_le32(spec_file_end(f) as u32)[3]);
        crate::bytes::lemma_le32_roundtrip(spec_file_end(f) as u32);
    }
}


/// A run of nonzero bytes ending in a zero: the terminator scan lands on
/// that zero.
proof fn lemma_find_nul_lands(s: Seq<u8>, i: int, e: int)
    requires
        0 <= i <= e < s.len(),
        forall|j: int| i <= j < e ==> s[j] != 0,
        s[e] == 0,
    ensures
        crate::parse::spec_find_nul(s, i) == e,
    decreases e - i,
{
    if i < e {
        lemma_find_nul_lands(s, i + 1, e);
    }
}

proof fn lemma_header_field(s: Seq<u8>, hdr: Seq<u8>, pos: int, v: u32)
    requires
        0 <= pos,
        pos + 4 <= hdr.len(),
        s.len() >= hdr.len(),
        forall|j: int| 0 <= j < hdr.len() ==> s[j] == hdr[j],
        hdr[pos] == spec_le32(v)[0],
        hdr[pos + 1] == spec_le32(v)[1],
        hdr[pos + 2] == spec_le32(v)[2],
        hdr[pos + 3] == spec_le32(v)[3],
    ensures
        spec_u32_at(s, pos) == v,
{
    crate::bytes::lemma_le32_roundtrip(v);
}

/// Round trip of a file that carries only its header: writing a file with
/// no types, no instances and no hash list, whose description holds no zero
/// byte, and reading the bytes back, yields the file itself.
#[verifier::rlimit(100)]
pub proof fn law_header_only_round_trip(f: AdfFileView)
    requires
        f.types.len() == 0,
        f.instances.len() == 0,
        f.hashes.len() == 0,
        f.version == crate::types::AdfVersion::V4,
        forall|j: int| 0 <= j < f.description.len() ==> (#[trigger] f.description[j]) != 0,
        spec_file_end(f) <= u32::MAX,
    ensures
        spec_parse(spec_serialize(f)) == Ok::<AdfFileView, crate::types::AdfParseError>(f),
{
    lemma_layout_monotone(f);
    law_written_size_matches_header(f);
    let pool = spec_pool_of_file(f);
    assert(pool =~= Seq::<Seq<u8>>::empty());
    let s = spec_serialize(f);
    let hdr = spec_ser_header(f);
    assert(s == hdr);
    assert(s.len() == 65 + f.description.len());
    assert(s[0] == 0x20 && s[1] == 0x46 && s[2] == 0x44 && s[3] == 0x41);
    lemma_header_field(s, hdr, 4, 4);
    lemma_header_field(s, hdr, 8, 0);
    lemma_header_field(s, hdr, 12, 0);
    lemma_header_field(s, hdr, 16, 0);
    lemma_header_field(s, hdr, 20, 0);
    lemma_header_field(s, hdr, 24, 0);
    lemma_header_field(s, hdr, 28, 0);
    lemma_header_field(s, hdr, 32, 0);
    lemma_header_field(s, hdr, 36, 0);
    assert forall|j: int| 64 <= j < 64 + f.description.len() implies s[j] != 0 by {
        assert(s[j] == f.description[j - 64]);
    }
    assert(s[64 + f.description.len() as int] == 0);
    lemma_find_nul_lands(s, 64, 64 + f.description.len() as int);
    assert(s.subrange(64, 64 + f.description.len() as int) =~= f.description);
    let parsed = spec_parse(s);
    assert(parsed is Ok);
    assert(parsed->Ok_0.types =~= f.types);
    assert(parsed->Ok_0.instances =~= f.instances);
    assert(parsed->Ok_0.hashes =~= f.hashes);
    assert(parsed->Ok_0 == f);
}


/// Reflective round trip of a scalar: writing back the scalar a read
/// produced reproduces the buffer, byte for byte.
pub proof fn law_scalar_read_write_round_trip(t: AdfTypeView, buf: Seq<u8>, off: int)
    requires
        t.alignment == t.size,
        0 <= off,
        off + t.size <= buf.len(),
        crate::reflect::spec_read_scalar(t.scalar_type, t.size, buf, off) is Ok,
    ensures
        crate::reflect::spec_write_scalar(
            crate::reflect::spec_read_scalar(t.scalar_type, t.size, buf, off)->Ok_0,
            t,
            buf,
            off,
        ) == Ok::<Seq<u8>, crate::reflect::AdfReflectError>(buf),
{
    let sc = crate::reflect::spec_read_scalar(t.scalar_type, t.size, buf, off)->Ok_0;
    let w = crate::reflect::spec_write_scalar(sc, t, buf, off);
    let enc: Seq<u8> = if t.size == 1 {
        seq![buf[off]]
    } else if t.size == 2 {
        crate::bytes::spec_le16(crate::bytes::spec_u16_at(buf, off))
    } else if t.size == 4 {
        spec_le32(spec_u32_at(buf, off))
    } else {
        crate::bytes::spec_le64(crate::bytes::spec_u64_at(buf, off))
    };
    if t.size == 2 {
        lemma_le16_of_bytes(buf.subrange(off, off + 2));
        assert(crate::bytes::spec_u16_at(buf.subrange(off, off + 2), 0) == crate::bytes::spec_u16_at(buf, off));
    }
    if t.size == 4 {
        crate::bytes::lemma_le32_of_bytes(buf.subrange(off, off + 4));
        assert(spec_u32_at(buf.subrange(off, off + 4), 0) == spec_u32_at(buf, off));
    }
    if t.size == 8 {
        lemma_le64_of_bytes(buf.subrange(off, off + 8));
        assert(crate::bytes::spec_u64_at(buf.subrange(off, off + 8), 0) == crate::bytes::spec_u64_at(buf, off));
    }
    assert(enc =~= buf.subrange(off, off + t.size));
    assert(w == Ok::<Seq<u8>, crate::reflect::AdfReflectError>(
        crate::reflect::spec_splice(buf, off, enc),
    ));
    assert(crate::reflect::spec_splice(buf, off, buf.subrange(off, off + t.size)) =~= buf);
}

/// Decoding two bytes and re-encoding the value gives the bytes back.
pub proof fn lemma_le16_of_bytes(s: Seq<u8>)
    requires
        s.len() == 2,
    ensures
        crate::bytes::spec_le16(crate::bytes::spec_u16_at(s, 0)) =~= s,
{
    let v = crate::bytes::spec_u16_at(s, 0) as int;
    vstd::arithmetic::div_mod::lemma_fundamental_div_mod_converse(
        v,
        0x100,
        s[1] as int,
        s[0] as int,
    );
    vstd::arithmetic::div_mod::lemma_basic_div(s[1] as int, 0x100);
}

/// Decoding eight bytes and re-encoding the value gives the bytes back.
pub proof fn lemma_le64_of_bytes(s: Seq<u8>)
    requires
        s.len() == 8,
    ensures
        crate::bytes::spec_le64(crate::bytes::spec_u64_at(s, 0)) =~= s,
{
    let b0 = s[0] as int;
    let b1 = s[1] as int;
    let b2 = s[2] as int;
    let b3 = s[3] as int;
    let b4 = s[4] as int;
    let b5 = s[5] as int;
    let b6 = s[6] as int;
    let b7 = s[7] as int;
    let v = crate::bytes::spec_u64_at(s, 0) as int;
    let t1 = b1 + b2 * 0x100 + b3 * 0x10000 + b4 * 0x1000000 + b5 * 0x1_0000_0000 + b6
        * 0x100_0000_0000 + b7 * 0x1_0000_0000_0000;
    let t2 = b2 + b3 * 0x100 + b4 * 0x10000 + b5 * 0x1000000 + b6 * 0x1_0000_0000 + b7
        * 0x100_0000_0000;
    let t3 = b3 + b4 * 0x100 + b5 * 0x10000 + b6 * 0x1000000 + b7 * 0x1_0000_0000;
    let t4 = b4 + b5 * 0x100 + b6 * 0x10000 + b7 * 0x1000000;
    let t5 = b5 + b6 * 0x100 + b7 * 0x10000;
    let t6 = b6 + b7 * 0x100;
    vstd::arithmetic::div_mod::lemma_fundamental_div_mod_converse(v, 0x100, t1, b0);
    vstd::arithmetic::div_mod::lemma_fundamental_div_mod_converse(t1, 0x100, t2, b1);
    vstd::arithmetic::div_mod::lemma_fundamental_div_mod_converse(t2, 0x100, t3, b2);
    vstd::arithmetic::div_mod::lemma_fundamental_div_mod_converse(t3, 0x100, t4, b3);
    vstd::arithmetic::div_mod::lemma_fundamental_div_mod_converse(t4, 0x100, t5, b4);
    vstd::arithmetic::div_mod::lemma_fundamental_div_mod_converse(t5, 0x100, t6, b5);
    vstd::arithmetic::div_mod::lemma_fundamental_div_mod_converse(t6, 0x100, b7, b6);
    vstd::arithmetic::div_mod::lemma_basic_div(b7, 0x100);
    vstd::arithmetic::div_mod::lemma_div_denominator(v, 0x100, 0x100);
    vstd::arithmetic::div_mod::lemma_div_denominator(v, 0x10000, 0x100);
    vstd::arithmetic::div_mod::lemma_div_denominator(v, 0x1000000, 0x100);
    vstd::arithmetic::div_mod::lemma_div_denominator(v, 0x1_0000_0000, 0x100);
    vstd::arithmetic::div_mod::lemma_div_denominator(v, 0x100_0000_0000, 0x100);
    vstd::arithmetic::div_mod::lemma_div_denominator(v, 0x1_0000_0000_0000, 0x100);
}

/// A bitfield as wide as its scalar, at bit offset zero, reads as the whole
/// stored word.
pub proof fn law_full_width_bitfield_reads_whole_word(t: AdfTypeView, buf: Seq<u8>, off: int)
    requires
        t.scalar_type == crate::types::AdfScalarType::Unsigned,
        t.size == 4,
        t.element_length == 32,
    ensures
        crate::reflect::spec_read_bitfield(t.scalar_type, t.size, t.element_length, buf, off, 0)
            == Ok::<
            crate::reflect::AdfReflectedScalar,
            crate::reflect::AdfReflectError,
        >(crate::reflect::AdfReflectedScalar::U32(spec_u32_at(buf, off))),
{
    let raw = spec_u32_at(buf, off) as u64;
    let ones = crate::reflect::spec_width_mask(32);
    assert((1u64 << 32u64) - 1 == 0xffff_ffffu64) by (bit_vector);
    assert(ones == 0xffff_ffffu64);
    let shifted = ones << 0u32;
    let m = shifted & ones;
    assert(m == 0xffff_ffffu64) by (bit_vector)
        requires
            ones == 0xffff_ffffu64,
            shifted == ones << 0u32,
            m == shifted & ones,
    ;
    let u = (raw & m) >> 0u32;
    assert(u == raw && (u & 0xffff_ffffu64) == raw) by (bit_vector)
        requires
            raw <= 0xffff_ffffu64,
            m == 0xffff_ffffu64,
            u == (raw & m) >> 0u32,
    ;
    assert((u & 0xffff_ffff) as u32 == spec_u32_at(buf, off));
}


/// Splicing eight bytes in leaves the buffer's length alone, the spliced
/// slot decodes to the spliced value, and every byte outside the slot is
/// untouched.
pub proof fn lemma_splice_u64(s: Seq<u8>, off: int, v: u64)
    requires
        0 <= off,
        off + 8 <= s.len(),
    ensures
        crate::reflect::spec_splice(s, off, crate::bytes::spec_le64(v)).len() == s.len(),
        crate::bytes::spec_u64_at(crate::reflect::spec_splice(s, off, crate::bytes::spec_le64(v)), off) == v,
        forall|i: int|
            0 <= i < s.len() && !(off <= i < off + 8) ==> crate::reflect::spec_splice(
                s,
                off,
                crate::bytes::spec_le64(v),
            )[i] == s[i],
{
    let sp = crate::reflect::spec_splice(s, off, crate::bytes::spec_le64(v));
    assert(sp.len() == s.len());
    assert forall|k: int| 0 <= k < 8 implies sp[off + k] == crate::bytes::spec_le64(v)[k] by {
        assert(sp[off + k] == (s.take(off) + crate::bytes::spec_le64(v) + s.skip(off + 8))[off + k]);
    }
    crate::bytes::lemma_le64_roundtrip(v);
}

/// Identity sharing on write: after a shared object's first emission, a
/// second emission of the same key and type appends nothing, adds no
/// record, moves the tail nowhere, and leaves both slots holding the same
/// single payload offset.
pub proof fn law_shared_payload_written_once(
    buf: Seq<u8>,
    slot1: int,
    slot2: int,
    key: u64,
    payload: Seq<u8>,
    payload2: Seq<u8>,
    align: u64,
    type_id: u32,
    tail: u64,
    entries: Seq<(u64, u64, u32)>,
)
    requires
        0 <= slot1,
        slot1 + 8 <= slot2,
        slot2 + 8 <= buf.len(),
        buf.len() <= tail,
        1 <= align,
        tail + align + 16 <= u32::MAX,
        crate::typed::spec_refs_find(entries, key, 0) == entries.len(),
    ensures
        ({
            let w1 = crate::typed::spec_write_shared(
                buf,
                slot1,
                key,
                payload,
                align,
                type_id,
                tail,
                entries,
            );
            &&& w1 is Ok
            &&& ({
                let (b1, t1, e1) = w1->Ok_0;
                let w2 = crate::typed::spec_write_shared(
                    b1,
                    slot2,
                    key,
                    payload2,
                    align,
                    type_id,
                    t1,
                    e1,
                );
                let off = crate::bytes::spec_align_up(
                    tail as int,
                    crate::typed::spec_shared_align(align),
                );
                &&& w2 is Ok
                &&& w2->Ok_0.0.len() == b1.len()
                &&& w2->Ok_0.1 == t1
                &&& w2->Ok_0.2 == e1
                &&& crate::bytes::spec_u64_at(w2->Ok_0.0, slot1) == off as u64
                &&& crate::bytes::spec_u64_at(w2->Ok_0.0, slot2) == off as u64
            })
        }),
{
    let a = crate::typed::spec_shared_align(align);
    crate::bytes::lemma_align_up(tail as int, a);
    let off = crate::bytes::spec_align_up(tail as int, a);
    let w1 = crate::typed::spec_write_shared(buf, slot1, key, payload, align, type_id, tail, entries);
    let (b1, t1, e1) = w1->Ok_0;
    lemma_splice_u64(buf, slot1, off as u64);
    let spliced1 = crate::reflect::spec_splice(buf, slot1, crate::bytes::spec_le64(off as u64));
    assert(b1 == spliced1 + crate::bytes::spec_zeros(off - buf.len()) + payload);
    assert(e1 == entries.push((key, off as u64, type_id)));
    lemma_refs_find_push(entries, key, off as u64, type_id);
    assert(crate::typed::spec_refs_find(e1, key, 0) == entries.len());
    assert(e1[entries.len() as int] == (key, off as u64, type_id));
    let w2 = crate::typed::spec_write_shared(b1, slot2, key, payload2, align, type_id, t1, e1);
    assert(w2 is Ok);
    let b2 = w2->Ok_0.0;
    assert(b2 == crate::reflect::spec_splice(b1, slot2, crate::bytes::spec_le64(off as u64)));
    assert(b1.len() >= buf.len());
    lemma_splice_u64(b1, slot2, off as u64);
    assert(crate::bytes::spec_u64_at(b2, slot2) == off as u64);
    // slot1 lies outside slot2's spliced window, so its bytes carry over
    assert forall|k: int| 0 <= k < 8 implies #[trigger] b2[slot1 + k] == spliced1[slot1 + k] by {
        assert(b2[slot1 + k] == b1[slot1 + k]);
        assert(b1[slot1 + k] == spliced1[slot1 + k]);
    }
    lemma_splice_u64(buf, slot1, off as u64);
    assert(crate::bytes::spec_u64_at(b2, slot1) == crate::bytes::spec_u64_at(spliced1, slot1));
}

/// A key first recorded keeps its position as the record it was given.
proof fn lemma_refs_find_push(entries: Seq<(u64, u64, u32)>, key: u64, off: u64, tid: u32)
    requires
        crate::typed::spec_refs_find(entries, key, 0) == entries.len(),
    ensures
        crate::typed::spec_refs_find(entries.push((key, off, tid)), key, 0) == entries.len(),
{
    lemma_refs_find_push_from(entries, key, off, tid, 0);
}

proof fn lemma_refs_find_push_from(
    entries: Seq<(u64, u64, u32)>,
    key: u64,
    off: u64,
    tid: u32,
    j: int,
)
    requires
        0 <= j <= entries.len(),
        crate::typed::spec_refs_find(entries, key, j) == entries.len(),
    ensures
        crate::typed::spec_refs_find(entries.push((key, off, tid)), key, j) == entries.len(),
    decreases entries.len() - j,
{
    let p = entries.push((key, off, tid));
    if j < entries.len() {
        assert(p[j] == entries[j]);
        assert(crate::typed::spec_refs_find(entries, key, j + 1) == entries.len());
        lemma_refs_find_push_from(entries, key, off, tid, j + 1);
    } else {
        assert(p[j].0 == key);
    }
}

/// Identity sharing on read: two slots holding the same stored offset
/// reconstruct the same identity; the second visit is not fresh and adds
/// no record.
pub proof fn law_shared_identity_restored(
    buf: Seq<u8>,
    slot1: int,
    slot2: int,
    type_id: u32,
    entries: Seq<(u64, u32)>,
)
    requires
        0 <= slot1,
        slot1 + 8 <= buf.len(),
        0 <= slot2,
        slot2 + 8 <= buf.len(),
        crate::bytes::spec_u64_at(buf, slot1) == crate::bytes::spec_u64_at(buf, slot2),
        crate::typed::spec_rrefs_find(entries, crate::bytes::spec_u64_at(buf, slot1), 0)
            == entries.len(),
    ensures
        ({
            let r1 = crate::typed::spec_read_shared(buf, slot1, type_id, entries);
            &&& r1 is Ok
            &&& r1->Ok_0.1 == true
            &&& ({
                let r2 = crate::typed::spec_read_shared(buf, slot2, type_id, r1->Ok_0.2);
                &&& r2 is Ok
                &&& r2->Ok_0.0 == r1->Ok_0.0
                &&& r2->Ok_0.1 == false
                &&& r2->Ok_0.2 == r1->Ok_0.2
            })
        }),
{
    let off = crate::bytes::spec_u64_at(buf, slot1);
    lemma_rrefs_find_push_from(entries, off, type_id, 0);
    let e1 = entries.push((off, type_id));
    assert(e1[entries.len() as int] == (off, type_id));
}

proof fn lemma_rrefs_find_push_from(entries: Seq<(u64, u32)>, off: u64, tid: u32, j: int)
    requires
        0 <= j <= entries.len(),
        crate::typed::spec_rrefs_find(entries, off, j) == entries.len(),
    ensures
        crate::typed::spec_rrefs_find(entries.push((off, tid)), off, j) == entries.len(),
    decreases entries.len() - j,
{
    let p = entries.push((off, tid));
    if j < entries.len() {
        assert(p[j] == entries[j]);
        assert(crate::typed::spec_rrefs_find(entries, off, j + 1) == entries.len());
        lemma_rrefs_find_push_from(entries, off, tid, j + 1);
    } else {
        assert(p[j].0 == off);
    }
}


/// A bitfield as wide as its scalar, at bit offset zero, reads exactly as
/// the scalar itself does, for every size and for both integer kinds.
pub proof fn law_full_width_bitfield_reads_as_scalar(t: AdfTypeView, buf: Seq<u8>, off: int)
    requires
        t.scalar_type != crate::types::AdfScalarType::Float,
        t.size == 1 || t.size == 2 || t.size == 4 || t.size == 8,
        t.element_length == 8 * t.size,
    ensures
        crate::reflect::spec_read_bitfield(t.scalar_type, t.size, t.element_length, buf, off, 0)
            == crate::reflect::spec_read_scalar(t.scalar_type, t.size, buf, off),
{
    let w: u32 = (8 * t.size) as u32;
    let raw: u64 = if t.size == 1 {
        buf[off] as u64
    } else if t.size == 2 {
        crate::bytes::spec_u16_at(buf, off) as u64
    } else if t.size == 4 {
        spec_u32_at(buf, off) as u64
    } else {
        crate::bytes::spec_u64_at(buf, off)
    };
    assert((1u64 << 8u64) - 1 == 0xffu64) by (bit_vector);
    assert((1u64 << 16u64) - 1 == 0xffffu64) by (bit_vector);
    assert((1u64 << 32u64) - 1 == 0xffff_ffffu64) by (bit_vector);
    lemma_full_width_mask_identity(raw, w);
    if t.scalar_type == crate::types::AdfScalarType::Signed {
        lemma_full_width_fill_identity(
            raw & ((crate::reflect::spec_width_mask(w) << 0u32)
                & crate::reflect::spec_width_mask(w)),
            w,
        );
    }
}

/// Masking a `w`-bit value with the full-width mask and shifting by zero
/// leaves it unchanged, and so does any narrower truncation that covers it.
proof fn lemma_full_width_mask_identity(raw: u64, w: u32)
    requires
        w == 8 || w == 16 || w == 32 || w == 64,
        raw <= crate::reflect::spec_width_mask(w),
    ensures
        raw & ((crate::reflect::spec_width_mask(w) << 0u32) & crate::reflect::spec_width_mask(w))
            == raw,
        (raw & ((crate::reflect::spec_width_mask(w) << 0u32) & crate::reflect::spec_width_mask(w)))
            >> 0u32 == raw,
        w == 8 ==> raw & 0xff == raw,
        w == 16 ==> raw & 0xffff == raw,
        w == 32 ==> raw & 0xffff_ffff == raw,
{
    assert((1u64 << 8u64) - 1 == 0xffu64) by (bit_vector);
    assert((1u64 << 16u64) - 1 == 0xffffu64) by (bit_vector);
    assert((1u64 << 32u64) - 1 == 0xffff_ffffu64) by (bit_vector);
    let ones = crate::reflect::spec_width_mask(w);
    assert(raw & ((ones << 0u32) & ones) == raw && (raw & ((ones << 0u32) & ones)) >> 0u32 == raw
        && (ones == 0xffu64 ==> raw & 0xff == raw) && (ones == 0xffffu64 ==> raw & 0xffff == raw)
        && (ones == 0xffff_ffffu64 ==> raw & 0xffff_ffff == raw)) by (bit_vector)
        requires
            raw <= ones,
            ones == 0xffu64 || ones == 0xffffu64 || ones == 0xffff_ffffu64 || ones
                == 0xffff_ffff_ffff_ffffu64,
    ;
}

/// At bit offset zero the arithmetic shift fills nothing, so a full-width
/// signed field also comes back unchanged.
proof fn lemma_full_width_fill_identity(m: u64, w: u32)
    requires
        w == 8 || w == 16 || w == 32 || w == 64,
        m <= crate::reflect::spec_width_mask(w),
    ensures
        crate::reflect::spec_shr_arith(m, 0, w) == m,
{
    assert((1u64 << 8u64) - 1 == 0xffu64) by (bit_vector);
    assert((1u64 << 16u64) - 1 == 0xffffu64) by (bit_vector);
    assert((1u64 << 32u64) - 1 == 0xffff_ffffu64) by (bit_vector);
    let ones = crate::reflect::spec_width_mask(w);
    assert(m >> 0u32 == m) by (bit_vector);
    if w >= 1 && m >= crate::reflect::spec_width_mask((w - 1) as u32) + 1 {
        assert(crate::reflect::spec_width_mask((w - 0) as u32) == ones);
        assert((m | ((ones - ones) as u64)) & ones == m) by (bit_vector)
            requires
                m <= ones,
                ones == 0xffu64 || ones == 0xffffu64 || ones == 0xffff_ffffu64 || ones
                    == 0xffff_ffff_ffff_ffffu64,
        ;
    }
}


/// Writing a full-width bitfield at bit offset zero into a zeroed slice
/// leaves exactly what writing the scalar itself would: the or-merge has
/// nothing to keep and the mask covers every bit.
pub proof fn law_full_width_bitfield_writes_as_scalar(
    sc: crate::reflect::AdfReflectedScalar,
    t: AdfTypeView,
    buf: Seq<u8>,
    off: int,
)
    requires
        crate::reflect::spec_bitfield_variant_ok(sc, t),
        t.element_length == 8 * t.size,
        0 <= off,
        off + t.size <= buf.len(),
        forall|k: int| off <= k < off + t.size ==> buf[k] == 0,
    ensures
        crate::reflect::spec_write_bitfield(sc, t, buf, off, 0) == crate::reflect::spec_write_scalar(
            sc,
            t,
            buf,
            off,
        ),
{
    let w: u32 = (8 * t.size) as u32;
    assert((1u64 << 8u64) - 1 == 0xffu64) by (bit_vector);
    assert((1u64 << 16u64) - 1 == 0xffffu64) by (bit_vector);
    assert((1u64 << 32u64) - 1 == 0xffff_ffffu64) by (bit_vector);
    let raw: u64 = if t.size == 1 {
        buf[off] as u64
    } else if t.size == 2 {
        crate::bytes::spec_u16_at(buf, off) as u64
    } else if t.size == 4 {
        spec_u32_at(buf, off) as u64
    } else {
        crate::bytes::spec_u64_at(buf, off)
    };
    assert(raw == 0);
    let bits = crate::reflect::spec_scalar_bits(sc);
    let ones = crate::reflect::spec_width_mask(w);
    assert(bits <= ones);
    lemma_zero_or_full_mask(bits, ones);
    let merged = (raw | ((bits & ones) << 0u32)) & ones;
    assert(merged == bits);
    if t.size == 1 {
        assert((merged & 0xff) as u8 as u64 == bits);
    } else if t.size == 2 {
        assert((merged & 0xffff) as u16 as u64 == bits);
    } else if t.size == 4 {
        assert((merged & 0xffff_ffff) as u32 as u64 == bits);
    }
}

/// Merging into zero under a full mask returns the value itself.
proof fn lemma_zero_or_full_mask(bits: u64, ones: u64)
    requires
        bits <= ones,
        ones == 0xffu64 || ones == 0xffffu64 || ones == 0xffff_ffffu64 || ones
            == 0xffff_ffff_ffff_ffffu64,
    ensures
        (0u64 | ((bits & ones) << 0u32)) & ones == bits,
        bits & 0xff == bits || ones != 0xffu64,
        bits & 0xffff == bits || ones != 0xffffu64,
        bits & 0xffff_ffff == bits || ones != 0xffff_ffffu64,
{
    assert(((0u64 | ((bits & ones) << 0u32)) & ones == bits) && (bits & 0xff == bits || ones
        != 0xffu64) && (bits & 0xffff == bits || ones != 0xffffu64) && (bits & 0xffff_ffff == bits
        || ones != 0xffff_ffffu64)) by (bit_vector)
        requires
            bits <= ones,
            ones == 0xffu64 || ones == 0xffffu64 || ones == 0xffff_ffffu64 || ones
                == 0xffff_ffff_ffff_ffffu64,
    ;
}

} // verus!
