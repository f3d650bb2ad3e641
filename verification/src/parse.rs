use vstd::prelude::*;

use crate::bytes::{spec_u16_at, spec_u32_at, spec_u64_at, read_u16_at, read_u32_at, read_u64_at};
use crate::hashing::{hash_little32, spec_hash_little32};
use crate::pools::{spec_find_instance_from, find_instance_by_hash};
use crate::types::{
    AdfEnum, AdfEnumView, AdfFile, AdfFileView, AdfInstance, AdfInstanceError, AdfInstanceView,
    AdfMember, AdfMemberOffsets, AdfMemberValue, AdfMemberView, AdfParseError, AdfPrimitive,
    AdfReferenceError, AdfScalarType, AdfType, AdfTypeView, AdfVersion, ADF_FLAG_MASK,
    ADF_INSTANCE_ALIGNMENT,
};

verus! {

// The reader for the outer file layout. `spec_parse` states exactly which
// files are accepted and what they parse to; the reader is proved against
// it. Read order follows the format's dependencies: header, string pool,
// instance table, hash list, and the type table last, because member names
// and default values refer to the pools.

/// First position at or after `i` holding a zero byte; `s.len()` if none.
pub open spec fn spec_find_nul(s: Seq<u8>, i: int) -> int
    decreases s.len() - i,
{
    if i < 0 || i >= s.len() {
        s.len() as int
    } else if s[i] == 0 {
        i
    } else {
        spec_find_nul(s, i + 1)
    }
}

/// The primitive kind a tag stands for, if any.
pub open spec fn spec_primitive_of_tag(tag: u32) -> Option<AdfPrimitive> {
    if tag == 0 {
        Some(AdfPrimitive::Scalar)
    } else if tag == 1 {
        Some(AdfPrimitive::Structure)
    } else if tag == 2 {
        Some(AdfPrimitive::Pointer)
    } else if tag == 3 {
        Some(AdfPrimitive::Array)
    } else if tag == 4 {
        Some(AdfPrimitive::InlineArray)
    } else if tag == 5 {
        Some(AdfPrimitive::String)
    } else if tag == 6 {
        Some(AdfPrimitive::Recursive)
    } else if tag == 7 {
        Some(AdfPrimitive::Bitfield)
    } else if tag == 8 {
        Some(AdfPrimitive::Enumeration)
    } else if tag == 9 {
        Some(AdfPrimitive::StringHash)
    } else if tag == 10 {
        Some(AdfPrimitive::Deferred)
    } else {
        None
    }
}

pub open spec fn spec_scalar_type_of_tag(tag: u16) -> Option<AdfScalarType> {
    if tag == 0 {
        Some(AdfScalarType::Signed)
    } else if tag == 1 {
        Some(AdfScalarType::Unsigned)
    } else if tag == 2 {
        Some(AdfScalarType::Float)
    } else {
        None
    }
}

/// The placeholder an unresolved instance reference falls back to.
pub open spec fn spec_placeholder_instance() -> AdfInstanceView {
    AdfInstanceView {
        name: Seq::empty(),
        type_hash: 0,
        buffer: Seq::empty(),
        alignment: ADF_INSTANCE_ALIGNMENT,
    }
}

/// Resolve an instance reference by name hash: the first matching instance,
/// or a fresh placeholder appended to the list.
pub open spec fn spec_resolve_instance(insts: Seq<AdfInstanceView>, h: u32) -> (
    Seq<AdfInstanceView>,
    int,
) {
    let j = spec_find_instance_from(insts, h, 0);
    if j < insts.len() {
        (insts, j)
    } else {
        (insts.push(spec_placeholder_instance()), insts.len() as int)
    }
}

/// The pooled strings: `n` null-terminated strings starting at `pos`, each
/// checked against its recorded length.
pub open spec fn spec_parse_strings(s: Seq<u8>, lens: Seq<u8>, pos: int, i: int) -> Result<
    Seq<Seq<u8>>,
    AdfParseError,
>
    decreases lens.len() - i,
{
    if i < 0 || i >= lens.len() {
        Ok(Seq::empty())
    } else {
        let e = spec_find_nul(s, pos);
        if e >= s.len() {
            Err(AdfParseError::Truncated)
        } else {
            let st = s.subrange(pos, e);
            if st.len() != lens[i] {
                Err(AdfParseError::StringLengthMismatch(pos as u64))
            } else {
                match spec_parse_strings(s, lens, e + 1, i + 1) {
                    Ok(rest) => Ok(seq![st] + rest),
                    Err(x) => Err(x),
                }
            }
        }
    }
}

/// The string table: `count` length bytes at `off`, then the strings.
pub open spec fn spec_parse_string_table(s: Seq<u8>, off: u32, count: u32) -> Result<
    Seq<Seq<u8>>,
    AdfParseError,
> {
    if off == 0 {
        Ok(Seq::empty())
    } else if off + count > s.len() {
        Err(AdfParseError::Truncated)
    } else {
        spec_parse_strings(s, s.subrange(off as int, off + count), off + count, 0)
    }
}

/// One 24-byte instance record at `pos`, plus its buffer.
pub open spec fn spec_parse_instance(s: Seq<u8>, pool: Seq<Seq<u8>>, pos: int) -> Result<
    AdfInstanceView,
    AdfParseError,
> {
    if pos + 24 > s.len() {
        Err(AdfParseError::Truncated)
    } else {
        let name_hash = spec_u32_at(s, pos);
        let type_hash = spec_u32_at(s, pos + 4);
        let boff = spec_u32_at(s, pos + 8);
        let bsize = spec_u32_at(s, pos + 12);
        let name_index = spec_u64_at(s, pos + 16);
        if name_index >= pool.len() {
            Err(AdfParseError::Reference(AdfReferenceError::InvalidIdentity(name_index)))
        } else if boff + bsize > s.len() {
            Err(AdfParseError::Truncated)
        } else {
            let name = pool[name_index as int];
            if name_hash != spec_hash_little32(name) {
                Err(AdfParseError::Instance(AdfInstanceError::InvalidNameHash(name_hash)))
            } else {
                Ok(
                    AdfInstanceView {
                        name: name,
                        type_hash: type_hash,
                        buffer: s.subrange(boff as int, boff + bsize),
                        alignment: ADF_INSTANCE_ALIGNMENT,
                    },
                )
            }
        }
    }
}

pub open spec fn spec_parse_instances(s: Seq<u8>, pool: Seq<Seq<u8>>, pos: int, n: int) -> Result<
    Seq<AdfInstanceView>,
    AdfParseError,
>
    decreases n,
{
    if n <= 0 {
        Ok(Seq::empty())
    } else {
        match spec_parse_instance(s, pool, pos) {
            Ok(inst) => match spec_parse_instances(s, pool, pos + 24, n - 1) {
                Ok(rest) => Ok(seq![inst] + rest),
                Err(x) => Err(x),
            },
            Err(x) => Err(x),
        }
    }
}

pub open spec fn spec_parse_instance_table(s: Seq<u8>, pool: Seq<Seq<u8>>, off: u32, count: u32) -> Result<
    Seq<AdfInstanceView>,
    AdfParseError,
> {
    if off == 0 {
        Ok(Seq::empty())
    } else {
        spec_parse_instances(s, pool, off as int, count as int)
    }
}

pub open spec fn spec_parse_hashes(s: Seq<u8>, pos: int, n: int) -> Result<Seq<u32>, AdfParseError>
    decreases n,
{
    if n <= 0 {
        Ok(Seq::empty())
    } else if pos + 4 > s.len() {
        Err(AdfParseError::Truncated)
    } else {
        match spec_parse_hashes(s, pos + 4, n - 1) {
            Ok(rest) => Ok(seq![spec_u32_at(s, pos)] + rest),
            Err(x) => Err(x),
        }
    }
}

pub open spec fn spec_parse_hash_table(s: Seq<u8>, off: u32, count: u32) -> Result<
    Seq<u32>,
    AdfParseError,
> {
    if off == 0 {
        Ok(Seq::empty())
    } else {
        spec_parse_hashes(s, off as int, count as int)
    }
}

/// One member record: name, type hash, alignment, packed offsets, and the
/// tagged default value. Instance references resolve against (and may
/// extend) the instance list.
#[verifier::opaque]
pub open spec fn spec_parse_member(
    s: Seq<u8>,
    pool: Seq<Seq<u8>>,
    insts: Seq<AdfInstanceView>,
    pos: int,
) -> Result<(AdfMemberView, Seq<AdfInstanceView>), AdfParseError> {
    if pos + 32 > s.len() {
        Err(AdfParseError::Truncated)
    } else {
        let name_index = spec_u64_at(s, pos);
        if name_index >= pool.len() {
            Err(AdfParseError::Reference(AdfReferenceError::InvalidIdentity(name_index)))
        } else {
            let type_hash = spec_u32_at(s, pos + 8);
            let alignment = spec_u32_at(s, pos + 12);
            let packed = spec_u32_at(s, pos + 16);
            let tag = spec_u32_at(s, pos + 20);
            let payload = spec_u64_at(s, pos + 24);
            let offsets = AdfMemberOffsets {
                byte_offset: (packed % 0x1000000) as u32,
                bit_offset: (packed / 0x1000000) as u8,
            };
            if tag == 0 {
                if payload != 0 {
                    Err(AdfParseError::BadMemberValue)
                } else {
                    Ok(
                        (
                            AdfMemberView {
                                name: pool[name_index as int],
                                type_hash: type_hash,
                                alignment: alignment,
                                offsets: offsets,
                                value: AdfMemberValue::UninitializedValue,
                            },
                            insts,
                        ),
                    )
                }
            } else if tag == 1 {
                Ok(
                    (
                        AdfMemberView {
                            name: pool[name_index as int],
                            type_hash: type_hash,
                            alignment: alignment,
                            offsets: offsets,
                            value: AdfMemberValue::InlineValue(payload),
                        },
                        insts,
                    ),
                )
            } else if tag == 2 {
                let h = (payload % 0x1_0000_0000) as u32;
                let r = spec_resolve_instance(insts, h);
                Ok(
                    (
                        AdfMemberView {
                            name: pool[name_index as int],
                            type_hash: type_hash,
                            alignment: alignment,
                            offsets: offsets,
                            value: AdfMemberValue::InstanceValue(r.1 as usize),
                        },
                        r.0,
                    ),
                )
            } else {
                Err(AdfParseError::BadMemberValue)
            }
        }
    }
}

pub open spec fn spec_parse_members(
    s: Seq<u8>,
    pool: Seq<Seq<u8>>,
    insts: Seq<AdfInstanceView>,
    pos: int,
    n: int,
) -> Result<(Seq<AdfMemberView>, Seq<AdfInstanceView>, int), AdfParseError>
    decreases n,
{
    if n <= 0 {
        Ok((Seq::empty(), insts, pos))
    } else {
        match spec_parse_member(s, pool, insts, pos) {
            Ok((m, insts1)) => match spec_parse_members(s, pool, insts1, pos + 32, n - 1) {
                Ok((rest, insts2, end)) => Ok((seq![m] + rest, insts2, end)),
                Err(x) => Err(x),
            },
            Err(x) => Err(x),
        }
    }
}

pub open spec fn spec_parse_enum(s: Seq<u8>, pool: Seq<Seq<u8>>, pos: int) -> Result<
    AdfEnumView,
    AdfParseError,
> {
    if pos + 12 > s.len() {
        Err(AdfParseError::Truncated)
    } else {
        let name_index = spec_u64_at(s, pos);
        if name_index >= pool.len() {
            Err(AdfParseError::Reference(AdfReferenceError::InvalidIdentity(name_index)))
        } else {
            Ok(
                AdfEnumView {
                    name: pool[name_index as int],
                    value: crate::container::spec_bits_i32(spec_u32_at(s, pos + 8)),
                },
            )
        }
    }
}

pub open spec fn spec_parse_enums(s: Seq<u8>, pool: Seq<Seq<u8>>, pos: int, n: int) -> Result<
    (Seq<AdfEnumView>, int),
    AdfParseError,
>
    decreases n,
{
    if n <= 0 {
        Ok((Seq::empty(), pos))
    } else {
        match spec_parse_enum(s, pool, pos) {
            Ok(e) => match spec_parse_enums(s, pool, pos + 12, n - 1) {
                Ok((rest, end)) => Ok((seq![e] + rest, end)),
                Err(x) => Err(x),
            },
            Err(x) => Err(x),
        }
    }
}

/// One type record at `pos`: the 36-byte head, then members, enumeration
/// entries, or four bytes of padding, by kind.
pub open spec fn spec_parse_type(
    s: Seq<u8>,
    pool: Seq<Seq<u8>>,
    insts: Seq<AdfInstanceView>,
    pos: int,
) -> Result<(AdfTypeView, Seq<AdfInstanceView>, int), AdfParseError> {
    if pos + 36 > s.len() {
        Err(AdfParseError::Truncated)
    } else {
        let prim_tag = spec_u32_at(s, pos);
        match spec_primitive_of_tag(prim_tag) {
            None => Err(AdfParseError::BadPrimitive),
            Some(primitive) => {
                let size = spec_u32_at(s, pos + 4);
                let alignment = spec_u32_at(s, pos + 8);
                let type_hash = spec_u32_at(s, pos + 12);
                let name_index = spec_u64_at(s, pos + 16);
                if name_index >= pool.len() {
                    Err(AdfParseError::Reference(AdfReferenceError::InvalidIdentity(name_index)))
                } else {
                    let flags_raw = spec_u16_at(s, pos + 24);
                    let scalar_tag = spec_u16_at(s, pos + 26);
                    match spec_scalar_type_of_tag(scalar_tag) {
                        None => Err(AdfParseError::BadScalarType),
                        Some(scalar_type) => {
                            let element_type_hash = spec_u32_at(s, pos + 28);
                            let element_length = spec_u32_at(s, pos + 32);
                            let head = AdfTypeView {
                                primitive: primitive,
                                size: size,
                                alignment: alignment,
                                type_hash: type_hash,
                                name: pool[name_index as int],
                                flags: flags_raw & ADF_FLAG_MASK,
                                scalar_type: scalar_type,
                                element_type_hash: element_type_hash,
                                element_length: element_length,
                                members: Seq::empty(),
                                enumerations: Seq::empty(),
                            };
                            if primitive == AdfPrimitive::Structure {
                                if pos + 40 > s.len() {
                                    Err(AdfParseError::Truncated)
                                } else {
                                    let n = spec_u32_at(s, pos + 36);
                                    match spec_parse_members(s, pool, insts, pos + 40, n as int) {
                                        Ok((ms, insts2, end)) => Ok(
                                            (
                                                AdfTypeView { members: ms, ..head },
                                                insts2,
                                                end,
                                            ),
                                        ),
                                        Err(x) => Err(x),
                                    }
                                }
                            } else if primitive == AdfPrimitive::Enumeration {
                                if pos + 40 > s.len() {
                                    Err(AdfParseError::Truncated)
                                } else {
                                    let n = spec_u32_at(s, pos + 36);
                                    match spec_parse_enums(s, pool, pos + 40, n as int) {
                                        Ok((es, end)) => Ok(
                                            (
                                                AdfTypeView { enumerations: es, ..head },
                                                insts,
                                                end,
                                            ),
                                        ),
                                        Err(x) => Err(x),
                                    }
                                }
                            } else {
                                if pos + 40 > s.len() {
                                    Err(AdfParseError::Truncated)
                                } else {
                                    Ok((head, insts, pos + 40))
                                }
                            }
                        },
                    }
                }
            },
        }
    }
}

pub open spec fn spec_parse_types(
    s: Seq<u8>,
    pool: Seq<Seq<u8>>,
    insts: Seq<AdfInstanceView>,
    pos: int,
    n: int,
) -> Result<(Seq<AdfTypeView>, Seq<AdfInstanceView>), AdfParseError>
    decreases n,
{
    if n <= 0 {
        Ok((Seq::empty(), insts))
    } else {
        match spec_parse_type(s, pool, insts, pos) {
            Ok((t, insts1, end)) => match spec_parse_types(s, pool, insts1, end, n - 1) {
                Ok((rest, insts2)) => Ok((seq![t] + rest, insts2)),
                Err(x) => Err(x),
            },
            Err(x) => Err(x),
        }
    }
}

pub open spec fn spec_parse_type_table(
    s: Seq<u8>,
    pool: Seq<Seq<u8>>,
    insts: Seq<AdfInstanceView>,
    off: u32,
    count: u32,
) -> Result<(Seq<AdfTypeView>, Seq<AdfInstanceView>), AdfParseError> {
    if off == 0 {
        Ok((Seq::empty(), insts))
    } else {
        spec_parse_types(s, pool, insts, off as int, count as int)
    }
}

/// Which files parse, and to what. The header is checked first; then the
/// string pool, the instance table, the hash list, and the type table are
/// read from their recorded offsets, a zero offset standing for an absent
/// table.
pub open spec fn spec_parse(s: Seq<u8>) -> Result<AdfFileView, AdfParseError> {
    if s.len() < 4 {
        Err(AdfParseError::Truncated)
    } else if !(s[0] == 0x20 && s[1] == 0x46 && s[2] == 0x44 && s[3] == 0x41) {
        Err(AdfParseError::BadMagic)
    } else if s.len() < 64 {
        Err(AdfParseError::Truncated)
    } else if spec_u32_at(s, 4) != 4 {
        Err(AdfParseError::BadVersion)
    } else {
        let desc_end = spec_find_nul(s, 64);
        if desc_end >= s.len() {
            Err(AdfParseError::Truncated)
        } else {
            let desc = s.subrange(64, desc_end);
            let instance_count = spec_u32_at(s, 8);
            let instance_offset = spec_u32_at(s, 12);
            let type_count = spec_u32_at(s, 16);
            let type_offset = spec_u32_at(s, 20);
            let hash_count = spec_u32_at(s, 24);
            let hash_offset = spec_u32_at(s, 28);
            let string_count = spec_u32_at(s, 32);
            let string_offset = spec_u32_at(s, 36);
            match spec_parse_string_table(s, string_offset, string_count) {
                Err(x) => Err(x),
                Ok(pool) => match spec_parse_instance_table(s, pool, instance_offset, instance_count) {
                    Err(x) => Err(x),
                    Ok(insts) => match spec_parse_hash_table(s, hash_offset, hash_count) {
                        Err(x) => Err(x),
                        Ok(hashes) => match spec_parse_type_table(
                            s,
                            pool,
                            insts,
                            type_offset,
                            type_count,
                        ) {
                            Err(x) => Err(x),
                            Ok((types, insts2)) => Ok(
                                AdfFileView {
                                    version: AdfVersion::V4,
                                    instances: insts2,
                                    types: types,
                                    hashes: hashes,
                                    description: desc,
                                },
                            ),
                        },
                    },
                },
            }
        }
    }
}


pub fn exec_find_nul(bytes: &[u8], pos: usize) -> (r: usize)
    ensures
        r == spec_find_nul(bytes@, pos as int),
        r <= bytes@.len(),
        pos <= bytes@.len() ==> pos <= r,
{
    let n = bytes.len();
    let mut j: usize = if pos <= n {
        pos
    } else {
        return n;
    };
    while j < n
        invariant
            j <= n,
            n == bytes@.len(),
            spec_find_nul(bytes@, pos as int) == spec_find_nul(bytes@, j as int),
            pos <= j,
        decreases n - j,
    {
        if bytes[j] == 0 {
            return j;
        }
        j = j + 1;
    }
    j
}

fn parse_string_table(bytes: &[u8], off: u32, count: u32) -> (r: Result<
    Vec<Vec<u8>>,
    AdfParseError,
>)
    ensures
        r matches Ok(pool) ==> spec_parse_string_table(bytes@, off, count) == Ok::<
            _,
            AdfParseError,
        >(crate::pools::spec_view_pool(pool@)),
        r matches Err(e) ==> spec_parse_string_table(bytes@, off, count) == Err::<Seq<Seq<u8>>, _>(
            e,
        ),
{
    let s = bytes;
    let n = s.len();
    if off == 0 {
        let pool: Vec<Vec<u8>> = Vec::new();
        assert(crate::pools::spec_view_pool(pool@) =~= Seq::<Seq<u8>>::empty());
        return Ok(pool);
    }
    if off as u64 + count as u64 > n as u64 {
        return Err(AdfParseError::Truncated);
    }
    let ghost lens = s@.subrange(off as int, off + count);
    let ghost full = spec_parse_strings(s@, lens, off + count, 0);
    let mut pool: Vec<Vec<u8>> = Vec::new();
    let mut pos: usize = off as usize + count as usize;
    let cnt = count as usize;
    let mut i: usize = 0;
    while i < cnt
        invariant
            i <= cnt,
            cnt == lens.len(),
            s@ == bytes@,
            lens == s@.subrange(off as int, off + cnt),
            off != 0,
            cnt == count as usize,
            off + cnt <= s@.len(),
            pos <= s@.len(),
            full == spec_parse_strings(s@, lens, off + cnt, 0),
            full == spec_parse_string_table(s@, off, count),
            match spec_parse_strings(s@, lens, pos as int, i as int) {
                Ok(rest) => full == Ok::<_, AdfParseError>(
                    crate::pools::spec_view_pool(pool@) + rest,
                ),
                Err(x) => full == Err::<Seq<Seq<u8>>, _>(x),
            },
        decreases cnt - i,
    {
        let e = exec_find_nul(s, pos);
        if e >= s.len() {
            return Err(AdfParseError::Truncated);
        }
        assert(lens[i as int] == s@[off + i]);
        let want = s[off as usize + i];
        if e - pos != want as usize {
            return Err(AdfParseError::StringLengthMismatch(pos as u64));
        }
        let st = crate::bytes::copy_range(s, pos, e);
        let ghost stv = st@;
        let ghost p0 = crate::pools::spec_view_pool(pool@);
        pool.push(st);
        proof {
            let cur = spec_parse_strings(s@, lens, pos as int, i as int);
            let nxt = spec_parse_strings(s@, lens, e + 1 as int, i + 1 as int);
            assert(stv == s@.subrange(pos as int, e as int));
            assert(stv.len() == lens[i as int]);
            assert(cur == (match nxt {
                Ok(rest) => Ok::<Seq<Seq<u8>>, AdfParseError>(seq![stv] + rest),
                Err(x) => Err::<Seq<Seq<u8>>, AdfParseError>(x),
            }));
            assert(crate::pools::spec_view_pool(pool@) =~= p0.push(stv));
            if nxt is Ok {
                let r1 = nxt->Ok_0;
                assert(p0 + (seq![stv] + r1) =~= crate::pools::spec_view_pool(pool@) + r1);
                assert(full == Ok::<Seq<Seq<u8>>, AdfParseError>(
                    crate::pools::spec_view_pool(pool@) + r1,
                ));
            } else {
                assert(full == Err::<Seq<Seq<u8>>, AdfParseError>(nxt->Err_0));
            }
        }
        pos = e + 1;
        i = i + 1;
    }
    proof {
        assert(spec_parse_strings(s@, lens, pos as int, i as int) == Ok::<_, AdfParseError>(
            Seq::<Seq<u8>>::empty(),
        ));
        assert(crate::pools::spec_view_pool(pool@) + Seq::<Seq<u8>>::empty()
            =~= crate::pools::spec_view_pool(pool@));
    }
    Ok(pool)
}

fn parse_instance_table(bytes: &[u8], pool: &Vec<Vec<u8>>, off: u32, count: u32) -> (r: Result<
    Vec<AdfInstance>,
    AdfParseError,
>)
    ensures
        r matches Ok(v) ==> spec_parse_instance_table(
            bytes@,
            crate::pools::spec_view_pool(pool@),
            off,
            count,
        ) == Ok::<_, AdfParseError>(crate::container::spec_iview(v@)),
        r matches Err(e) ==> spec_parse_instance_table(
            bytes@,
            crate::pools::spec_view_pool(pool@),
            off,
            count,
        ) == Err::<Seq<AdfInstanceView>, _>(e),
{
    let s = bytes;
    let ghost pv = crate::pools::spec_view_pool(pool@);
    let mut insts: Vec<AdfInstance> = Vec::new();
    if off == 0 {
        assert(crate::container::spec_iview(insts@) =~= Seq::<AdfInstanceView>::empty());
        return Ok(insts);
    }
    let ghost full = spec_parse_instances(s@, pv, off as int, count as int);
    let cnt = count as usize;
    let mut pos: u64 = off as u64;
    let mut i: usize = 0;
    while i < cnt
        invariant
            i <= cnt,
            s@ == bytes@,
            pv == crate::pools::spec_view_pool(pool@),
            pos == off + 24 * i,
            off != 0,
            cnt == count as usize,
            full == spec_parse_instances(s@, pv, off as int, cnt as int),
            full == spec_parse_instance_table(s@, pv, off, count),
            match spec_parse_instances(s@, pv, pos as int, (cnt - i) as int) {
                Ok(rest) => full == Ok::<_, AdfParseError>(
                    crate::container::spec_iview(insts@) + rest,
                ),
                Err(x) => full == Err::<Seq<AdfInstanceView>, _>(x),
            },
        decreases cnt - i,
    {
        if pos + 24 > s.len() as u64 {
            return Err(AdfParseError::Truncated);
        }
        let p = pos as usize;
        let name_hash = read_u32_at(s, p);
        let type_hash = read_u32_at(s, p + 4);
        let boff = read_u32_at(s, p + 8);
        let bsize = read_u32_at(s, p + 12);
        let name_index = read_u64_at(s, p + 16);
        if name_index >= pool.len() as u64 {
            return Err(AdfParseError::Reference(AdfReferenceError::InvalidIdentity(name_index)));
        }
        if boff as u64 + bsize as u64 > s.len() as u64 {
            return Err(AdfParseError::Truncated);
        }
        assert(pv[name_index as int] == pool@[name_index as int]@);
        let name = crate::bytes::copy_range(
            pool[name_index as usize].as_slice(),
            0,
            pool[name_index as usize].len(),
        );
        assert(name@ =~= pv[name_index as int]);
        let h = hash_little32(name.as_slice());
        if name_hash != h {
            return Err(AdfParseError::Instance(AdfInstanceError::InvalidNameHash(name_hash)));
        }
        let buffer = crate::bytes::copy_range(s, boff as usize, boff as usize + bsize as usize);
        let inst = AdfInstance {
            name: name,
            type_hash: type_hash,
            buffer: buffer,
            alignment: ADF_INSTANCE_ALIGNMENT,
        };
        let ghost expected = spec_parse_instance(s@, pv, pos as int);
        assert(expected == Ok::<_, AdfParseError>(inst@));
        let ghost instv = inst@;
        let ghost iv0 = crate::container::spec_iview(insts@);
        insts.push(inst);
        proof {
            let cur = spec_parse_instances(s@, pv, pos as int, (cnt - i) as int);
            let nxt = spec_parse_instances(s@, pv, pos + 24, (cnt - i - 1) as int);
            assert(cur == (match nxt {
                Ok(rest) => Ok::<Seq<AdfInstanceView>, AdfParseError>(seq![instv] + rest),
                Err(x) => Err::<Seq<AdfInstanceView>, AdfParseError>(x),
            }));
            assert(crate::container::spec_iview(insts@) =~= iv0.push(instv));
            if nxt is Ok {
                let r1 = nxt->Ok_0;
                assert(iv0 + (seq![instv] + r1) =~= crate::container::spec_iview(insts@) + r1);
                assert(full == Ok::<Seq<AdfInstanceView>, AdfParseError>(
                    crate::container::spec_iview(insts@) + r1,
                ));
            } else {
                assert(full == Err::<Seq<AdfInstanceView>, AdfParseError>(nxt->Err_0));
            }
        }
        pos = pos + 24;
        i = i + 1;
    }
    proof {
        assert(spec_parse_instances(s@, pv, pos as int, 0) == Ok::<_, AdfParseError>(
            Seq::<AdfInstanceView>::empty(),
        ));
        assert(crate::container::spec_iview(insts@) + Seq::<AdfInstanceView>::empty()
            =~= crate::container::spec_iview(insts@));
    }
    Ok(insts)
}

fn parse_hash_table(bytes: &[u8], off: u32, count: u32) -> (r: Result<Vec<u32>, AdfParseError>)
    ensures
        r matches Ok(v) ==> spec_parse_hash_table(bytes@, off, count) == Ok::<_, AdfParseError>(
            v@,
        ),
        r matches Err(e) ==> spec_parse_hash_table(bytes@, off, count) == Err::<Seq<u32>, _>(e),
{
    let s = bytes;
    let mut hashes: Vec<u32> = Vec::new();
    if off == 0 {
        assert(hashes@ =~= Seq::<u32>::empty());
        return Ok(hashes);
    }
    let ghost full = spec_parse_hashes(s@, off as int, count as int);
    let cnt = count as usize;
    let mut pos: u64 = off as u64;
    let mut i: usize = 0;
    while i < cnt
        invariant
            i <= cnt,
            s@ == bytes@,
            pos == off + 4 * i,
            off != 0,
            cnt == count as usize,
            full == spec_parse_hashes(s@, off as int, cnt as int),
            full == spec_parse_hash_table(s@, off, count),
            match spec_parse_hashes(s@, pos as int, (cnt - i) as int) {
                Ok(rest) => full == Ok::<_, AdfParseError>(hashes@ + rest),
                Err(x) => full == Err::<Seq<u32>, _>(x),
            },
        decreases cnt - i,
    {
        if pos + 4 > s.len() as u64 {
            proof {
                assert((cnt - i) as int > 0);
                assert(pos + 4 > s@.len());
                assert(spec_parse_hashes(s@, pos as int, (cnt - i) as int) == Err::<
                    Seq<u32>,
                    AdfParseError,
                >(AdfParseError::Truncated));
                assert(full == Err::<Seq<u32>, AdfParseError>(AdfParseError::Truncated));
            }
            return Err(AdfParseError::Truncated);
        }
        let v = read_u32_at(s, pos as usize);
        let ghost h0 = hashes@;
        hashes.push(v);
        proof {
            let cur = spec_parse_hashes(s@, pos as int, (cnt - i) as int);
            let nxt = spec_parse_hashes(s@, pos + 4, (cnt - i - 1) as int);
            assert(cur == (match nxt {
                Ok(rest) => Ok::<Seq<u32>, AdfParseError>(seq![spec_u32_at(s@, pos as int)] + rest),
                Err(x) => Err::<Seq<u32>, AdfParseError>(x),
            }));
            assert(hashes@ == h0.push(v));
            if nxt is Ok {
                let r1 = nxt->Ok_0;
                assert(h0 + (seq![v] + r1) =~= hashes@ + r1);
                assert(cur == Ok::<Seq<u32>, AdfParseError>(seq![v] + r1));
                assert(full == Ok::<Seq<u32>, AdfParseError>(h0 + (seq![v] + r1)));
                assert(full == Ok::<Seq<u32>, AdfParseError>(hashes@ + r1));
            } else {
                assert(full == Err::<Seq<u32>, AdfParseError>(nxt->Err_0));
            }
        }
        pos = pos + 4;
        i = i + 1;
    }
    proof {
        assert(hashes@ + Seq::<u32>::empty() =~= hashes@);
    }
    Ok(hashes)
}


pub open spec fn spec_mview(ms: Seq<AdfMember>) -> Seq<AdfMemberView> {
    ms.map_values(|m: AdfMember| m@)
}

pub open spec fn spec_eview(es: Seq<AdfEnum>) -> Seq<AdfEnumView> {
    es.map_values(|e: AdfEnum| e@)
}

pub open spec fn spec_tview(ts: Seq<AdfType>) -> Seq<AdfTypeView> {
    ts.map_values(|t: AdfType| t@)
}

fn bits_to_i32(b: u32) -> (r: i32)
    ensures
        r == crate::container::spec_bits_i32(b),
{
    if b < 0x8000_0000 {
        b as i32
    } else {
        ((b as i64) - 0x1_0000_0000) as i32
    }
}

#[verifier::rlimit(100)]
fn parse_member(bytes: &[u8], pool: &Vec<Vec<u8>>, insts: &mut Vec<AdfInstance>, pos: u64) -> (r:
    Result<AdfMember, AdfParseError>)
    ensures
        r matches Ok(m) ==> spec_parse_member(
            bytes@,
            crate::pools::spec_view_pool(pool@),
            crate::container::spec_iview(old(insts)@),
            pos as int,
        ) == Ok::<_, AdfParseError>(
            (m@, crate::container::spec_iview(final(insts)@)),
        ),
        r matches Err(e) ==> spec_parse_member(
            bytes@,
            crate::pools::spec_view_pool(pool@),
            crate::container::spec_iview(old(insts)@),
            pos as int,
        ) == Err::<(AdfMemberView, Seq<AdfInstanceView>), _>(e) && final(insts)@ == old(insts)@,
{
    let s = bytes;
    proof {
        reveal(spec_parse_member);
    }
    let ghost pv = crate::pools::spec_view_pool(pool@);
    let ghost iv0 = crate::container::spec_iview(insts@);
    if (s.len() as u64) < 32 || pos > s.len() as u64 - 32 {
        return Err(AdfParseError::Truncated);
    }
    let p = pos as usize;
    let name_index = read_u64_at(s, p);
    if name_index >= pool.len() as u64 {
        return Err(AdfParseError::Reference(AdfReferenceError::InvalidIdentity(name_index)));
    }
    let type_hash = read_u32_at(s, p + 8);
    let alignment = read_u32_at(s, p + 12);
    let packed = read_u32_at(s, p + 16);
    let tag = read_u32_at(s, p + 20);
    let payload = read_u64_at(s, p + 24);
    let offsets = AdfMemberOffsets {
        byte_offset: packed % 0x1000000,
        bit_offset: (packed / 0x1000000) as u8,
    };
    assert(pv[name_index as int] == pool@[name_index as int]@);
    let name = crate::bytes::copy_range(
        pool[name_index as usize].as_slice(),
        0,
        pool[name_index as usize].len(),
    );
    assert(name@ =~= pv[name_index as int]);
    let value: AdfMemberValue = if tag == 0 {
        if payload != 0 {
            return Err(AdfParseError::BadMemberValue);
        }
        AdfMemberValue::UninitializedValue
    } else if tag == 1 {
        AdfMemberValue::InlineValue(payload)
    } else if tag == 2 {
        let h = (payload % 0x1_0000_0000) as u32;
        let j = find_instance_by_hash(insts, h);
        if j == insts.len() {
            let placeholder = AdfInstance {
                name: Vec::new(),
                type_hash: 0,
                buffer: Vec::new(),
                alignment: ADF_INSTANCE_ALIGNMENT,
            };
            assert(placeholder@ == spec_placeholder_instance());
            let ghost ivb = crate::container::spec_iview(insts@);
            insts.push(placeholder);
            assert(crate::container::spec_iview(insts@) =~= ivb.push(
                spec_placeholder_instance(),
            ));
        }
        AdfMemberValue::InstanceValue(j)
    } else {
        return Err(AdfParseError::BadMemberValue);
    };
    let m = AdfMember { name: name, type_hash: type_hash, alignment: alignment, offsets: offsets, value: value };
    assert(spec_parse_member(s@, pv, iv0, pos as int) == Ok::<_, AdfParseError>(
        (m@, crate::container::spec_iview(insts@)),
    ));
    Ok(m)
}

fn parse_enum_entry(bytes: &[u8], pool: &Vec<Vec<u8>>, pos: u64) -> (r: Result<
    AdfEnum,
    AdfParseError,
>)
    ensures
        r matches Ok(e) ==> spec_parse_enum(
            bytes@,
            crate::pools::spec_view_pool(pool@),
            pos as int,
        ) == Ok::<_, AdfParseError>(e@),
        r matches Err(x) ==> spec_parse_enum(
            bytes@,
            crate::pools::spec_view_pool(pool@),
            pos as int,
        ) == Err::<AdfEnumView, _>(x),
{
    let s = bytes;
    let ghost pv = crate::pools::spec_view_pool(pool@);
    if (s.len() as u64) < 12 || pos > s.len() as u64 - 12 {
        return Err(AdfParseError::Truncated);
    }
    let p = pos as usize;
    let name_index = read_u64_at(s, p);
    if name_index >= pool.len() as u64 {
        return Err(AdfParseError::Reference(AdfReferenceError::InvalidIdentity(name_index)));
    }
    assert(pv[name_index as int] == pool@[name_index as int]@);
    let name = crate::bytes::copy_range(
        pool[name_index as usize].as_slice(),
        0,
        pool[name_index as usize].len(),
    );
    assert(name@ =~= pv[name_index as int]);
    let value = bits_to_i32(read_u32_at(s, p + 8));
    Ok(AdfEnum { name: name, value: value })
}

fn primitive_of_tag(tag: u32) -> (r: Option<AdfPrimitive>)
    ensures
        r == spec_primitive_of_tag(tag),
{
    if tag == 0 {
        Some(AdfPrimitive::Scalar)
    } else if tag == 1 {
        Some(AdfPrimitive::Structure)
    } else if tag == 2 {
        Some(AdfPrimitive::Pointer)
    } else if tag == 3 {
        Some(AdfPrimitive::Array)
    } else if tag == 4 {
        Some(AdfPrimitive::InlineArray)
    } else if tag == 5 {
        Some(AdfPrimitive::String)
    } else if tag == 6 {
        Some(AdfPrimitive::Recursive)
    } else if tag == 7 {
        Some(AdfPrimitive::Bitfield)
    } else if tag == 8 {
        Some(AdfPrimitive::Enumeration)
    } else if tag == 9 {
        Some(AdfPrimitive::StringHash)
    } else if tag == 10 {
        Some(AdfPrimitive::Deferred)
    } else {
        None
    }
}

fn scalar_type_of_tag(tag: u16) -> (r: Option<AdfScalarType>)
    ensures
        r == spec_scalar_type_of_tag(tag),
{
    if tag == 0 {
        Some(AdfScalarType::Signed)
    } else if tag == 1 {
        Some(AdfScalarType::Unsigned)
    } else if tag == 2 {
        Some(AdfScalarType::Float)
    } else {
        None
    }
}

#[verifier::rlimit(100)]
fn parse_members_list(
    bytes: &[u8],
    pool: &Vec<Vec<u8>>,
    insts: &mut Vec<AdfInstance>,
    pos: u64,
    n: u32,
) -> (r: Result<(Vec<AdfMember>, u64), AdfParseError>)
    ensures
        r matches Ok(p) ==> spec_parse_members(
            bytes@,
            crate::pools::spec_view_pool(pool@),
            crate::container::spec_iview(old(insts)@),
            pos as int,
            n as int,
        ) == Ok::<_, AdfParseError>(
            (spec_mview(p.0@), crate::container::spec_iview(final(insts)@), p.1 as int),
        ),
        r matches Err(e) ==> spec_parse_members(
            bytes@,
            crate::pools::spec_view_pool(pool@),
            crate::container::spec_iview(old(insts)@),
            pos as int,
            n as int,
        ) == Err::<(Seq<AdfMemberView>, Seq<AdfInstanceView>, int), _>(e),
{
    let s = bytes;
    let ghost pv = crate::pools::spec_view_pool(pool@);
    let ghost iv0 = crate::container::spec_iview(insts@);
    let ghost full = spec_parse_members(s@, pv, iv0, pos as int, n as int);
    let cnt = n as usize;
    let slen = s.len();
    let mut ms: Vec<AdfMember> = Vec::new();
    let mut mpos: u64 = pos;
    let mut i: usize = 0;
    while i < cnt
        invariant
            i <= cnt,
            s@ == bytes@,
            slen == s@.len(),
            pv == crate::pools::spec_view_pool(pool@),
            full == spec_parse_members(s@, pv, iv0, pos as int, cnt as int),
            iv0 == crate::container::spec_iview(old(insts)@),
            cnt == n as usize,
            match spec_parse_members(
                s@,
                pv,
                crate::container::spec_iview(insts@),
                mpos as int,
                (cnt - i) as int,
            ) {
                Ok((rest, fin, end)) => full == Ok::<_, AdfParseError>(
                    (spec_mview(ms@) + rest, fin, end),
                ),
                Err(x) => full == Err::<(Seq<AdfMemberView>, Seq<AdfInstanceView>, int), _>(x),
            },
        decreases cnt - i,
    {
        let ghost ivc = crate::container::spec_iview(insts@);
        let res = parse_member(s, pool, insts, mpos);
        let m = match res {
            Ok(m) => m,
            Err(e) => {
                proof {
                    assert(crate::container::spec_iview(insts@) == ivc);
                    assert(spec_parse_members(s@, pv, ivc, mpos as int, (cnt - i) as int) == Err::<
                        (Seq<AdfMemberView>, Seq<AdfInstanceView>, int),
                        AdfParseError,
                    >(e));
                }
                return Err(e);
            },
        };
        proof {
            reveal(spec_parse_member);
            assert(mpos + 32 <= s@.len());
        }
        let ghost mv = m@;
        let ghost m0 = spec_mview(ms@);
        ms.push(m);
        proof {
            let cur = spec_parse_members(s@, pv, ivc, mpos as int, (cnt - i) as int);
            let nxt = spec_parse_members(
                s@,
                pv,
                crate::container::spec_iview(insts@),
                mpos + 32,
                (cnt - i - 1) as int,
            );
            assert(spec_mview(ms@) =~= m0.push(mv));
            if nxt is Ok {
                let (rest, fin, end) = nxt->Ok_0;
                assert(m0 + (seq![mv] + rest) =~= spec_mview(ms@) + rest);
                assert(cur == Ok::<_, AdfParseError>((seq![mv] + rest, fin, end)));
                assert(full == Ok::<_, AdfParseError>((spec_mview(ms@) + rest, fin, end)));
            } else {
                assert(cur == Err::<(Seq<AdfMemberView>, Seq<AdfInstanceView>, int), _>(
                    nxt->Err_0,
                ));
            }
        }
        mpos = mpos + 32;
        i = i + 1;
    }
    proof {
        assert(spec_parse_members(
            s@,
            pv,
            crate::container::spec_iview(insts@),
            mpos as int,
            0,
        ) == Ok::<_, AdfParseError>(
            (
                Seq::<AdfMemberView>::empty(),
                crate::container::spec_iview(insts@),
                mpos as int,
            ),
        ));
        assert(spec_mview(ms@) + Seq::<AdfMemberView>::empty() =~= spec_mview(ms@));
    }
    Ok((ms, mpos))
}

#[verifier::rlimit(100)]
fn parse_enums_list(bytes: &[u8], pool: &Vec<Vec<u8>>, pos: u64, n: u32) -> (r: Result<
    (Vec<AdfEnum>, u64),
    AdfParseError,
>)
    ensures
        r matches Ok(p) ==> spec_parse_enums(
            bytes@,
            crate::pools::spec_view_pool(pool@),
            pos as int,
            n as int,
        ) == Ok::<_, AdfParseError>((spec_eview(p.0@), p.1 as int)),
        r matches Err(e) ==> spec_parse_enums(
            bytes@,
            crate::pools::spec_view_pool(pool@),
            pos as int,
            n as int,
        ) == Err::<(Seq<AdfEnumView>, int), _>(e),
{
    let s = bytes;
    let ghost pv = crate::pools::spec_view_pool(pool@);
    let ghost full = spec_parse_enums(s@, pv, pos as int, n as int);
    let cnt = n as usize;
    let slen = s.len();
    let mut es: Vec<AdfEnum> = Vec::new();
    let mut epos: u64 = pos;
    let mut i: usize = 0;
    while i < cnt
        invariant
            i <= cnt,
            s@ == bytes@,
            slen == s@.len(),
            pv == crate::pools::spec_view_pool(pool@),
            full == spec_parse_enums(s@, pv, pos as int, cnt as int),
            cnt == n as usize,
            match spec_parse_enums(s@, pv, epos as int, (cnt - i) as int) {
                Ok((rest, end)) => full == Ok::<_, AdfParseError>((spec_eview(es@) + rest, end)),
                Err(x) => full == Err::<(Seq<AdfEnumView>, int), _>(x),
            },
        decreases cnt - i,
    {
        let res = parse_enum_entry(s, pool, epos);
        let en = match res {
            Ok(en) => en,
            Err(e) => {
                return Err(e);
            },
        };
        proof {
            assert(epos + 12 <= s@.len());
        }
        let ghost ev = en@;
        let ghost e0 = spec_eview(es@);
        es.push(en);
        proof {
            let cur = spec_parse_enums(s@, pv, epos as int, (cnt - i) as int);
            let nxt = spec_parse_enums(s@, pv, epos + 12, (cnt - i - 1) as int);
            assert(spec_eview(es@) =~= e0.push(ev));
            if nxt is Ok {
                let (rest, end) = nxt->Ok_0;
                assert(e0 + (seq![ev] + rest) =~= spec_eview(es@) + rest);
                assert(cur == Ok::<_, AdfParseError>((seq![ev] + rest, end)));
                assert(full == Ok::<_, AdfParseError>((spec_eview(es@) + rest, end)));
            } else {
                assert(cur == Err::<(Seq<AdfEnumView>, int), _>(nxt->Err_0));
            }
        }
        epos = epos + 12;
        i = i + 1;
    }
    proof {
        assert(spec_parse_enums(s@, pv, epos as int, 0) == Ok::<_, AdfParseError>(
            (Seq::<AdfEnumView>::empty(), epos as int),
        ));
        assert(spec_eview(es@) + Seq::<AdfEnumView>::empty() =~= spec_eview(es@));
    }
    Ok((es, epos))
}

#[verifier::rlimit(100)]
fn parse_type(bytes: &[u8], pool: &Vec<Vec<u8>>, insts: &mut Vec<AdfInstance>, pos: u64) -> (r:
    Result<(AdfType, u64), AdfParseError>)
    ensures
        r matches Ok(p) ==> spec_parse_type(
            bytes@,
            crate::pools::spec_view_pool(pool@),
            crate::container::spec_iview(old(insts)@),
            pos as int,
        ) == Ok::<_, AdfParseError>(
            (p.0@, crate::container::spec_iview(final(insts)@), p.1 as int),
        ),
        r matches Err(e) ==> spec_parse_type(
            bytes@,
            crate::pools::spec_view_pool(pool@),
            crate::container::spec_iview(old(insts)@),
            pos as int,
        ) == Err::<(AdfTypeView, Seq<AdfInstanceView>, int), _>(e),
{
    let s = bytes;
    let ghost pv = crate::pools::spec_view_pool(pool@);
    let ghost iv0 = crate::container::spec_iview(insts@);
    if (s.len() as u64) < 36 || pos > s.len() as u64 - 36 {
        return Err(AdfParseError::Truncated);
    }
    let p = pos as usize;
    let prim_tag = read_u32_at(s, p);
    let primitive = match primitive_of_tag(prim_tag) {
        Some(x) => x,
        None => {
            return Err(AdfParseError::BadPrimitive);
        },
    };
    let size = read_u32_at(s, p + 4);
    let alignment = read_u32_at(s, p + 8);
    let type_hash = read_u32_at(s, p + 12);
    let name_index = read_u64_at(s, p + 16);
    if name_index >= pool.len() as u64 {
        return Err(AdfParseError::Reference(AdfReferenceError::InvalidIdentity(name_index)));
    }
    let flags_raw = read_u16_at(s, p + 24);
    let scalar_tag = read_u16_at(s, p + 26);
    let scalar_type = match scalar_type_of_tag(scalar_tag) {
        Some(x) => x,
        None => {
            return Err(AdfParseError::BadScalarType);
        },
    };
    let element_type_hash = read_u32_at(s, p + 28);
    let element_length = read_u32_at(s, p + 32);
    assert(pv[name_index as int] == pool@[name_index as int]@);
    let name = crate::bytes::copy_range(
        pool[name_index as usize].as_slice(),
        0,
        pool[name_index as usize].len(),
    );
    assert(name@ =~= pv[name_index as int]);
    if (s.len() as u64) < 40 || pos > s.len() as u64 - 40 {
        return Err(AdfParseError::Truncated);
    }
    let mut t = AdfType {
        primitive: primitive,
        size: size,
        alignment: alignment,
        type_hash: type_hash,
        name: name,
        flags: flags_raw & ADF_FLAG_MASK,
        scalar_type: scalar_type,
        element_type_hash: element_type_hash,
        element_length: element_length,
        members: Vec::new(),
        enumerations: Vec::new(),
    };
    if matches!(primitive, AdfPrimitive::Structure) {
        let n = read_u32_at(s, p + 36);
        let res = parse_members_list(s, pool, insts, pos + 40, n);
        match res {
            Ok((ms, end)) => {
                t.members = ms;
                assert(t@.members == spec_mview(t.members@));
                assert(spec_eview(t.enumerations@) =~= Seq::<AdfEnumView>::empty());
                assert(spec_parse_type(s@, pv, iv0, pos as int) == Ok::<_, AdfParseError>(
                    (t@, crate::container::spec_iview(insts@), end as int),
                ));
                return Ok((t, end));
            },
            Err(e) => {
                assert(spec_parse_type(s@, pv, iv0, pos as int) == Err::<
                    (AdfTypeView, Seq<AdfInstanceView>, int),
                    _,
                >(e));
                return Err(e);
            },
        }
    }
    if matches!(primitive, AdfPrimitive::Enumeration) {
        let n = read_u32_at(s, p + 36);
        let res = parse_enums_list(s, pool, pos + 40, n);
        match res {
            Ok((es, end)) => {
                t.enumerations = es;
                assert(t@.enumerations == spec_eview(t.enumerations@));
                assert(spec_mview(t.members@) =~= Seq::<AdfMemberView>::empty());
                assert(spec_parse_type(s@, pv, iv0, pos as int) == Ok::<_, AdfParseError>(
                    (t@, crate::container::spec_iview(insts@), end as int),
                ));
                return Ok((t, end));
            },
            Err(e) => {
                assert(spec_parse_type(s@, pv, iv0, pos as int) == Err::<
                    (AdfTypeView, Seq<AdfInstanceView>, int),
                    _,
                >(e));
                return Err(e);
            },
        }
    }
    assert(spec_mview(t.members@) =~= Seq::<AdfMemberView>::empty());
    assert(spec_eview(t.enumerations@) =~= Seq::<AdfEnumView>::empty());
    assert(spec_parse_type(s@, pv, iv0, pos as int) == Ok::<_, AdfParseError>(
        (t@, crate::container::spec_iview(insts@), pos + 40),
    ));
    Ok((t, pos + 40))
}

#[verifier::rlimit(100)]
fn parse_type_table(
    bytes: &[u8],
    pool: &Vec<Vec<u8>>,
    insts: &mut Vec<AdfInstance>,
    off: u32,
    count: u32,
) -> (r: Result<Vec<AdfType>, AdfParseError>)
    ensures
        r matches Ok(v) ==> spec_parse_type_table(
            bytes@,
            crate::pools::spec_view_pool(pool@),
            crate::container::spec_iview(old(insts)@),
            off,
            count,
        ) == Ok::<_, AdfParseError>(
            (spec_tview(v@), crate::container::spec_iview(final(insts)@)),
        ),
        r matches Err(e) ==> spec_parse_type_table(
            bytes@,
            crate::pools::spec_view_pool(pool@),
            crate::container::spec_iview(old(insts)@),
            off,
            count,
        ) == Err::<(Seq<AdfTypeView>, Seq<AdfInstanceView>), _>(e),
{
    let s = bytes;
    let ghost pv = crate::pools::spec_view_pool(pool@);
    let ghost iv0 = crate::container::spec_iview(insts@);
    let mut ts: Vec<AdfType> = Vec::new();
    if off == 0 {
        assert(spec_tview(ts@) =~= Seq::<AdfTypeView>::empty());
        return Ok(ts);
    }
    let ghost full = spec_parse_types(s@, pv, iv0, off as int, count as int);
    let cnt = count as usize;
    let mut pos: u64 = off as u64;
    let mut i: usize = 0;
    while i < cnt
        invariant
            i <= cnt,
            s@ == bytes@,
            pv == crate::pools::spec_view_pool(pool@),
            off != 0,
            cnt == count as usize,
            full == spec_parse_types(s@, pv, iv0, off as int, cnt as int),
            full == spec_parse_type_table(s@, pv, iv0, off, count),
            iv0 == crate::container::spec_iview(old(insts)@),
            match spec_parse_types(
                s@,
                pv,
                crate::container::spec_iview(insts@),
                pos as int,
                (cnt - i) as int,
            ) {
                Ok((rest, fin)) => full == Ok::<_, AdfParseError>((spec_tview(ts@) + rest, fin)),
                Err(x) => full == Err::<(Seq<AdfTypeView>, Seq<AdfInstanceView>), _>(x),
            },
        decreases cnt - i,
    {
        let ghost ivc = crate::container::spec_iview(insts@);
        let res = parse_type(s, pool, insts, pos);
        let (t, end) = match res {
            Ok(p) => p,
            Err(e) => {
                proof {
                    assert(spec_parse_type(s@, pv, ivc, pos as int) == Err::<
                        (AdfTypeView, Seq<AdfInstanceView>, int),
                        AdfParseError,
                    >(e));
                    assert(spec_parse_types(s@, pv, ivc, pos as int, (cnt - i) as int) == Err::<
                        (Seq<AdfTypeView>, Seq<AdfInstanceView>),
                        AdfParseError,
                    >(e));
                }
                return Err(e);
            },
        };
        let ghost tv0 = spec_tview(ts@);
        let ghost tvv = t@;
        ts.push(t);
        proof {
            let cur = spec_parse_types(s@, pv, ivc, pos as int, (cnt - i) as int);
            let nxt = spec_parse_types(
                s@,
                pv,
                crate::container::spec_iview(insts@),
                end as int,
                (cnt - i - 1) as int,
            );
            assert(spec_tview(ts@) =~= tv0.push(tvv));
            if nxt is Ok {
                let (rest, fin) = nxt->Ok_0;
                assert(tv0 + (seq![tvv] + rest) =~= spec_tview(ts@) + rest);
                assert(cur == Ok::<_, AdfParseError>((seq![tvv] + rest, fin)));
                assert(full == Ok::<_, AdfParseError>((spec_tview(ts@) + rest, fin)));
            } else {
                assert(cur == Err::<(Seq<AdfTypeView>, Seq<AdfInstanceView>), _>(nxt->Err_0));
            }
        }
        pos = end;
        i = i + 1;
    }
    proof {
        assert(spec_parse_types(
            s@,
            pv,
            crate::container::spec_iview(insts@),
            pos as int,
            0,
        ) == Ok::<_, AdfParseError>(
            (Seq::<AdfTypeView>::empty(), crate::container::spec_iview(insts@)),
        ));
        assert(spec_tview(ts@) + Seq::<AdfTypeView>::empty() =~= spec_tview(ts@));
    }
    Ok(ts)
}

/// Read a whole container file from bytes, exactly as `spec_parse` accepts
/// it: magic and version first, then the string pool, the instance table
/// with its payload buffers and name-hash checks, the hash list, and the
/// type table, whose member default values may resolve to instances or to
/// fresh placeholders.
pub fn parse(bytes: &[u8]) -> (r: Result<AdfFile, AdfParseError>)
    ensures
        r matches Ok(f) ==> spec_parse(bytes@) == Ok::<_, AdfParseError>(f@),
        r matches Err(e) ==> spec_parse(bytes@) == Err::<AdfFileView, _>(e),
{
    let s = bytes;
    if s.len() < 4 {
        return Err(AdfParseError::Truncated);
    }
    if !(s[0] == 0x20 && s[1] == 0x46 && s[2] == 0x44 && s[3] == 0x41) {
        return Err(AdfParseError::BadMagic);
    }
    if s.len() < 64 {
        return Err(AdfParseError::Truncated);
    }
    if read_u32_at(s, 4) != 4 {
        return Err(AdfParseError::BadVersion);
    }
    let desc_end = exec_find_nul(s, 64);
    if desc_end >= s.len() {
        return Err(AdfParseError::Truncated);
    }
    let description = crate::bytes::copy_range(s, 64, desc_end);
    let instance_count = read_u32_at(s, 8);
    let instance_offset = read_u32_at(s, 12);
    let type_count = read_u32_at(s, 16);
    let type_offset = read_u32_at(s, 20);
    let hash_count = read_u32_at(s, 24);
    let hash_offset = read_u32_at(s, 28);
    let string_count = read_u32_at(s, 32);
    let string_offset = read_u32_at(s, 36);
    let pool = match parse_string_table(s, string_offset, string_count) {
        Ok(p) => p,
        Err(e) => {
            return Err(e);
        },
    };
    let mut instances = match parse_instance_table(s, &pool, instance_offset, instance_count) {
        Ok(v) => v,
        Err(e) => {
            return Err(e);
        },
    };
    let hashes = match parse_hash_table(s, hash_offset, hash_count) {
        Ok(v) => v,
        Err(e) => {
            return Err(e);
        },
    };
    let types = match parse_type_table(s, &pool, &mut instances, type_offset, type_count) {
        Ok(v) => v,
        Err(e) => {
            return Err(e);
        },
    };
    let f = AdfFile {
        version: AdfVersion::V4,
        instances: instances,
        types: types,
        hashes: hashes,
        description: description,
    };
    assert(spec_parse(s@) == Ok::<_, AdfParseError>(f@));
    Ok(f)
}

} // verus!
