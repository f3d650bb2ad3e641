use vstd::prelude::*;

use crate::bytes::{spec_align_up, spec_le64, spec_u64_at, spec_zeros, read_u64_at};
use crate::hashing::{hash_little32, spec_hash_little32};
use crate::reflect::spec_splice;
use crate::types::{AdfFile, AdfReadWriteError};
use crate::xml::{dec_u64, spec_dec_u64};

verus! {

// The compile-time identities the typed pathway gives its types: a display
// name and a 32-bit structural hash derived from it. The derivation renders
// every number in decimal, exactly as the identities appear in file type
// tables.

/// The name of a scalar-like base type's identity string: the name followed
/// by the decimal forms of its kind tag, size and alignment.
pub open spec fn spec_base_identity(name: Seq<u8>, tag: u64, size: u64, align: u64) -> Seq<u8> {
    name + spec_dec_u64(tag) + spec_dec_u64(size) + spec_dec_u64(align)
}

/// The structural hash of a base type.
pub open spec fn spec_base_type_hash(name: Seq<u8>, tag: u64, size: u64, align: u64) -> u32 {
    spec_hash_little32(spec_base_identity(name, tag, size, align))
}

pub fn base_type_hash(name: &[u8], tag: u64, size: u64, align: u64) -> (r: u32)
    ensures
        r == spec_base_type_hash(name@, tag, size, align),
{
    let mut s: Vec<u8> = Vec::new();
    crate::bytes::push_bytes(&mut s, name);
    let d1 = dec_u64(tag);
    crate::bytes::push_bytes(&mut s, d1.as_slice());
    let d2 = dec_u64(size);
    crate::bytes::push_bytes(&mut s, d2.as_slice());
    let d3 = dec_u64(align);
    crate::bytes::push_bytes(&mut s, d3.as_slice());
    assert(s@ =~= spec_base_identity(name@, tag, size, align));
    hash_little32(s.as_slice())
}

/// The display name of a pointer to the named type.
pub open spec fn spec_pointer_name(elem: Seq<u8>) -> Seq<u8> {
    elem + seq![0x2au8, 0x32u8, 0x38u8, 0x38u8]
}

/// The display name of an unbounded array of the named type.
pub open spec fn spec_array_name(elem: Seq<u8>) -> Seq<u8> {
    seq![0x41u8, 0x5bu8] + elem + seq![0x5du8, 0x33u8, 0x31u8, 0x36u8, 0x38u8]
}

/// The display name of an inline array: the element name, the total size,
/// and the element alignment, all rendered in decimal.
pub open spec fn spec_inline_array_name(elem: Seq<u8>, total_size: u64, align: u64) -> Seq<u8> {
    seq![0x49u8, 0x41u8, 0x5bu8] + elem + seq![0x5du8, 0x34u8] + spec_dec_u64(total_size)
        + spec_dec_u64(align)
}

/// Combining a container's own name hash with its element's hash: both
/// rendered in decimal, concatenated, and hashed again.
pub open spec fn spec_combine_hash(name_hash: u32, elem_hash: u32) -> u32 {
    spec_hash_little32(spec_dec_u64(name_hash as u64) + spec_dec_u64(elem_hash as u64))
}

/// The inline-array combination also renders the element count.
pub open spec fn spec_combine_hash_counted(name_hash: u32, elem_hash: u32, count: u64) -> u32 {
    spec_hash_little32(
        spec_dec_u64(name_hash as u64) + spec_dec_u64(elem_hash as u64) + spec_dec_u64(count),
    )
}

pub fn pointer_name(elem: &[u8]) -> (r: Vec<u8>)
    ensures
        r@ == spec_pointer_name(elem@),
{
    let mut s: Vec<u8> = Vec::new();
    crate::bytes::push_bytes(&mut s, elem);
    s.push(0x2a);
    s.push(0x32);
    s.push(0x38);
    s.push(0x38);
    assert(s@ =~= spec_pointer_name(elem@));
    s
}

pub fn array_name(elem: &[u8]) -> (r: Vec<u8>)
    ensures
        r@ == spec_array_name(elem@),
{
    let mut s: Vec<u8> = Vec::new();
    s.push(0x41);
    s.push(0x5b);
    crate::bytes::push_bytes(&mut s, elem);
    s.push(0x5d);
    s.push(0x33);
    s.push(0x31);
    s.push(0x36);
    s.push(0x38);
    assert(s@ =~= spec_array_name(elem@));
    s
}

pub fn inline_array_name(elem: &[u8], total_size: u64, align: u64) -> (r: Vec<u8>)
    ensures
        r@ == spec_inline_array_name(elem@, total_size, align),
{
    let mut s: Vec<u8> = Vec::new();
    s.push(0x49);
    s.push(0x41);
    s.push(0x5b);
    crate::bytes::push_bytes(&mut s, elem);
    s.push(0x5d);
    s.push(0x34);
    let d1 = dec_u64(total_size);
    crate::bytes::push_bytes(&mut s, d1.as_slice());
    let d2 = dec_u64(align);
    crate::bytes::push_bytes(&mut s, d2.as_slice());
    assert(s@ =~= spec_inline_array_name(elem@, total_size, align));
    s
}

pub fn combine_hash(name_hash: u32, elem_hash: u32) -> (r: u32)
    ensures
        r == spec_combine_hash(name_hash, elem_hash),
{
    let mut s: Vec<u8> = Vec::new();
    let d1 = dec_u64(name_hash as u64);
    crate::bytes::push_bytes(&mut s, d1.as_slice());
    let d2 = dec_u64(elem_hash as u64);
    crate::bytes::push_bytes(&mut s, d2.as_slice());
    assert(s@ =~= spec_dec_u64(name_hash as u64) + spec_dec_u64(elem_hash as u64));
    hash_little32(s.as_slice())
}

pub fn combine_hash_counted(name_hash: u32, elem_hash: u32, count: u64) -> (r: u32)
    ensures
        r == spec_combine_hash_counted(name_hash, elem_hash, count),
{
    let mut s: Vec<u8> = Vec::new();
    let d1 = dec_u64(name_hash as u64);
    crate::bytes::push_bytes(&mut s, d1.as_slice());
    let d2 = dec_u64(elem_hash as u64);
    crate::bytes::push_bytes(&mut s, d2.as_slice());
    let d3 = dec_u64(count);
    crate::bytes::push_bytes(&mut s, d3.as_slice());
    assert(s@ =~= spec_dec_u64(name_hash as u64) + spec_dec_u64(elem_hash as u64) + spec_dec_u64(
        count,
    ));
    hash_little32(s.as_slice())
}

/// The structural hash of a pointer to a type with the given name and hash.
pub fn pointer_type_hash(elem_name: &[u8], elem_hash: u32) -> (r: u32)
    ensures
        r == spec_combine_hash(
            spec_hash_little32(spec_pointer_name(elem_name@)),
            elem_hash,
        ),
{
    let n = pointer_name(elem_name);
    let h = hash_little32(n.as_slice());
    combine_hash(h, elem_hash)
}

/// The structural hash of an unbounded array of a type with the given name
/// and hash.
pub fn array_type_hash(elem_name: &[u8], elem_hash: u32) -> (r: u32)
    ensures
        r == spec_combine_hash(spec_hash_little32(spec_array_name(elem_name@)), elem_hash),
{
    let n = array_name(elem_name);
    let h = hash_little32(n.as_slice());
    combine_hash(h, elem_hash)
}

/// The structural hash of an inline array of `count` elements of a type
/// with the given name, hash, size and alignment.
pub fn inline_array_type_hash(
    elem_name: &[u8],
    elem_hash: u32,
    elem_size: u64,
    elem_align: u64,
    count: u64,
) -> (r: u32)
    requires
        elem_size * count <= u64::MAX,
    ensures
        r == spec_combine_hash_counted(
            spec_hash_little32(
                spec_inline_array_name(elem_name@, (elem_size * count) as u64, elem_align),
            ),
            elem_hash,
            count,
        ),
{
    proof {
        assert(elem_size * count >= 0) by (nonlinear_arith);
    }
    let total = elem_size * count;
    let n = inline_array_name(elem_name, total, elem_align);
    let h = hash_little32(n.as_slice());
    combine_hash_counted(h, elem_hash, count)
}

/// A type library: a file suffix and the bytes of a container file whose
/// type table serves that suffix.
pub struct AdfTypeLib {
    pub extension: Vec<u8>,
    pub library: Vec<u8>,
}

impl AdfTypeLib {
    /// Parse the library's bytes as a container file.
    pub fn load(&self) -> (r: Result<AdfFile, crate::types::AdfParseError>)
        ensures
            r matches Ok(f) ==> crate::parse::spec_parse(self.library@) == Ok::<
                _,
                crate::types::AdfParseError,
            >(f@),
            r matches Err(e) ==> crate::parse::spec_parse(self.library@) == Err::<
                crate::types::AdfFileView,
                _,
            >(e),
    {
        crate::parse::parse(self.library.as_slice())
    }
}


// The typed pathway's identity tables: a writer appends each shared object
// once, at an aligned tail offset, and records its identity; a reader
// remembers which offset was read as which type. Identities are plain
// 64-bit keys, and type identities plain 32-bit tags.

/// The writer's state: the next free position after all appended payloads,
/// and one record per emitted shared object: its key, its offset, and the
/// type it was emitted as.
pub struct AdfWriterRefs {
    pub tail: u64,
    pub entries: Vec<(u64, u64, u32)>,
}

/// The reader's memory: which absolute offsets were already read, and as
/// which type each was read.
pub struct AdfReaderRefs {
    pub entries: Vec<(u64, u32)>,
}

/// First writer record with the given key; the list's length if none.
pub open spec fn spec_refs_find(entries: Seq<(u64, u64, u32)>, key: u64, j: int) -> int
    decreases entries.len() - j,
{
    if j < 0 || j >= entries.len() {
        entries.len() as int
    } else if entries[j].0 == key {
        j
    } else {
        spec_refs_find(entries, key, j + 1)
    }
}

/// First reader record with the given offset; the list's length if none.
pub open spec fn spec_rrefs_find(entries: Seq<(u64, u32)>, off: u64, j: int) -> int
    decreases entries.len() - j,
{
    if j < 0 || j >= entries.len() {
        entries.len() as int
    } else if entries[j].0 == off {
        j
    } else {
        spec_rrefs_find(entries, off, j + 1)
    }
}

/// Shared objects are appended at the tail aligned to at least sixteen.
pub open spec fn spec_shared_align(align: u64) -> int {
    if align < 16 {
        16
    } else {
        align as int
    }
}

/// What one shared emission does. A key already recorded with the same type
/// writes only its recorded offset into the slot; one recorded with another
/// type is refused; a fresh key appends one aligned copy of the payload at
/// the tail, records it, and writes its offset into the slot.
pub open spec fn spec_write_shared(
    buf: Seq<u8>,
    slot: int,
    key: u64,
    payload: Seq<u8>,
    align: u64,
    type_id: u32,
    tail: u64,
    entries: Seq<(u64, u64, u32)>,
) -> Result<(Seq<u8>, u64, Seq<(u64, u64, u32)>), AdfReadWriteError> {
    let e = spec_refs_find(entries, key, 0);
    if e < entries.len() {
        if entries[e].2 != type_id {
            Err(AdfReadWriteError::ReferenceError(key))
        } else {
            Ok((spec_splice(buf, slot, spec_le64(entries[e].1)), tail, entries))
        }
    } else {
        let aligned = spec_align_up(tail as int, spec_shared_align(align));
        Ok(
            (
                spec_splice(buf, slot, spec_le64(aligned as u64)) + spec_zeros(
                    aligned - buf.len(),
                ) + payload,
                (aligned + payload.len()) as u64,
                entries.push((key, aligned as u64, type_id)),
            ),
        )
    }
}

/// Scan the writer records for a key: the first matching position, or the
/// record count if the key is fresh.
fn find_writer_entry(refs: &AdfWriterRefs, key: u64) -> (r: usize)
    ensures
        r == spec_refs_find(refs.entries@, key, 0),
        r <= refs.entries@.len(),
{
    let ghost ev = refs.entries@;
    let n = refs.entries.len();
    let mut j: usize = 0;
    while j < n
        invariant
            j <= n,
            n == refs.entries@.len(),
            ev == refs.entries@,
            spec_refs_find(ev, key, 0) == spec_refs_find(ev, key, j as int),
        decreases n - j,
    {
        if refs.entries[j].0 == key {
            return j;
        }
        j = j + 1;
    }
    j
}

/// Scan the reader records for an offset: the first matching position, or
/// the record count if the offset is new.
fn find_reader_entry(refs: &AdfReaderRefs, off: u64) -> (r: usize)
    ensures
        r == spec_rrefs_find(refs.entries@, off, 0),
        r <= refs.entries@.len(),
{
    let ghost ev = refs.entries@;
    let n = refs.entries.len();
    let mut j: usize = 0;
    while j < n
        invariant
            j <= n,
            n == refs.entries@.len(),
            ev == refs.entries@,
            spec_rrefs_find(ev, off, 0) == spec_rrefs_find(ev, off, j as int),
        decreases n - j,
    {
        if refs.entries[j].0 == off {
            return j;
        }
        j = j + 1;
    }
    j
}

/// Emit one shared payload: the slot gets the payload's offset, and the
/// payload itself is appended only on the key's first emission.
#[verifier::rlimit(100)]
pub fn write_shared(
    buf: &mut Vec<u8>,
    slot: u64,
    key: u64,
    payload: &[u8],
    align: u64,
    type_id: u32,
    refs: &mut AdfWriterRefs,
) -> (r: Result<(), AdfReadWriteError>)
    requires
        slot + 8 <= old(buf)@.len(),
        old(refs).tail >= old(buf)@.len(),
        1 <= align,
        old(refs).tail + align + 16 + payload@.len() <= u32::MAX,
    ensures
        ({
            let w = spec_write_shared(
                old(buf)@,
                slot as int,
                key,
                payload@,
                align,
                type_id,
                old(refs).tail,
                old(refs).entries@,
            );
            match r {
                Ok(u) => {
                    &&& w matches Ok(p)
                    &&& final(buf)@ == w->Ok_0.0
                    &&& final(refs).tail == w->Ok_0.1
                    &&& final(refs).entries@ == w->Ok_0.2
                },
                Err(e) => {
                    &&& w == Err::<(Seq<u8>, u64, Seq<(u64, u64, u32)>), _>(e)
                    &&& final(buf)@ == old(buf)@
                    &&& final(refs).tail == old(refs).tail
                    &&& final(refs).entries@ == old(refs).entries@
                },
            }
        }),
{
    let ghost ev = refs.entries@;
    let bl = buf.len();
    let j = find_writer_entry(refs, key);
    if j < refs.entries.len() {
        if refs.entries[j].2 != type_id {
            return Err(AdfReadWriteError::ReferenceError(key));
        }
        let off = refs.entries[j].1;
        let mut tmp: Vec<u8> = Vec::new();
        crate::bytes::push_le64(&mut tmp, off);
        assert(tmp@ =~= spec_le64(off));
        crate::reflect::write_at_pub(buf, slot as usize, tmp.as_slice());
        return Ok(());
    }
    let a: u64 = if align < 16 {
        16
    } else {
        align
    };
    let aligned = crate::container::align_up_u64_pub(refs.tail, a);
    proof {
        crate::bytes::lemma_align_up(refs.tail as int, a as int);
    }
    let mut tmp: Vec<u8> = Vec::new();
    crate::bytes::push_le64(&mut tmp, aligned);
    assert(tmp@ =~= spec_le64(aligned));
    crate::reflect::write_at_pub(buf, slot as usize, tmp.as_slice());
    let ghost b1 = buf@;
    assert(b1 == spec_splice(old(buf)@, slot as int, spec_le64(aligned)));
    assert(b1.len() == old(buf)@.len());
    let grow = (aligned - buf.len() as u64) as usize;
    assert(grow as int == aligned - b1.len());
    crate::bytes::push_zeros(buf, grow);
    assert(buf@ == b1 + spec_zeros(aligned - old(buf)@.len()));
    crate::bytes::push_bytes(buf, payload);
    refs.tail = aligned + payload.len() as u64;
    refs.entries.push((key, aligned, type_id));
    assert(final(refs).entries@ =~= ev.push((key, aligned, type_id)));
    assert(final(buf)@ =~= spec_splice(old(buf)@, slot as int, spec_le64(aligned)) + spec_zeros(
        aligned - old(buf)@.len(),
    ) + payload@);
    Ok(())
}

/// What one shared reservation does: like an emission, but the appended
/// region holds `size` zero bytes for the caller to fill, and the recorded
/// offset comes back to the caller.
pub open spec fn spec_reserve_shared(
    buf: Seq<u8>,
    slot: int,
    key: u64,
    size: u64,
    align: u64,
    type_id: u32,
    tail: u64,
    entries: Seq<(u64, u64, u32)>,
) -> Result<(Seq<u8>, u64, Seq<(u64, u64, u32)>, u64), AdfReadWriteError> {
    let e = spec_refs_find(entries, key, 0);
    if e < entries.len() {
        if entries[e].2 != type_id {
            Err(AdfReadWriteError::ReferenceError(key))
        } else {
            Ok((spec_splice(buf, slot, spec_le64(entries[e].1)), tail, entries, entries[e].1))
        }
    } else {
        let aligned = spec_align_up(tail as int, spec_shared_align(align));
        Ok(
            (
                spec_splice(buf, slot, spec_le64(aligned as u64)) + spec_zeros(
                    aligned + size - buf.len(),
                ),
                (aligned + size) as u64,
                entries.push((key, aligned as u64, type_id)),
                aligned as u64,
            ),
        )
    }
}

/// Reserve a zeroed aligned region for one shared object and record it; the
/// caller fills the region afterwards. A key already recorded with the same
/// type only has its offset written again.
#[verifier::rlimit(100)]
pub fn reserve_shared(
    buf: &mut Vec<u8>,
    slot: u64,
    key: u64,
    size: u64,
    align: u64,
    type_id: u32,
    refs: &mut AdfWriterRefs,
) -> (r: Result<u64, AdfReadWriteError>)
    requires
        slot + 8 <= old(buf)@.len(),
        old(refs).tail >= old(buf)@.len(),
        1 <= align,
        old(refs).tail + align + 16 + size <= u32::MAX,
    ensures
        ({
            let w = spec_reserve_shared(
                old(buf)@,
                slot as int,
                key,
                size,
                align,
                type_id,
                old(refs).tail,
                old(refs).entries@,
            );
            match r {
                Ok(off) => {
                    &&& w matches Ok(p)
                    &&& final(buf)@ == w->Ok_0.0
                    &&& final(refs).tail == w->Ok_0.1
                    &&& final(refs).entries@ == w->Ok_0.2
                    &&& off == w->Ok_0.3
                },
                Err(e) => {
                    &&& w == Err::<(Seq<u8>, u64, Seq<(u64, u64, u32)>, u64), _>(e)
                    &&& final(buf)@ == old(buf)@
                    &&& final(refs).tail == old(refs).tail
                    &&& final(refs).entries@ == old(refs).entries@
                },
            }
        }),
{
    let ghost ev = refs.entries@;
    let bl = buf.len();
    let j = find_writer_entry(refs, key);
    if j < refs.entries.len() {
        if refs.entries[j].2 != type_id {
            return Err(AdfReadWriteError::ReferenceError(key));
        }
        let off = refs.entries[j].1;
        let mut tmp: Vec<u8> = Vec::new();
        crate::bytes::push_le64(&mut tmp, off);
        assert(tmp@ =~= spec_le64(off));
        crate::reflect::write_at_pub(buf, slot as usize, tmp.as_slice());
        return Ok(off);
    }
    let a: u64 = if align < 16 {
        16
    } else {
        align
    };
    let aligned = crate::container::align_up_u64_pub(refs.tail, a);
    proof {
        crate::bytes::lemma_align_up(refs.tail as int, a as int);
    }
    let mut tmp: Vec<u8> = Vec::new();
    crate::bytes::push_le64(&mut tmp, aligned);
    assert(tmp@ =~= spec_le64(aligned));
    crate::reflect::write_at_pub(buf, slot as usize, tmp.as_slice());
    let ghost b1 = buf@;
    assert(b1 == spec_splice(old(buf)@, slot as int, spec_le64(aligned)));
    assert(b1.len() == old(buf)@.len());
    let grow = (aligned + size - buf.len() as u64) as usize;
    assert(grow as int == aligned + size - b1.len());
    crate::bytes::push_zeros(buf, grow);
    refs.tail = aligned + size;
    refs.entries.push((key, aligned, type_id));
    assert(final(refs).entries@ =~= ev.push((key, aligned, type_id)));
    assert(final(buf)@ =~= spec_splice(old(buf)@, slot as int, spec_le64(aligned)) + spec_zeros(
        aligned + size - old(buf)@.len(),
    ));
    Ok(aligned)
}

/// What following one shared slot on read does: the stored offset is the
/// object's identity; an offset already seen as another type is refused, a
/// fresh one is remembered, and the caller learns whether it must read the
/// payload or already holds it.
pub open spec fn spec_read_shared(
    buf: Seq<u8>,
    slot: int,
    type_id: u32,
    entries: Seq<(u64, u32)>,
) -> Result<(u64, bool, Seq<(u64, u32)>), AdfReadWriteError> {
    let off = spec_u64_at(buf, slot);
    let e = spec_rrefs_find(entries, off, 0);
    if e < entries.len() {
        if entries[e].1 != type_id {
            Err(AdfReadWriteError::ReferenceError(off))
        } else {
            Ok((off, false, entries))
        }
    } else {
        Ok((off, true, entries.push((off, type_id))))
    }
}

/// Follow one shared slot: the stored offset comes back, with whether this
/// is its first visit; a revisit as a different type is refused.
#[verifier::rlimit(100)]
pub fn read_shared(
    buf: &[u8],
    slot: u64,
    type_id: u32,
    refs: &mut AdfReaderRefs,
) -> (r: Result<(u64, bool), AdfReadWriteError>)
    requires
        slot + 8 <= buf@.len(),
    ensures
        ({
            let w = spec_read_shared(buf@, slot as int, type_id, old(refs).entries@);
            match r {
                Ok(p) => {
                    &&& w matches Ok(q)
                    &&& p.0 == w->Ok_0.0
                    &&& p.1 == w->Ok_0.1
                    &&& final(refs).entries@ == w->Ok_0.2
                },
                Err(e) => {
                    &&& w == Err::<(u64, bool, Seq<(u64, u32)>), _>(e)
                    &&& final(refs).entries@ == old(refs).entries@
                },
            }
        }),
{
    let bl = buf.len();
    let off = read_u64_at(buf, slot as usize);
    let ghost ev = refs.entries@;
    let j = find_reader_entry(refs, off);
    if j < refs.entries.len() {
        if refs.entries[j].1 != type_id {
            return Err(AdfReadWriteError::ReferenceError(off));
        }
        return Ok((off, false));
    }
    refs.entries.push((off, type_id));
    assert(final(refs).entries@ =~= ev.push((off, type_id)));
    Ok((off, true))
}

} // verus!
