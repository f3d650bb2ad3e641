use vstd::prelude::*;

use crate::bytes::{
    spec_u16_at, spec_u32_at, spec_u64_at, read_u16_at, read_u32_at, read_u64_at,
};
use crate::types::{
    AdfFile, AdfInstance, AdfScalarType, AdfType, AdfTypeView, AdfPrimitive,
};

verus! {

broadcast use vstd::std_specs::vec::group_vec_axioms, vstd::seq::group_seq_axioms;

// The reflective value engine: given a type registry, an instance buffer is
// interpreted as a tree of typed values, and such a tree is packed back into
// a buffer. `spec_read_value` and `spec_write_value` state both directions
// exactly; the engine is proved against them.

/// Why a reflective read or write stopped.
#[derive(Clone, Copy, Debug, PartialEq, Eq, Structural)]
pub enum AdfReflectError {
    /// A type hash that the registry cannot resolve.
    TypeUnknown(u32),
    /// The addressed slice lies outside the buffer.
    OutOfBounds,
    /// The addressed offset does not satisfy the type's alignment.
    Misaligned,
    /// A scalar kind and size pair the format does not define.
    InvalidScalar,
    /// A size, alignment or bit layout the engine cannot address.
    BadLayout,
    /// A value whose kind or type hash disagrees with the expected type.
    TypeMismatch(u32),
    /// An inline array value whose length disagrees with the type.
    CountMismatch,
    /// A recursive or deferred type, which the engine does not interpret.
    Unsupported,
    /// The type graph recursion limit was reached.
    Depth,
}

/// A decoded scalar. Floating-point payloads are carried as their raw bit
/// patterns, which keeps every transformation on them exact.
#[derive(Clone, Copy, Debug, PartialEq, Eq, Structural)]
pub enum AdfReflectedScalar {
    U8(u8),
    I8(i8),
    U16(u16),
    I16(i16),
    U32(u32),
    I32(i32),
    F32Bits(u32),
    U64(u64),
    I64(i64),
    F64Bits(u64),
}

/// One decoded value: scalars, structures, indirect pointers and arrays,
/// inline arrays, raw string bytes, bitfields, enumerations and string
/// hashes.
#[derive(Debug)]
pub enum AdfReflectedPrimitive {
    Scalar(AdfReflectedScalar),
    Structure(Vec<AdfReflectedValue>),
    Pointer(Box<AdfReflectedValue>),
    Array(Vec<AdfReflectedValue>),
    InlineArray(Vec<AdfReflectedValue>),
    StringData(Vec<u8>),
    Bitfield(AdfReflectedScalar),
    Enumeration(AdfReflectedScalar),
    StringHash(AdfReflectedScalar),
    Deferred(Box<AdfReflectedValue>),
}

/// A decoded value with the hash of the type it was read as.
#[derive(Debug)]
pub struct AdfReflectedValue(pub u32, pub AdfReflectedPrimitive);

pub struct AdfReflectedValueView {
    pub type_hash: u32,
    pub payload: AdfReflectedPrimitiveView,
}

pub enum AdfReflectedPrimitiveView {
    Scalar(AdfReflectedScalar),
    Structure(Seq<AdfReflectedValueView>),
    Pointer(Box<AdfReflectedValueView>),
    Array(Seq<AdfReflectedValueView>),
    InlineArray(Seq<AdfReflectedValueView>),
    StringData(Seq<u8>),
    Bitfield(AdfReflectedScalar),
    Enumeration(AdfReflectedScalar),
    StringHash(AdfReflectedScalar),
    Deferred(Box<AdfReflectedValueView>),
}

pub open spec fn spec_value_view(v: AdfReflectedValue) -> AdfReflectedValueView
    decreases v,
    via spec_value_view_decreases
{
    AdfReflectedValueView {
        type_hash: v.0,
        payload: match v.1 {
            AdfReflectedPrimitive::Scalar(sc) => AdfReflectedPrimitiveView::Scalar(sc),
            AdfReflectedPrimitive::Structure(vs) => AdfReflectedPrimitiveView::Structure(
                spec_values_view(vs@),
            ),
            AdfReflectedPrimitive::Pointer(b) => AdfReflectedPrimitiveView::Pointer(
                Box::new(spec_value_view(*b)),
            ),
            AdfReflectedPrimitive::Array(vs) => AdfReflectedPrimitiveView::Array(
                spec_values_view(vs@),
            ),
            AdfReflectedPrimitive::InlineArray(vs) => AdfReflectedPrimitiveView::InlineArray(
                spec_values_view(vs@),
            ),
            AdfReflectedPrimitive::StringData(bs) => AdfReflectedPrimitiveView::StringData(bs@),
            AdfReflectedPrimitive::Bitfield(sc) => AdfReflectedPrimitiveView::Bitfield(sc),
            AdfReflectedPrimitive::Enumeration(sc) => AdfReflectedPrimitiveView::Enumeration(sc),
            AdfReflectedPrimitive::StringHash(sc) => AdfReflectedPrimitiveView::StringHash(sc),
            AdfReflectedPrimitive::Deferred(b) => AdfReflectedPrimitiveView::Deferred(
                Box::new(spec_value_view(*b)),
            ),
        },
    }
}

#[via_fn]
proof fn spec_value_view_decreases(v: AdfReflectedValue) {
    match v.1 {
        AdfReflectedPrimitive::Structure(vs) => {
            assert(decreases_to!(v => vs));
            assert(decreases_to!(vs => vs@));
        },
        AdfReflectedPrimitive::Array(vs) => {
            assert(decreases_to!(v => vs));
            assert(decreases_to!(vs => vs@));
        },
        AdfReflectedPrimitive::InlineArray(vs) => {
            assert(decreases_to!(v => vs));
            assert(decreases_to!(vs => vs@));
        },
        _ => {},
    }
}

pub open spec fn spec_values_view(vs: Seq<AdfReflectedValue>) -> Seq<AdfReflectedValueView>
    decreases vs, vs.len(),
{
    if vs.len() <= 0 {
        Seq::empty()
    } else {
        seq![spec_value_view(vs[0])] + spec_values_view(vs.drop_first())
    }
}

pub proof fn lemma_values_view_len(vs: Seq<AdfReflectedValue>)
    ensures
        spec_values_view(vs).len() == vs.len(),
    decreases vs.len(),
{
    if vs.len() > 0 {
        lemma_values_view_len(vs.drop_first());
    }
}

pub proof fn lemma_values_view_push(vs: Seq<AdfReflectedValue>, x: AdfReflectedValue)
    ensures
        spec_values_view(vs.push(x)) =~= spec_values_view(vs).push(spec_value_view(x)),
    decreases vs.len(),
{
    lemma_values_view_len(vs);
    lemma_values_view_len(vs.push(x));
    if vs.len() == 0 {
        assert(vs.push(x).drop_first() =~= Seq::<AdfReflectedValue>::empty());
        assert(vs.push(x)[0] == x);
        assert(seq![spec_value_view(x)] + Seq::<AdfReflectedValueView>::empty()
            =~= Seq::<AdfReflectedValueView>::empty().push(spec_value_view(x)));
    } else {
        lemma_values_view_push(vs.drop_first(), x);
        lemma_values_view_len(vs.drop_first());
        assert(vs.push(x).drop_first() =~= vs.drop_first().push(x));
        assert(vs.push(x)[0] == vs[0]);
        assert(seq![spec_value_view(vs[0])] + spec_values_view(vs.drop_first()).push(
            spec_value_view(x),
        ) =~= (seq![spec_value_view(vs[0])] + spec_values_view(vs.drop_first())).push(
            spec_value_view(x),
        ));
    }
}

pub proof fn lemma_values_view_index(vs: Seq<AdfReflectedValue>, i: int)
    requires
        0 <= i < vs.len(),
    ensures
        spec_values_view(vs)[i] == spec_value_view(vs[i]),
    decreases i,
{
    lemma_values_view_len(vs.drop_first());
    if i > 0 {
        lemma_values_view_index(vs.drop_first(), i - 1);
        assert(vs.drop_first()[i - 1] == vs[i]);
    }
}

impl View for AdfReflectedValue {
    type V = AdfReflectedValueView;

    open spec fn view(&self) -> AdfReflectedValueView {
        spec_value_view(*self)
    }
}

/// The type registry the engine resolves hashes against. Hashes are unique
/// within the registry; a reloaded hash replaces the earlier definition.
pub struct AdfReflectionContext {
    pub types: Vec<AdfType>,
}

/// First registered type with the given hash, if any.
pub open spec fn spec_lookup_from(ts: Seq<AdfTypeView>, h: u32, j: int) -> Option<AdfTypeView>
    decreases ts.len() - j,
{
    if j < 0 || j >= ts.len() {
        None
    } else if ts[j].type_hash == h {
        Some(ts[j])
    } else {
        spec_lookup_from(ts, h, j + 1)
    }
}

pub open spec fn spec_ctx_view(ctx: AdfReflectionContext) -> Seq<AdfTypeView> {
    ctx.types@.map_values(|t: AdfType| t@)
}

impl AdfReflectionContext {
    /// An empty registry.
    pub fn new() -> (r: AdfReflectionContext)
        ensures
            spec_ctx_view(r) =~= Seq::<AdfTypeView>::empty(),
    {
        AdfReflectionContext { types: Vec::new() }
    }

    /// Resolve a type hash to its registered definition.
    pub fn get_type(&self, type_hash: u32) -> (r: Option<&AdfType>)
        ensures
            match r {
                Some(t) => spec_lookup_from(spec_ctx_view(*self), type_hash, 0) == Some(t@),
                None => spec_lookup_from(spec_ctx_view(*self), type_hash, 0) is None,
            },
    {
        let ghost tv = spec_ctx_view(*self);
        let n = self.types.len();
        let mut j: usize = 0;
        while j < n
            invariant
                j <= n,
                n == self.types@.len(),
                tv == spec_ctx_view(*self),
                spec_lookup_from(tv, type_hash, 0) == spec_lookup_from(tv, type_hash, j as int),
            decreases n - j,
        {
            assert(tv[j as int] == self.types@[j as int]@);
            if self.types[j].type_hash == type_hash {
                return Some(&self.types[j]);
            }
            j = j + 1;
        }
        None
    }

    /// Copy a file's type list into the registry; a hash already present is
    /// overwritten, so the file loaded last wins.
    pub fn load_types_from_file(&mut self, file: &AdfFile)
        ensures
            spec_ctx_view(*final(self)) == spec_load_types(
                spec_ctx_view(*old(self)),
                file@.types,
                0,
            ),
    {
        let ghost fts = file@.types;
        let n = file.types.len();
        let mut i: usize = 0;
        while i < n
            invariant
                i <= n,
                n == file.types@.len(),
                fts == file@.types,
                spec_load_types(spec_ctx_view(*self), fts, i as int) == spec_load_types(
                    spec_ctx_view(*old(self)),
                    fts,
                    0,
                ),
            decreases n - i,
        {
            assert(fts[i as int] == file.types@[i as int]@);
            let t = clone_type(&file.types[i]);
            self.upsert(t);
            i = i + 1;
        }
    }

    fn upsert(&mut self, t: AdfType)
        ensures
            spec_ctx_view(*final(self)) == spec_upsert(spec_ctx_view(*old(self)), t@),
    {
        let ghost tv0 = spec_ctx_view(*self);
        let n = self.types.len();
        let mut j: usize = 0;
        while j < n
            invariant
                j <= n,
                n == self.types@.len(),
                tv0 == spec_ctx_view(*self),
                tv0 == spec_ctx_view(*old(self)),
                forall|k: int| 0 <= k < j ==> (#[trigger] tv0[k]).type_hash != t@.type_hash,
                spec_lookup_index(tv0, t@.type_hash, 0) == spec_lookup_index(
                    tv0,
                    t@.type_hash,
                    j as int,
                ),
            decreases n - j,
        {
            assert(tv0[j as int] == self.types@[j as int]@);
            if self.types[j].type_hash == t.type_hash {
                self.types.set(j, t);
                assert(spec_ctx_view(*self) =~= tv0.update(j as int, t@));
                return ;
            }
            j = j + 1;
        }
        self.types.push(t);
        assert(spec_ctx_view(*self) =~= tv0.push(t@));
    }
}

/// Position of the first registered type with the given hash; the list's
/// length if none.
pub open spec fn spec_lookup_index(ts: Seq<AdfTypeView>, h: u32, j: int) -> int
    decreases ts.len() - j,
{
    if j < 0 || j >= ts.len() {
        ts.len() as int
    } else if ts[j].type_hash == h {
        j
    } else {
        spec_lookup_index(ts, h, j + 1)
    }
}

/// Registering a type replaces the first definition with the same hash, or
/// appends the type.
pub open spec fn spec_upsert(ts: Seq<AdfTypeView>, t: AdfTypeView) -> Seq<AdfTypeView> {
    let j = spec_lookup_index(ts, t.type_hash, 0);
    if j < ts.len() {
        ts.update(j, t)
    } else {
        ts.push(t)
    }
}

pub open spec fn spec_load_types(ts: Seq<AdfTypeView>, new: Seq<AdfTypeView>, i: int) -> Seq<
    AdfTypeView,
>
    decreases new.len() - i,
{
    if i < 0 || i >= new.len() {
        ts
    } else {
        spec_load_types(spec_upsert(ts, new[i]), new, i + 1)
    }
}

/// The registry a library contributes: its bytes parse as a container
/// file whose type list is loaded over the current registry.
pub open spec fn spec_load_library(ts: Seq<AdfTypeView>, lib: Seq<u8>) -> Result<
    Seq<AdfTypeView>,
    crate::types::AdfParseError,
> {
    match crate::parse::spec_parse(lib) {
        Ok(f) => Ok(spec_load_types(ts, f.types, 0)),
        Err(e) => Err(e),
    }
}

/// The registry after loading, over a base, every listed library whose
/// extension matches, in list order.
pub open spec fn spec_load_matching(
    ts: Seq<AdfTypeView>,
    libs: Seq<crate::typed::AdfTypeLib>,
    ext: Seq<u8>,
    i: int,
) -> Result<Seq<AdfTypeView>, crate::types::AdfParseError>
    decreases libs.len() - i,
{
    if i < 0 || i >= libs.len() {
        Ok(ts)
    } else if libs[i].extension@ == ext {
        match spec_load_library(ts, libs[i].library@) {
            Ok(ts2) => spec_load_matching(ts2, libs, ext, i + 1),
            Err(e) => Err(e),
        }
    } else {
        spec_load_matching(ts, libs, ext, i + 1)
    }
}

impl AdfReflectionContext {
    /// Parse a library's bytes and load its type list over the registry; a
    /// library that does not parse leaves the registry unchanged.
    pub fn load_types_from_library(&mut self, library: &crate::typed::AdfTypeLib) -> (r: Result<
        (),
        crate::types::AdfParseError,
    >)
        ensures
            r matches Ok(u) ==> spec_load_library(spec_ctx_view(*old(self)), library.library@)
                == Ok::<Seq<AdfTypeView>, crate::types::AdfParseError>(spec_ctx_view(*final(self))),
            r matches Err(e) ==> spec_load_library(spec_ctx_view(*old(self)), library.library@)
                == Err::<Seq<AdfTypeView>, crate::types::AdfParseError>(e) && spec_ctx_view(
                *final(self),
            ) == spec_ctx_view(*old(self)),
    {
        match library.load() {
            Ok(f) => {
                self.load_types_from_file(&f);
                Ok(())
            },
            Err(e) => Err(e),
        }
    }

    /// Build a registry for a file suffix: the built-in library first,
    /// then every listed library whose extension equals the suffix, in
    /// list order, so the definition loaded last wins.
    pub fn from_extension(
        builtin: &crate::typed::AdfTypeLib,
        libraries: &Vec<crate::typed::AdfTypeLib>,
        extension: &[u8],
    ) -> (r: Result<AdfReflectionContext, crate::types::AdfParseError>)
        ensures
            r matches Ok(ctx) ==> ({
                &&& spec_load_library(Seq::<AdfTypeView>::empty(), builtin.library@) is Ok
                &&& spec_load_matching(
                    spec_load_library(Seq::<AdfTypeView>::empty(), builtin.library@)->Ok_0,
                    libraries@,
                    extension@,
                    0,
                ) == Ok::<Seq<AdfTypeView>, crate::types::AdfParseError>(spec_ctx_view(ctx))
            }),
            r matches Err(e) ==> ({
                ||| spec_load_library(Seq::<AdfTypeView>::empty(), builtin.library@) == Err::<
                    Seq<AdfTypeView>,
                    crate::types::AdfParseError,
                >(e)
                ||| (spec_load_library(Seq::<AdfTypeView>::empty(), builtin.library@) is Ok
                    && spec_load_matching(
                    spec_load_library(Seq::<AdfTypeView>::empty(), builtin.library@)->Ok_0,
                    libraries@,
                    extension@,
                    0,
                ) == Err::<Seq<AdfTypeView>, crate::types::AdfParseError>(e))
            }),
    {
        let mut ctx = AdfReflectionContext { types: Vec::new() };
        proof {
            assert(spec_ctx_view(ctx) =~= Seq::<AdfTypeView>::empty());
        }
        if let Err(e) = ctx.load_types_from_library(builtin) {
            return Err(e);
        }
        let ghost base = spec_ctx_view(ctx);
        let n = libraries.len();
        let mut i: usize = 0;
        while i < n
            invariant
                i <= n,
                n == libraries@.len(),
                base == spec_load_library(Seq::<AdfTypeView>::empty(), builtin.library@)->Ok_0,
                spec_load_library(Seq::<AdfTypeView>::empty(), builtin.library@) is Ok,
                spec_load_matching(spec_ctx_view(ctx), libraries@, extension@, i as int)
                    == spec_load_matching(base, libraries@, extension@, 0),
            decreases n - i,
        {
            let lib = &libraries[i];
            assert(*lib == libraries@[i as int]);
            if crate::bytes::bytes_eq(lib.extension.as_slice(), extension) {
                let ghost pre = spec_ctx_view(ctx);
                if let Err(e) = ctx.load_types_from_library(lib) {
                    proof {
                        assert(spec_load_matching(pre, libraries@, extension@, i as int) == Err::<
                            Seq<AdfTypeView>,
                            crate::types::AdfParseError,
                        >(e));
                    }
                    return Err(e);
                }
                proof {
                    assert(spec_load_matching(pre, libraries@, extension@, i as int)
                        == spec_load_matching(
                        spec_ctx_view(ctx),
                        libraries@,
                        extension@,
                        i + 1 as int,
                    ));
                }
            }
            i = i + 1;
        }
        Ok(ctx)
    }
}

fn clone_bytes(src: &Vec<u8>) -> (r: Vec<u8>)
    ensures
        r@ == src@,
{
    let r = crate::bytes::copy_range(src.as_slice(), 0, src.len());
    assert(r@ =~= src@);
    r
}

fn clone_type(t: &AdfType) -> (r: AdfType)
    ensures
        r@ == t@,
{
    let mut members: Vec<crate::types::AdfMember> = Vec::new();
    let nm = t.members.len();
    let mut i: usize = 0;
    while i < nm
        invariant
            i <= nm,
            nm == t.members@.len(),
            members@.map_values(|m: crate::types::AdfMember| m@) =~= t@.members.take(i as int),
        decreases nm - i,
    {
        let m = &t.members[i];
        let c = crate::types::AdfMember {
            name: clone_bytes(&m.name),
            type_hash: m.type_hash,
            alignment: m.alignment,
            offsets: m.offsets,
            value: m.value,
        };
        assert(c@ == t@.members[i as int]);
        let ghost prev = members@.map_values(|m: crate::types::AdfMember| m@);
        members.push(c);
        assert(members@.map_values(|m: crate::types::AdfMember| m@) =~= prev.push(
            t@.members[i as int],
        ));
        assert(t@.members.take(i + 1 as int) =~= t@.members.take(i as int).push(
            t@.members[i as int],
        ));
        i = i + 1;
    }
    let mut enumerations: Vec<crate::types::AdfEnum> = Vec::new();
    let ne = t.enumerations.len();
    let mut k: usize = 0;
    while k < ne
        invariant
            k <= ne,
            ne == t.enumerations@.len(),
            enumerations@.map_values(|e: crate::types::AdfEnum| e@) =~= t@.enumerations.take(
                k as int,
            ),
        decreases ne - k,
    {
        let e = &t.enumerations[k];
        let c = crate::types::AdfEnum { name: clone_bytes(&e.name), value: e.value };
        assert(c@ == t@.enumerations[k as int]);
        let ghost prev = enumerations@.map_values(|e: crate::types::AdfEnum| e@);
        enumerations.push(c);
        assert(enumerations@.map_values(|e: crate::types::AdfEnum| e@) =~= prev.push(
            t@.enumerations[k as int],
        ));
        assert(t@.enumerations.take(k + 1 as int) =~= t@.enumerations.take(k as int).push(
            t@.enumerations[k as int],
        ));
        k = k + 1;
    }
    let r = AdfType {
        primitive: t.primitive,
        size: t.size,
        alignment: t.alignment,
        type_hash: t.type_hash,
        name: clone_bytes(&t.name),
        flags: t.flags,
        scalar_type: t.scalar_type,
        element_type_hash: t.element_type_hash,
        element_length: t.element_length,
        members: members,
        enumerations: enumerations,
    };
    assert(t@.members.take(nm as int) =~= t@.members);
    assert(t@.enumerations.take(ne as int) =~= t@.enumerations);
    r
}

pub open spec fn spec_i8_of_bits(b: u8) -> i8 {
    if b < 0x80 {
        b as i8
    } else {
        (b - 0x100) as i8
    }
}

pub open spec fn spec_i16_of_bits(b: u16) -> i16 {
    if b < 0x8000 {
        b as i16
    } else {
        (b - 0x1_0000) as i16
    }
}

pub open spec fn spec_i64_of_bits(b: u64) -> i64 {
    if b < 0x8000_0000_0000_0000 {
        b as i64
    } else {
        (b - 0x1_0000_0000_0000_0000) as i64
    }
}

fn i8_of_bits(b: u8) -> (r: i8)
    ensures
        r == spec_i8_of_bits(b),
{
    if b < 0x80 {
        b as i8
    } else {
        ((b as i16) - 0x100) as i8
    }
}

fn i16_of_bits(b: u16) -> (r: i16)
    ensures
        r == spec_i16_of_bits(b),
{
    if b < 0x8000 {
        b as i16
    } else {
        ((b as i32) - 0x1_0000) as i16
    }
}

fn i64_of_bits(b: u64) -> (r: i64)
    ensures
        r == spec_i64_of_bits(b),
{
    if b < 0x8000_0000_0000_0000 {
        b as i64
    } else {
        (((b as i128) - 0x1_0000_0000_0000_0000) as i64)
    }
}

/// What a scalar of the given kind and size holds at `off`: the variant is
/// dictated by the pair, and any other pair is a fatal scalar error. The
/// caller has checked that `off + size` lies within the buffer.
pub open spec fn spec_read_scalar(
    st: AdfScalarType,
    size: u32,
    buf: Seq<u8>,
    off: int,
) -> Result<AdfReflectedScalar, AdfReflectError> {
    match st {
        AdfScalarType::Signed => {
            if size == 1 {
                Ok(AdfReflectedScalar::I8(spec_i8_of_bits(buf[off])))
            } else if size == 2 {
                Ok(AdfReflectedScalar::I16(spec_i16_of_bits(spec_u16_at(buf, off))))
            } else if size == 4 {
                Ok(AdfReflectedScalar::I32(crate::container::spec_bits_i32(spec_u32_at(buf, off))))
            } else if size == 8 {
                Ok(AdfReflectedScalar::I64(spec_i64_of_bits(spec_u64_at(buf, off))))
            } else {
                Err(AdfReflectError::InvalidScalar)
            }
        },
        AdfScalarType::Unsigned => {
            if size == 1 {
                Ok(AdfReflectedScalar::U8(buf[off]))
            } else if size == 2 {
                Ok(AdfReflectedScalar::U16(spec_u16_at(buf, off)))
            } else if size == 4 {
                Ok(AdfReflectedScalar::U32(spec_u32_at(buf, off)))
            } else if size == 8 {
                Ok(AdfReflectedScalar::U64(spec_u64_at(buf, off)))
            } else {
                Err(AdfReflectError::InvalidScalar)
            }
        },
        AdfScalarType::Float => {
            if size == 4 {
                Ok(AdfReflectedScalar::F32Bits(spec_u32_at(buf, off)))
            } else if size == 8 {
                Ok(AdfReflectedScalar::F64Bits(spec_u64_at(buf, off)))
            } else {
                Err(AdfReflectError::InvalidScalar)
            }
        },
    }
}

fn read_scalar_at(st: AdfScalarType, size: u32, buf: &[u8], off: usize) -> (r: Result<
    AdfReflectedScalar,
    AdfReflectError,
>)
    requires
        off + size <= buf@.len(),
    ensures
        r == spec_read_scalar(st, size, buf@, off as int),
{
    match st {
        AdfScalarType::Signed => {
            if size == 1 {
                Ok(AdfReflectedScalar::I8(i8_of_bits(buf[off])))
            } else if size == 2 {
                Ok(AdfReflectedScalar::I16(i16_of_bits(read_u16_at(buf, off))))
            } else if size == 4 {
                Ok(AdfReflectedScalar::I32(bits_i32_exec(read_u32_at(buf, off))))
            } else if size == 8 {
                Ok(AdfReflectedScalar::I64(i64_of_bits(read_u64_at(buf, off))))
            } else {
                Err(AdfReflectError::InvalidScalar)
            }
        },
        AdfScalarType::Unsigned => {
            if size == 1 {
                Ok(AdfReflectedScalar::U8(buf[off]))
            } else if size == 2 {
                Ok(AdfReflectedScalar::U16(read_u16_at(buf, off)))
            } else if size == 4 {
                Ok(AdfReflectedScalar::U32(read_u32_at(buf, off)))
            } else if size == 8 {
                Ok(AdfReflectedScalar::U64(read_u64_at(buf, off)))
            } else {
                Err(AdfReflectError::InvalidScalar)
            }
        },
        AdfScalarType::Float => {
            if size == 4 {
                Ok(AdfReflectedScalar::F32Bits(read_u32_at(buf, off)))
            } else if size == 8 {
                Ok(AdfReflectedScalar::F64Bits(read_u64_at(buf, off)))
            } else {
                Err(AdfReflectError::InvalidScalar)
            }
        },
    }
}

fn bits_i32_exec(b: u32) -> (r: i32)
    ensures
        r == crate::container::spec_bits_i32(b),
{
    if b < 0x8000_0000 {
        b as i32
    } else {
        ((b as i64) - 0x1_0000_0000) as i32
    }
}


/// The fuel the public entry points give the type-graph recursion; it
/// exceeds any payload a real buffer can hold.
pub const ADF_REFLECT_FUEL: u64 = 0xffff_ffff_ffff_ffff;

/// The low `w`-bit mask for the bitfield widths the engine addresses.
pub open spec fn spec_width_mask(w: u32) -> u64 {
    if w >= 64 {
        0xffff_ffff_ffff_ffff
    } else {
        ((1u64 << w) - 1) as u64
    }
}

/// The mask selecting `elen` bits starting at `shift`, within `w` bits.
pub open spec fn spec_bit_mask(elen: u32, shift: u32, w: u32) -> u64 {
    let ones = spec_width_mask(elen);
    let shifted = if shift >= 64 {
        0u64
    } else {
        ones << shift
    };
    shifted & spec_width_mask(w)
}

/// Arithmetic right shift of a `w`-bit value: the sign bit fills from above.
pub open spec fn spec_shr_arith(m: u64, shift: u32, w: u32) -> u64 {
    let u = m >> shift;
    if w >= 1 && m >= spec_width_mask((w - 1) as u32) + 1 {
        (u | ((spec_width_mask(w) - spec_width_mask((w - shift) as u32)) as u64)) & spec_width_mask(w)
    } else {
        u
    }
}

/// What a bitfield of the given kind, size, width and bit offset holds.
pub open spec fn spec_read_bitfield(
    st: AdfScalarType,
    size: u32,
    elen: u32,
    buf: Seq<u8>,
    off: int,
    shift: u32,
) -> Result<AdfReflectedScalar, AdfReflectError> {
    if st == AdfScalarType::Float {
        Err(AdfReflectError::InvalidScalar)
    } else if !(size == 1 || size == 2 || size == 4 || size == 8) {
        Err(AdfReflectError::InvalidScalar)
    } else {
        let w: u32 = (8 * size) as u32;
        if shift >= w {
            Err(AdfReflectError::BadLayout)
        } else {
            let raw: u64 = if size == 1 {
                buf[off] as u64
            } else if size == 2 {
                spec_u16_at(buf, off) as u64
            } else if size == 4 {
                spec_u32_at(buf, off) as u64
            } else {
                spec_u64_at(buf, off)
            };
            let m = raw & spec_bit_mask(elen, shift, w);
            if st == AdfScalarType::Unsigned {
                let u = m >> shift;
                if size == 1 {
                    Ok(AdfReflectedScalar::U8((u & 0xff) as u8))
                } else if size == 2 {
                    Ok(AdfReflectedScalar::U16((u & 0xffff) as u16))
                } else if size == 4 {
                    Ok(AdfReflectedScalar::U32((u & 0xffff_ffff) as u32))
                } else {
                    Ok(AdfReflectedScalar::U64(u))
                }
            } else {
                let a = spec_shr_arith(m, shift, w);
                if size == 1 {
                    Ok(AdfReflectedScalar::I8(spec_i8_of_bits((a & 0xff) as u8)))
                } else if size == 2 {
                    Ok(AdfReflectedScalar::I16(spec_i16_of_bits((a & 0xffff) as u16)))
                } else if size == 4 {
                    Ok(
                        AdfReflectedScalar::I32(
                            crate::container::spec_bits_i32((a & 0xffff_ffff) as u32),
                        ),
                    )
                } else {
                    Ok(AdfReflectedScalar::I64(spec_i64_of_bits(a)))
                }
            }
        }
    }
}

fn width_mask(w: u32) -> (r: u64)
    ensures
        r == spec_width_mask(w),
        w < 64 ==> r < 0xffff_ffff_ffff_ffff,
{
    if w >= 64 {
        0xffff_ffff_ffff_ffff
    } else {
        assert((1u64 << w) >= 1 && (1u64 << w) - 1 < 0xffff_ffff_ffff_ffff) by (bit_vector)
            requires
                w < 64,
        ;
        ((1u64 << w) - 1) as u64
    }
}

fn read_bitfield_at(
    st: AdfScalarType,
    size: u32,
    elen: u32,
    buf: &[u8],
    off: usize,
    shift: u32,
) -> (r: Result<AdfReflectedScalar, AdfReflectError>)
    requires
        off + size <= buf@.len(),
    ensures
        r == spec_read_bitfield(st, size, elen, buf@, off as int, shift),
{
    if matches!(st, AdfScalarType::Float) {
        return Err(AdfReflectError::InvalidScalar);
    }
    if !(size == 1 || size == 2 || size == 4 || size == 8) {
        return Err(AdfReflectError::InvalidScalar);
    }
    let w: u32 = 8 * size;
    if shift >= w {
        return Err(AdfReflectError::BadLayout);
    }
    let raw: u64 = if size == 1 {
        buf[off] as u64
    } else if size == 2 {
        read_u16_at(buf, off) as u64
    } else if size == 4 {
        read_u32_at(buf, off) as u64
    } else {
        read_u64_at(buf, off)
    };
    let ones = width_mask(elen);
    let shifted: u64 = if shift >= 64 {
        0
    } else {
        ones << shift
    };
    let mask = shifted & width_mask(w);
    let m = raw & mask;
    if matches!(st, AdfScalarType::Unsigned) {
        let u = m >> shift;
        if size == 1 {
            Ok(AdfReflectedScalar::U8((u & 0xff) as u8))
        } else if size == 2 {
            Ok(AdfReflectedScalar::U16((u & 0xffff) as u16))
        } else if size == 4 {
            Ok(AdfReflectedScalar::U32((u & 0xffff_ffff) as u32))
        } else {
            Ok(AdfReflectedScalar::U64(u))
        }
    } else {
        let u = m >> shift;
        let top = width_mask(w - 1);
        let mw = width_mask(w);
        let mws = width_mask(w - shift);
        assert(mw >= mws) by (bit_vector)
            requires
                mw == spec_width_mask(w),
                mws == spec_width_mask((w - shift) as u32),
                shift < w,
                w <= 64,
        ;
        let a: u64 = if m >= top + 1 {
            (u | (mw - mws)) & mw
        } else {
            u
        };
        assert(a == spec_shr_arith(m, shift, w));
        if size == 1 {
            Ok(AdfReflectedScalar::I8(i8_of_bits((a & 0xff) as u8)))
        } else if size == 2 {
            Ok(AdfReflectedScalar::I16(i16_of_bits((a & 0xffff) as u16)))
        } else if size == 4 {
            Ok(AdfReflectedScalar::I32(bits_i32_exec((a & 0xffff_ffff) as u32)))
        } else {
            Ok(AdfReflectedScalar::I64(i64_of_bits(a)))
        }
    }
}

/// Reading a value of the type with the given hash: resolve the hash, then
/// interpret the addressed slice by the type's kind.
pub open spec fn spec_read_by_hash(
    ts: Seq<AdfTypeView>,
    buf: Seq<u8>,
    h: u32,
    off: int,
    shift: u32,
    fuel: nat,
) -> Result<AdfReflectedValueView, AdfReflectError>
    decreases fuel, 0int,
{
    if fuel <= 0 {
        Err(AdfReflectError::Depth)
    } else {
        match spec_lookup_from(ts, h, 0) {
            None => Err(AdfReflectError::TypeUnknown(h)),
            Some(t) => spec_read_by_info(ts, buf, t, off, shift, (fuel - 1) as nat),
        }
    }
}

pub open spec fn spec_read_by_info(
    ts: Seq<AdfTypeView>,
    buf: Seq<u8>,
    t: AdfTypeView,
    off: int,
    shift: u32,
    fuel: nat,
) -> Result<AdfReflectedValueView, AdfReflectError>
    decreases fuel, 1int,
{
    if fuel <= 0 {
        Err(AdfReflectError::Depth)
    } else if buf.len() < t.size || buf.len() - t.size < off || off < 0 {
        Err(AdfReflectError::OutOfBounds)
    } else if t.alignment == 0 || off % (t.alignment as int) != 0 {
        Err(AdfReflectError::Misaligned)
    } else {
        match t.primitive {
            AdfPrimitive::Scalar => match spec_read_scalar(t.scalar_type, t.size, buf, off) {
                Ok(sc) => Ok(
                    AdfReflectedValueView {
                        type_hash: t.type_hash,
                        payload: AdfReflectedPrimitiveView::Scalar(sc),
                    },
                ),
                Err(e) => Err(e),
            },
            AdfPrimitive::Structure => match spec_read_members(
                ts,
                buf,
                t.members,
                off,
                0,
                (fuel - 1) as nat,
            ) {
                Ok(vs) => Ok(
                    AdfReflectedValueView {
                        type_hash: t.type_hash,
                        payload: AdfReflectedPrimitiveView::Structure(vs),
                    },
                ),
                Err(e) => Err(e),
            },
            AdfPrimitive::Pointer => {
                if t.size != 8 {
                    Err(AdfReflectError::BadLayout)
                } else {
                    match spec_lookup_from(ts, t.element_type_hash, 0) {
                        None => Err(AdfReflectError::TypeUnknown(t.element_type_hash)),
                        Some(et) => match spec_read_by_info(
                            ts,
                            buf,
                            et,
                            spec_u64_at(buf, off) as int,
                            0,
                            (fuel - 1) as nat,
                        ) {
                            Ok(inner) => Ok(
                                AdfReflectedValueView {
                                    type_hash: t.type_hash,
                                    payload: AdfReflectedPrimitiveView::Pointer(Box::new(inner)),
                                },
                            ),
                            Err(e) => Err(e),
                        },
                    }
                }
            },
            AdfPrimitive::Array => {
                if t.size < 16 {
                    Err(AdfReflectError::BadLayout)
                } else {
                    match spec_lookup_from(ts, t.element_type_hash, 0) {
                        None => Err(AdfReflectError::TypeUnknown(t.element_type_hash)),
                        Some(et) => match spec_read_elems(
                            ts,
                            buf,
                            et,
                            spec_u64_at(buf, off) as int,
                            spec_u64_at(buf, off + 8) as int,
                            (fuel - 1) as nat,
                        ) {
                            Ok(vs) => Ok(
                                AdfReflectedValueView {
                                    type_hash: t.type_hash,
                                    payload: AdfReflectedPrimitiveView::Array(vs),
                                },
                            ),
                            Err(e) => Err(e),
                        },
                    }
                }
            },
            AdfPrimitive::InlineArray => {
                match spec_lookup_from(ts, t.element_type_hash, 0) {
                    None => Err(AdfReflectError::TypeUnknown(t.element_type_hash)),
                    Some(et) => match spec_read_elems(
                        ts,
                        buf,
                        et,
                        off,
                        t.element_length as int,
                        (fuel - 1) as nat,
                    ) {
                        Ok(vs) => Ok(
                            AdfReflectedValueView {
                                type_hash: t.type_hash,
                                payload: AdfReflectedPrimitiveView::InlineArray(vs),
                            },
                        ),
                        Err(e) => Err(e),
                    },
                }
            },
            AdfPrimitive::String => {
                if t.size != 8 {
                    Err(AdfReflectError::BadLayout)
                } else {
                    let start = spec_u64_at(buf, off);
                    if start > buf.len() {
                        Err(AdfReflectError::OutOfBounds)
                    } else {
                        let e = crate::parse::spec_find_nul(buf, start as int);
                        Ok(
                            AdfReflectedValueView {
                                type_hash: t.type_hash,
                                payload: AdfReflectedPrimitiveView::StringData(
                                    buf.subrange(start as int, e),
                                ),
                            },
                        )
                    }
                }
            },
            AdfPrimitive::Bitfield => match spec_read_bitfield(
                t.scalar_type,
                t.size,
                t.element_length,
                buf,
                off,
                shift,
            ) {
                Ok(sc) => Ok(
                    AdfReflectedValueView {
                        type_hash: t.type_hash,
                        payload: AdfReflectedPrimitiveView::Bitfield(sc),
                    },
                ),
                Err(e) => Err(e),
            },
            AdfPrimitive::Enumeration => match spec_read_scalar(t.scalar_type, t.size, buf, off) {
                Ok(sc) => Ok(
                    AdfReflectedValueView {
                        type_hash: t.type_hash,
                        payload: AdfReflectedPrimitiveView::Enumeration(sc),
                    },
                ),
                Err(e) => Err(e),
            },
            AdfPrimitive::StringHash => match spec_read_scalar(t.scalar_type, t.size, buf, off) {
                Ok(sc) => Ok(
                    AdfReflectedValueView {
                        type_hash: t.type_hash,
                        payload: AdfReflectedPrimitiveView::StringHash(sc),
                    },
                ),
                Err(e) => Err(e),
            },
            AdfPrimitive::Recursive => Err(AdfReflectError::Unsupported),
            AdfPrimitive::Deferred => Err(AdfReflectError::Unsupported),
        }
    }
}

/// One structure member after another, each at its byte and bit offset.
pub open spec fn spec_read_members(
    ts: Seq<AdfTypeView>,
    buf: Seq<u8>,
    ms: Seq<crate::types::AdfMemberView>,
    base: int,
    i: int,
    fuel: nat,
) -> Result<Seq<AdfReflectedValueView>, AdfReflectError>
    decreases fuel, 2int + ms.len() - i,
{
    if i < 0 || i >= ms.len() {
        Ok(Seq::empty())
    } else {
        match spec_read_by_hash(
            ts,
            buf,
            ms[i].type_hash,
            base + ms[i].offsets.byte_offset,
            ms[i].offsets.bit_offset as u32,
            fuel,
        ) {
            Ok(v) => match spec_read_members(ts, buf, ms, base, i + 1, fuel) {
                Ok(rest) => Ok(seq![v] + rest),
                Err(e) => Err(e),
            },
            Err(e) => Err(e),
        }
    }
}

/// `count` elements of the element type, packed at element-size strides.
pub open spec fn spec_read_elems(
    ts: Seq<AdfTypeView>,
    buf: Seq<u8>,
    et: AdfTypeView,
    start: int,
    count: int,
    fuel: nat,
) -> Result<Seq<AdfReflectedValueView>, AdfReflectError>
    decreases fuel, 2int + count,
{
    if count <= 0 {
        Ok(Seq::empty())
    } else {
        match spec_read_by_info(ts, buf, et, start, 0, fuel) {
            Ok(v) => match spec_read_elems(ts, buf, et, start + et.size, count - 1, fuel) {
                Ok(rest) => Ok(seq![v] + rest),
                Err(e) => Err(e),
            },
            Err(e) => Err(e),
        }
    }
}


impl AdfReflectionContext {
    /// Read one value of the type with the given hash from the buffer. The
    /// offset is file-buffer-absolute; the bit shift addresses bitfields.
    fn read_value_by_hash(
        &self,
        buf: &[u8],
        h: u32,
        off: u128,
        shift: u32,
        fuel: u64,
    ) -> (r: Result<AdfReflectedValue, AdfReflectError>)
        ensures
            r matches Ok(v) ==> spec_read_by_hash(
                spec_ctx_view(*self),
                buf@,
                h,
                off as int,
                shift,
                fuel as nat,
            ) == Ok::<AdfReflectedValueView, AdfReflectError>(v@),
            r matches Err(e) ==> spec_read_by_hash(
                spec_ctx_view(*self),
                buf@,
                h,
                off as int,
                shift,
                fuel as nat,
            ) == Err::<AdfReflectedValueView, AdfReflectError>(e),
        decreases fuel, 0int,
    {
        if fuel == 0 {
            return Err(AdfReflectError::Depth);
        }
        let t = match self.get_type(h) {
            Some(t) => t,
            None => {
                return Err(AdfReflectError::TypeUnknown(h));
            },
        };
        self.read_value_by_info(buf, t, off, shift, fuel - 1)
    }

    /// Read one value of the given type from the buffer.
    fn read_value_by_info(
        &self,
        buf: &[u8],
        t: &AdfType,
        off: u128,
        shift: u32,
        fuel: u64,
    ) -> (r: Result<AdfReflectedValue, AdfReflectError>)
        ensures
            r matches Ok(v) ==> spec_read_by_info(
                spec_ctx_view(*self),
                buf@,
                t@,
                off as int,
                shift,
                fuel as nat,
            ) == Ok::<AdfReflectedValueView, AdfReflectError>(v@),
            r matches Err(e) ==> spec_read_by_info(
                spec_ctx_view(*self),
                buf@,
                t@,
                off as int,
                shift,
                fuel as nat,
            ) == Err::<AdfReflectedValueView, AdfReflectError>(e),
        decreases fuel, 1int,
    {
        let ghost ctxv = spec_ctx_view(*self);
        if fuel == 0 {
            return Err(AdfReflectError::Depth);
        }
        if (buf.len() as u128) < t.size as u128 || (buf.len() as u128 - t.size as u128) < off {
            return Err(AdfReflectError::OutOfBounds);
        }
        if t.alignment == 0 || off % (t.alignment as u128) != 0 {
            return Err(AdfReflectError::Misaligned);
        }
        let o = off as usize;
        match t.primitive {
            AdfPrimitive::Scalar => match read_scalar_at(t.scalar_type, t.size, buf, o) {
                Ok(sc) => Ok(AdfReflectedValue(t.type_hash, AdfReflectedPrimitive::Scalar(sc))),
                Err(e) => Err(e),
            },
            AdfPrimitive::Structure => {
                match self.read_members(buf, t, off, fuel - 1) {
                    Ok(vs) => Ok(
                        AdfReflectedValue(t.type_hash, AdfReflectedPrimitive::Structure(vs)),
                    ),
                    Err(e) => Err(e),
                }
            },
            AdfPrimitive::Pointer => {
                if t.size != 8 {
                    return Err(AdfReflectError::BadLayout);
                }
                let et = match self.get_type(t.element_type_hash) {
                    Some(et) => et,
                    None => {
                        return Err(AdfReflectError::TypeUnknown(t.element_type_hash));
                    },
                };
                let p = read_u64_at(buf, o);
                match self.read_value_by_info(buf, et, p as u128, 0, fuel - 1) {
                    Ok(inner) => Ok(
                        AdfReflectedValue(
                            t.type_hash,
                            AdfReflectedPrimitive::Pointer(Box::new(inner)),
                        ),
                    ),
                    Err(e) => Err(e),
                }
            },
            AdfPrimitive::Array => {
                if t.size < 16 {
                    return Err(AdfReflectError::BadLayout);
                }
                let et = match self.get_type(t.element_type_hash) {
                    Some(et) => et,
                    None => {
                        return Err(AdfReflectError::TypeUnknown(t.element_type_hash));
                    },
                };
                let astart = read_u64_at(buf, o);
                let acount = read_u64_at(buf, o + 8);
                match self.read_elems(buf, et, astart as u128, acount, fuel - 1) {
                    Ok(vs) => Ok(AdfReflectedValue(t.type_hash, AdfReflectedPrimitive::Array(vs))),
                    Err(e) => Err(e),
                }
            },
            AdfPrimitive::InlineArray => {
                let et = match self.get_type(t.element_type_hash) {
                    Some(et) => et,
                    None => {
                        return Err(AdfReflectError::TypeUnknown(t.element_type_hash));
                    },
                };
                match self.read_elems(buf, et, off, t.element_length as u64, fuel - 1) {
                    Ok(vs) => Ok(
                        AdfReflectedValue(t.type_hash, AdfReflectedPrimitive::InlineArray(vs)),
                    ),
                    Err(e) => Err(e),
                }
            },
            AdfPrimitive::String => {
                if t.size != 8 {
                    return Err(AdfReflectError::BadLayout);
                }
                let start = read_u64_at(buf, o);
                if start > buf.len() as u64 {
                    return Err(AdfReflectError::OutOfBounds);
                }
                let e = crate::parse::exec_find_nul(buf, start as usize);
                let data = crate::bytes::copy_range(buf, start as usize, e);
                Ok(AdfReflectedValue(t.type_hash, AdfReflectedPrimitive::StringData(data)))
            },
            AdfPrimitive::Bitfield => {
                match read_bitfield_at(t.scalar_type, t.size, t.element_length, buf, o, shift) {
                    Ok(sc) => Ok(
                        AdfReflectedValue(t.type_hash, AdfReflectedPrimitive::Bitfield(sc)),
                    ),
                    Err(e) => Err(e),
                }
            },
            AdfPrimitive::Enumeration => match read_scalar_at(t.scalar_type, t.size, buf, o) {
                Ok(sc) => Ok(
                    AdfReflectedValue(t.type_hash, AdfReflectedPrimitive::Enumeration(sc)),
                ),
                Err(e) => Err(e),
            },
            AdfPrimitive::StringHash => match read_scalar_at(t.scalar_type, t.size, buf, o) {
                Ok(sc) => Ok(
                    AdfReflectedValue(t.type_hash, AdfReflectedPrimitive::StringHash(sc)),
                ),
                Err(e) => Err(e),
            },
            AdfPrimitive::Recursive => Err(AdfReflectError::Unsupported),
            AdfPrimitive::Deferred => Err(AdfReflectError::Unsupported),
        }
    }

    /// Read every member of a structure, in declared order.
    fn read_members(&self, buf: &[u8], t: &AdfType, base: u128, fuel: u64) -> (r: Result<
        Vec<AdfReflectedValue>,
        AdfReflectError,
    >)
        requires
            base <= u64::MAX,
        ensures
            r matches Ok(vs) ==> spec_read_members(
                spec_ctx_view(*self),
                buf@,
                t@.members,
                base as int,
                0,
                fuel as nat,
            ) == Ok::<Seq<AdfReflectedValueView>, AdfReflectError>(spec_values_view(vs@)),
            r matches Err(e) ==> spec_read_members(
                spec_ctx_view(*self),
                buf@,
                t@.members,
                base as int,
                0,
                fuel as nat,
            ) == Err::<Seq<AdfReflectedValueView>, AdfReflectError>(e),
        decreases fuel, 2int,
    {
        let ghost ctxv = spec_ctx_view(*self);
        let ghost ms = t@.members;
        let n = t.members.len();
        let mut vs: Vec<AdfReflectedValue> = Vec::new();
        let mut i: usize = 0;
        while i < n
            invariant
                i <= n,
                n == t.members@.len(),
                ms == t@.members,
                ctxv == spec_ctx_view(*self),
                base <= u64::MAX,
                match spec_read_members(ctxv, buf@, ms, base as int, i as int, fuel as nat) {
                    Ok(rest) => spec_read_members(ctxv, buf@, ms, base as int, 0, fuel as nat)
                        == Ok::<Seq<AdfReflectedValueView>, AdfReflectError>(
                        spec_values_view(vs@) + rest,
                    ),
                    Err(x) => spec_read_members(ctxv, buf@, ms, base as int, 0, fuel as nat)
                        == Err::<Seq<AdfReflectedValueView>, AdfReflectError>(x),
                },
            decreases n - i,
        {
            assert(ms[i as int] == t.members@[i as int]@);
            let m = &t.members[i];
            let res = self.read_value_by_hash(
                buf,
                m.type_hash,
                base + m.offsets.byte_offset as u128,
                m.offsets.bit_offset as u32,
                fuel,
            );
            let v = match res {
                Ok(v) => v,
                Err(e) => {
                    return Err(e);
                },
            };
            let ghost v0 = spec_values_view(vs@);
            let ghost vv = v@;
            let ghost vs_before = vs@;
            vs.push(v);
            proof {
                lemma_values_view_push(vs_before, vs@.last());
                assert(vs@ =~= vs_before.push(vs@.last()));
                let cur = spec_read_members(ctxv, buf@, ms, base as int, i as int, fuel as nat);
                let nxt = spec_read_members(
                    ctxv,
                    buf@,
                    ms,
                    base as int,
                    i + 1 as int,
                    fuel as nat,
                );
                assert(spec_values_view(vs@) =~= v0.push(vv));
                if nxt is Ok {
                    let rest = nxt->Ok_0;
                    assert(v0 + (seq![vv] + rest) =~= spec_values_view(vs@) + rest);
                    assert(cur == Ok::<Seq<AdfReflectedValueView>, AdfReflectError>(
                        seq![vv] + rest,
                    ));
                } else {
                    assert(cur == Err::<Seq<AdfReflectedValueView>, AdfReflectError>(nxt->Err_0));
                }
            }
            i = i + 1;
        }
        proof {
            assert(spec_read_members(ctxv, buf@, ms, base as int, n as int, fuel as nat) == Ok::<
                Seq<AdfReflectedValueView>,
                AdfReflectError,
            >(Seq::empty()));
            assert(spec_values_view(vs@) + Seq::<AdfReflectedValueView>::empty()
                =~= spec_values_view(vs@));
        }
        Ok(vs)
    }

    /// Read `count` array elements of the element type, at element-size
    /// strides from `start`.
    fn read_elems(&self, buf: &[u8], et: &AdfType, start: u128, count: u64, fuel: u64) -> (r:
        Result<Vec<AdfReflectedValue>, AdfReflectError>)
        requires
            start <= u64::MAX,
        ensures
            r matches Ok(vs) ==> spec_read_elems(
                spec_ctx_view(*self),
                buf@,
                et@,
                start as int,
                count as int,
                fuel as nat,
            ) == Ok::<Seq<AdfReflectedValueView>, AdfReflectError>(spec_values_view(vs@)),
            r matches Err(e) ==> spec_read_elems(
                spec_ctx_view(*self),
                buf@,
                et@,
                start as int,
                count as int,
                fuel as nat,
            ) == Err::<Seq<AdfReflectedValueView>, AdfReflectError>(e),
        decreases fuel, 2int + count,
    {
        let ghost ctxv = spec_ctx_view(*self);
        let mut vs: Vec<AdfReflectedValue> = Vec::new();
        let mut pos: u128 = start;
        let mut left: u64 = count;
        while left > 0
            invariant
                ctxv == spec_ctx_view(*self),
                pos == start + (count - left) * et@.size,
                start <= u64::MAX,
                left <= count,
                match spec_read_elems(ctxv, buf@, et@, pos as int, left as int, fuel as nat) {
                    Ok(rest) => spec_read_elems(
                        ctxv,
                        buf@,
                        et@,
                        start as int,
                        count as int,
                        fuel as nat,
                    ) == Ok::<Seq<AdfReflectedValueView>, AdfReflectError>(
                        spec_values_view(vs@) + rest,
                    ),
                    Err(x) => spec_read_elems(
                        ctxv,
                        buf@,
                        et@,
                        start as int,
                        count as int,
                        fuel as nat,
                    ) == Err::<Seq<AdfReflectedValueView>, AdfReflectError>(x),
                },
            decreases left,
        {
            proof {
                assert(pos + et@.size <= u64::MAX as int + u64::MAX as int * u32::MAX as int
                    + u32::MAX as int) by (nonlinear_arith)
                    requires
                        pos == start + (count - left) * et@.size,
                        start <= u64::MAX,
                        left >= 1,
                        left <= count,
                        count <= u64::MAX,
                        et@.size <= u32::MAX,
                ;
            }
            let res = self.read_value_by_info(buf, et, pos, 0, fuel);
            let v = match res {
                Ok(v) => v,
                Err(e) => {
                    return Err(e);
                },
            };
            let ghost v0 = spec_values_view(vs@);
            let ghost vv = v@;
            let ghost vs_before = vs@;
            vs.push(v);
            proof {
                lemma_values_view_push(vs_before, vs@.last());
                assert(vs@ =~= vs_before.push(vs@.last()));
                let cur = spec_read_elems(ctxv, buf@, et@, pos as int, left as int, fuel as nat);
                let nxt = spec_read_elems(
                    ctxv,
                    buf@,
                    et@,
                    pos + et@.size,
                    left - 1 as int,
                    fuel as nat,
                );
                assert(spec_values_view(vs@) =~= v0.push(vv));
                if nxt is Ok {
                    let rest = nxt->Ok_0;
                    assert(v0 + (seq![vv] + rest) =~= spec_values_view(vs@) + rest);
                    assert(cur == Ok::<Seq<AdfReflectedValueView>, AdfReflectError>(
                        seq![vv] + rest,
                    ));
                } else {
                    assert(cur == Err::<Seq<AdfReflectedValueView>, AdfReflectError>(nxt->Err_0));
                }
            }
            proof {
                assert(pos + et@.size == start + (count - (left - 1)) * et@.size)
                    by (nonlinear_arith)
                    requires
                        pos == start + (count - left) * et@.size,
                        left >= 1,
                ;
            }
            pos = pos + et.size as u128;
            left = left - 1;
        }
        proof {
            assert(spec_read_elems(ctxv, buf@, et@, pos as int, 0, fuel as nat) == Ok::<
                Seq<AdfReflectedValueView>,
                AdfReflectError,
            >(Seq::empty()));
            assert(spec_values_view(vs@) + Seq::<AdfReflectedValueView>::empty()
                =~= spec_values_view(vs@));
        }
        Ok(vs)
    }

    /// Interpret an instance's buffer as a value of the instance's type.
    pub fn read_instance(&self, instance: &AdfInstance) -> (r: Result<
        AdfReflectedValue,
        AdfReflectError,
    >)
        ensures
            r matches Ok(v) ==> spec_read_by_hash(
                spec_ctx_view(*self),
                instance@.buffer,
                instance@.type_hash,
                0,
                0,
                ADF_REFLECT_FUEL as nat,
            ) == Ok::<AdfReflectedValueView, AdfReflectError>(v@),
            r matches Err(e) ==> spec_read_by_hash(
                spec_ctx_view(*self),
                instance@.buffer,
                instance@.type_hash,
                0,
                0,
                ADF_REFLECT_FUEL as nat,
            ) == Err::<AdfReflectedValueView, AdfReflectError>(e),
    {
        self.read_value_by_hash(
            instance.buffer.as_slice(),
            instance.type_hash,
            0,
            0,
            ADF_REFLECT_FUEL,
        )
    }
}


/// The buffer with `repl` written over its bytes at `off`.
pub open spec fn spec_splice(s: Seq<u8>, off: int, repl: Seq<u8>) -> Seq<u8> {
    s.take(off) + repl + s.skip(off + repl.len())
}

/// Writing a scalar: the type's size, alignment and kind must be the ones
/// the value's variant dictates; the value's bytes replace the slice.
pub open spec fn spec_write_scalar(
    sc: AdfReflectedScalar,
    t: AdfTypeView,
    buf: Seq<u8>,
    off: int,
) -> Result<Seq<u8>, AdfReflectError> {
    let enc: Result<Seq<u8>, AdfReflectError> = match sc {
        AdfReflectedScalar::U8(v) => if t.size == 1 && t.alignment == 1 && t.scalar_type
            == AdfScalarType::Unsigned {
            Ok(seq![v])
        } else {
            Err(AdfReflectError::InvalidScalar)
        },
        AdfReflectedScalar::I8(v) => if t.size == 1 && t.alignment == 1 && t.scalar_type
            == AdfScalarType::Signed {
            Ok(seq![spec_i8_bits(v)])
        } else {
            Err(AdfReflectError::InvalidScalar)
        },
        AdfReflectedScalar::U16(v) => if t.size == 2 && t.alignment == 2 && t.scalar_type
            == AdfScalarType::Unsigned {
            Ok(crate::bytes::spec_le16(v))
        } else {
            Err(AdfReflectError::InvalidScalar)
        },
        AdfReflectedScalar::I16(v) => if t.size == 2 && t.alignment == 2 && t.scalar_type
            == AdfScalarType::Signed {
            Ok(crate::bytes::spec_le16(spec_i16_bits(v)))
        } else {
            Err(AdfReflectError::InvalidScalar)
        },
        AdfReflectedScalar::U32(v) => if t.size == 4 && t.alignment == 4 && t.scalar_type
            == AdfScalarType::Unsigned {
            Ok(crate::bytes::spec_le32(v))
        } else {
            Err(AdfReflectError::InvalidScalar)
        },
        AdfReflectedScalar::I32(v) => if t.size == 4 && t.alignment == 4 && t.scalar_type
            == AdfScalarType::Signed {
            Ok(crate::bytes::spec_le32(crate::container::spec_i32_bits(v)))
        } else {
            Err(AdfReflectError::InvalidScalar)
        },
        AdfReflectedScalar::F32Bits(v) => if t.size == 4 && t.alignment == 4 && t.scalar_type
            == AdfScalarType::Float {
            Ok(crate::bytes::spec_le32(v))
        } else {
            Err(AdfReflectError::InvalidScalar)
        },
        AdfReflectedScalar::U64(v) => if t.size == 8 && t.alignment == 8 && t.scalar_type
            == AdfScalarType::Unsigned {
            Ok(crate::bytes::spec_le64(v))
        } else {
            Err(AdfReflectError::InvalidScalar)
        },
        AdfReflectedScalar::I64(v) => if t.size == 8 && t.alignment == 8 && t.scalar_type
            == AdfScalarType::Signed {
            Ok(crate::bytes::spec_le64(spec_i64_bits(v)))
        } else {
            Err(AdfReflectError::InvalidScalar)
        },
        AdfReflectedScalar::F64Bits(v) => if t.size == 8 && t.alignment == 8 && t.scalar_type
            == AdfScalarType::Float {
            Ok(crate::bytes::spec_le64(v))
        } else {
            Err(AdfReflectError::InvalidScalar)
        },
    };
    match enc {
        Ok(bytes) => Ok(spec_splice(buf, off, bytes)),
        Err(e) => Err(e),
    }
}

pub open spec fn spec_i8_bits(v: i8) -> u8 {
    if v >= 0 {
        v as u8
    } else {
        (v + 0x100) as u8
    }
}

pub open spec fn spec_i16_bits(v: i16) -> u16 {
    if v >= 0 {
        v as u16
    } else {
        (v + 0x1_0000) as u16
    }
}

pub open spec fn spec_i64_bits(v: i64) -> u64 {
    if v >= 0 {
        v as u64
    } else {
        (v + 0x1_0000_0000_0000_0000) as u64
    }
}

/// The bit pattern a scalar value carries, in 64 bits.
pub open spec fn spec_scalar_bits(sc: AdfReflectedScalar) -> u64 {
    match sc {
        AdfReflectedScalar::U8(v) => v as u64,
        AdfReflectedScalar::I8(v) => spec_i8_bits(v) as u64,
        AdfReflectedScalar::U16(v) => v as u64,
        AdfReflectedScalar::I16(v) => spec_i16_bits(v) as u64,
        AdfReflectedScalar::U32(v) => v as u64,
        AdfReflectedScalar::I32(v) => crate::container::spec_i32_bits(v) as u64,
        AdfReflectedScalar::F32Bits(v) => v as u64,
        AdfReflectedScalar::U64(v) => v,
        AdfReflectedScalar::I64(v) => spec_i64_bits(v),
        AdfReflectedScalar::F64Bits(v) => v,
    }
}

/// Whether a scalar variant fits a bitfield of the given kind and size.
pub open spec fn spec_bitfield_variant_ok(sc: AdfReflectedScalar, t: AdfTypeView) -> bool {
    match sc {
        AdfReflectedScalar::U8(v) => t.size == 1 && t.alignment == 1 && t.scalar_type
            == AdfScalarType::Unsigned,
        AdfReflectedScalar::I8(v) => t.size == 1 && t.alignment == 1 && t.scalar_type
            == AdfScalarType::Signed,
        AdfReflectedScalar::U16(v) => t.size == 2 && t.alignment == 2 && t.scalar_type
            == AdfScalarType::Unsigned,
        AdfReflectedScalar::I16(v) => t.size == 2 && t.alignment == 2 && t.scalar_type
            == AdfScalarType::Signed,
        AdfReflectedScalar::U32(v) => t.size == 4 && t.alignment == 4 && t.scalar_type
            == AdfScalarType::Unsigned,
        AdfReflectedScalar::I32(v) => t.size == 4 && t.alignment == 4 && t.scalar_type
            == AdfScalarType::Signed,
        AdfReflectedScalar::U64(v) => t.size == 8 && t.alignment == 8 && t.scalar_type
            == AdfScalarType::Unsigned,
        AdfReflectedScalar::I64(v) => t.size == 8 && t.alignment == 8 && t.scalar_type
            == AdfScalarType::Signed,
        _ => false,
    }
}

/// Writing a bitfield: the selected bits are or-ed into the addressed
/// scalar, leaving the other bits as they are.
pub open spec fn spec_write_bitfield(
    sc: AdfReflectedScalar,
    t: AdfTypeView,
    buf: Seq<u8>,
    off: int,
    shift: u32,
) -> Result<Seq<u8>, AdfReflectError> {
    if !spec_bitfield_variant_ok(sc, t) {
        Err(AdfReflectError::InvalidScalar)
    } else {
        let w: u32 = (8 * t.size) as u32;
        if shift >= w {
            Err(AdfReflectError::BadLayout)
        } else {
            let raw: u64 = if t.size == 1 {
                buf[off] as u64
            } else if t.size == 2 {
                spec_u16_at(buf, off) as u64
            } else if t.size == 4 {
                spec_u32_at(buf, off) as u64
            } else {
                spec_u64_at(buf, off)
            };
            let field = (spec_scalar_bits(sc) & spec_width_mask(t.element_length)) << shift;
            let merged = (raw | field) & spec_width_mask(w);
            let bytes: Seq<u8> = if t.size == 1 {
                seq![(merged & 0xff) as u8]
            } else if t.size == 2 {
                crate::bytes::spec_le16((merged & 0xffff) as u16)
            } else if t.size == 4 {
                crate::bytes::spec_le32((merged & 0xffff_ffff) as u32)
            } else {
                crate::bytes::spec_le64(merged)
            };
            Ok(spec_splice(buf, off, bytes))
        }
    }
}

/// Writing a value of the type with the given hash: resolve, then pack by
/// the type's kind.
pub open spec fn spec_write_by_hash(
    ts: Seq<AdfTypeView>,
    prim: AdfReflectedPrimitive,
    h: u32,
    buf: Seq<u8>,
    off: int,
    shift: u32,
    fuel: nat,
) -> Result<Seq<u8>, AdfReflectError>
    decreases fuel, 0int,
{
    if fuel <= 0 {
        Err(AdfReflectError::Depth)
    } else {
        match spec_lookup_from(ts, h, 0) {
            None => Err(AdfReflectError::TypeUnknown(h)),
            Some(t) => spec_write_by_info(ts, prim, t, buf, off, shift, (fuel - 1) as nat),
        }
    }
}

/// Writing a value into the slice the type addresses; indirect kinds append
/// their payload at the buffer's aligned end and record its offset.
pub open spec fn spec_write_by_info(
    ts: Seq<AdfTypeView>,
    prim: AdfReflectedPrimitive,
    t: AdfTypeView,
    buf: Seq<u8>,
    off: int,
    shift: u32,
    fuel: nat,
) -> Result<Seq<u8>, AdfReflectError>
    decreases fuel, 1int,
{
    if fuel <= 0 {
        Err(AdfReflectError::Depth)
    } else if buf.len() < t.size || buf.len() - t.size < off || off < 0 {
        Err(AdfReflectError::OutOfBounds)
    } else if t.alignment == 0 || off % (t.alignment as int) != 0 {
        Err(AdfReflectError::Misaligned)
    } else {
        match prim {
            AdfReflectedPrimitive::Scalar(sc) => {
                if t.primitive != AdfPrimitive::Scalar {
                    Err(AdfReflectError::TypeMismatch(t.type_hash))
                } else {
                    spec_write_scalar(sc, t, buf, off)
                }
            },
            AdfReflectedPrimitive::Structure(vs) => {
                if t.primitive != AdfPrimitive::Structure {
                    Err(AdfReflectError::TypeMismatch(t.type_hash))
                } else if vs@.len() != t.members.len() {
                    Err(AdfReflectError::CountMismatch)
                } else {
                    spec_write_members(ts, vs@, t.members, buf, off, 0, (fuel - 1) as nat)
                }
            },
            AdfReflectedPrimitive::Pointer(b) => {
                if t.primitive != AdfPrimitive::Pointer {
                    Err(AdfReflectError::TypeMismatch(t.type_hash))
                } else if t.element_type_hash != b.0 {
                    Err(AdfReflectError::TypeMismatch(b.0))
                } else if t.size < 8 {
                    Err(AdfReflectError::BadLayout)
                } else {
                    match spec_lookup_from(ts, t.element_type_hash, 0) {
                        None => Err(AdfReflectError::TypeUnknown(t.element_type_hash)),
                        Some(et) => {
                            if et.alignment == 0 {
                                Err(AdfReflectError::Misaligned)
                            } else {
                                let aligned = crate::bytes::spec_align_up(
                                    buf.len() as int,
                                    et.alignment as int,
                                );
                                if aligned > u64::MAX || aligned + et.size > usize::MAX {
                                    Err(AdfReflectError::BadLayout)
                                } else {
                                    let buf1 = spec_splice(
                                        buf,
                                        off,
                                        crate::bytes::spec_le64(aligned as u64),
                                    );
                                    let buf2 = buf1 + crate::bytes::spec_zeros(
                                        aligned + et.size - buf.len(),
                                    );
                                    spec_write_by_info(
                                        ts,
                                        b.1,
                                        et,
                                        buf2,
                                        aligned,
                                        0,
                                        (fuel - 1) as nat,
                                    )
                                }
                            }
                        },
                    }
                }
            },
            AdfReflectedPrimitive::Array(vs) => {
                if t.primitive != AdfPrimitive::Array {
                    Err(AdfReflectError::TypeMismatch(t.type_hash))
                } else if t.size < 16 {
                    Err(AdfReflectError::BadLayout)
                } else {
                    match spec_lookup_from(ts, t.element_type_hash, 0) {
                        None => Err(AdfReflectError::TypeUnknown(t.element_type_hash)),
                        Some(et) => {
                            if et.alignment == 0 {
                                Err(AdfReflectError::Misaligned)
                            } else {
                                let aligned = crate::bytes::spec_align_up(
                                    buf.len() as int,
                                    et.alignment as int,
                                );
                                if aligned > u64::MAX || aligned + et.size * vs@.len()
                                    > usize::MAX {
                                    Err(AdfReflectError::BadLayout)
                                } else {
                                    let buf1 = spec_splice(
                                        buf,
                                        off,
                                        crate::bytes::spec_le64(aligned as u64),
                                    );
                                    let buf2 = spec_splice(
                                        buf1,
                                        off + 8,
                                        crate::bytes::spec_le64(vs@.len() as u64),
                                    );
                                    let buf3 = buf2 + crate::bytes::spec_zeros(
                                        aligned + et.size * vs@.len() - buf.len(),
                                    );
                                    spec_write_elems(
                                        ts,
                                        vs@,
                                        et,
                                        buf3,
                                        aligned,
                                        0,
                                        (fuel - 1) as nat,
                                    )
                                }
                            }
                        },
                    }
                }
            },
            AdfReflectedPrimitive::InlineArray(vs) => {
                if t.primitive != AdfPrimitive::InlineArray {
                    Err(AdfReflectError::TypeMismatch(t.type_hash))
                } else if vs@.len() != t.element_length {
                    Err(AdfReflectError::CountMismatch)
                } else {
                    match spec_lookup_from(ts, t.element_type_hash, 0) {
                        None => Err(AdfReflectError::TypeUnknown(t.element_type_hash)),
                        Some(et) => spec_write_elems(
                            ts,
                            vs@,
                            et,
                            buf,
                            off,
                            0,
                            (fuel - 1) as nat,
                        ),
                    }
                }
            },
            AdfReflectedPrimitive::StringData(bs) => {
                if t.primitive != AdfPrimitive::String {
                    Err(AdfReflectError::TypeMismatch(t.type_hash))
                } else if t.size != 8 {
                    Err(AdfReflectError::BadLayout)
                } else if buf.len() + bs@.len() + 1 > usize::MAX {
                    Err(AdfReflectError::BadLayout)
                } else {
                    let buf1 = spec_splice(buf, off, crate::bytes::spec_le64(buf.len() as u64));
                    Ok(buf1 + bs@ + seq![0u8])
                }
            },
            AdfReflectedPrimitive::Bitfield(sc) => {
                if t.primitive != AdfPrimitive::Bitfield {
                    Err(AdfReflectError::TypeMismatch(t.type_hash))
                } else {
                    spec_write_bitfield(sc, t, buf, off, shift)
                }
            },
            AdfReflectedPrimitive::Enumeration(sc) => {
                if t.primitive != AdfPrimitive::Enumeration {
                    Err(AdfReflectError::TypeMismatch(t.type_hash))
                } else {
                    spec_write_scalar(sc, t, buf, off)
                }
            },
            AdfReflectedPrimitive::StringHash(sc) => {
                if t.primitive != AdfPrimitive::StringHash {
                    Err(AdfReflectError::TypeMismatch(t.type_hash))
                } else {
                    spec_write_scalar(sc, t, buf, off)
                }
            },
            AdfReflectedPrimitive::Deferred(b) => {
                if t.primitive != AdfPrimitive::Deferred {
                    Err(AdfReflectError::TypeMismatch(t.type_hash))
                } else {
                    Err(AdfReflectError::Unsupported)
                }
            },
        }
    }
}

/// Each member value written at its byte and bit offset, in declared order.
pub open spec fn spec_write_members(
    ts: Seq<AdfTypeView>,
    vs: Seq<AdfReflectedValue>,
    ms: Seq<crate::types::AdfMemberView>,
    buf: Seq<u8>,
    base: int,
    i: int,
    fuel: nat,
) -> Result<Seq<u8>, AdfReflectError>
    decreases fuel, 2int + ms.len() - i,
{
    if i < 0 || i >= ms.len() || i >= vs.len() {
        Ok(buf)
    } else if vs[i].0 != ms[i].type_hash {
        Err(AdfReflectError::TypeMismatch(vs[i].0))
    } else {
        match spec_write_by_hash(
            ts,
            vs[i].1,
            ms[i].type_hash,
            buf,
            base + ms[i].offsets.byte_offset,
            ms[i].offsets.bit_offset as u32,
            fuel,
        ) {
            Ok(buf1) => spec_write_members(ts, vs, ms, buf1, base, i + 1, fuel),
            Err(e) => Err(e),
        }
    }
}

/// Each array element written at its element-size stride.
pub open spec fn spec_write_elems(
    ts: Seq<AdfTypeView>,
    vs: Seq<AdfReflectedValue>,
    et: AdfTypeView,
    buf: Seq<u8>,
    start: int,
    i: int,
    fuel: nat,
) -> Result<Seq<u8>, AdfReflectError>
    decreases fuel, 2int + vs.len() - i,
{
    if i < 0 || i >= vs.len() {
        Ok(buf)
    } else if vs[i].0 != et.type_hash {
        Err(AdfReflectError::TypeMismatch(vs[i].0))
    } else {
        match spec_write_by_info(ts, vs[i].1, et, buf, start + i * et.size, 0, fuel) {
            Ok(buf1) => spec_write_elems(ts, vs, et, buf1, start, i + 1, fuel),
            Err(e) => Err(e),
        }
    }
}


/// Write `src` over the bytes of `buf` at `off`.
pub fn write_at_pub(buf: &mut Vec<u8>, off: usize, src: &[u8])
    requires
        off + src@.len() <= old(buf)@.len(),
    ensures
        final(buf)@ == spec_splice(old(buf)@, off as int, src@),
{
    let n = src.len();
    let bl = buf.len();
    let mut k: usize = 0;
    while k < n
        invariant
            k <= n,
            n == src@.len(),
            off + n <= buf@.len(),
            bl == buf@.len(),
            buf@.len() == old(buf)@.len(),
            buf@ =~= old(buf)@.take(off as int) + src@.take(k as int) + old(buf)@.skip(
                off + k as int,
            ),
        decreases n - k,
    {
        buf.set(off + k, src[k]);
        assert(buf@ =~= old(buf)@.take(off as int) + src@.take(k + 1 as int) + old(buf)@.skip(
            off + k + 1 as int,
        ));
        k = k + 1;
    }
    assert(src@.take(n as int) =~= src@);
}

fn i8_bits(v: i8) -> (r: u8)
    ensures
        r == spec_i8_bits(v),
{
    if v >= 0 {
        v as u8
    } else {
        ((v as i16) + 0x100) as u8
    }
}

fn i16_bits(v: i16) -> (r: u16)
    ensures
        r == spec_i16_bits(v),
{
    if v >= 0 {
        v as u16
    } else {
        ((v as i32) + 0x1_0000) as u16
    }
}

fn i64_bits(v: i64) -> (r: u64)
    ensures
        r == spec_i64_bits(v),
{
    if v >= 0 {
        v as u64
    } else {
        (((v as i128) + 0x1_0000_0000_0000_0000) as u64)
    }
}

fn i32_bits_exec(v: i32) -> (r: u32)
    ensures
        r == crate::container::spec_i32_bits(v),
{
    if v >= 0 {
        v as u32
    } else {
        ((v as i64) + 0x1_0000_0000) as u32
    }
}

fn scalar_bits(sc: &AdfReflectedScalar) -> (r: u64)
    ensures
        r == spec_scalar_bits(*sc),
{
    match sc {
        AdfReflectedScalar::U8(v) => *v as u64,
        AdfReflectedScalar::I8(v) => i8_bits(*v) as u64,
        AdfReflectedScalar::U16(v) => *v as u64,
        AdfReflectedScalar::I16(v) => i16_bits(*v) as u64,
        AdfReflectedScalar::U32(v) => *v as u64,
        AdfReflectedScalar::I32(v) => i32_bits_exec(*v) as u64,
        AdfReflectedScalar::F32Bits(v) => *v as u64,
        AdfReflectedScalar::U64(v) => *v,
        AdfReflectedScalar::I64(v) => i64_bits(*v),
        AdfReflectedScalar::F64Bits(v) => *v,
    }
}

/// Write a scalar value into the slice its type addresses.
fn write_scalar_at(sc: &AdfReflectedScalar, t: &AdfType, buf: &mut Vec<u8>, off: usize) -> (r:
    Result<(), AdfReflectError>)
    requires
        off + t@.size <= old(buf)@.len(),
    ensures
        r matches Ok(u) ==> spec_write_scalar(*sc, t@, old(buf)@, off as int) == Ok::<
            Seq<u8>,
            AdfReflectError,
        >(final(buf)@),
        r matches Err(e) ==> spec_write_scalar(*sc, t@, old(buf)@, off as int) == Err::<
            Seq<u8>,
            AdfReflectError,
        >(e) && final(buf)@ == old(buf)@,
{
    let mut tmp: Vec<u8> = Vec::new();
    match sc {
        AdfReflectedScalar::U8(v) => {
            if !(t.size == 1 && t.alignment == 1 && matches!(t.scalar_type, AdfScalarType::Unsigned)) {
                return Err(AdfReflectError::InvalidScalar);
            }
            tmp.push(*v);
        },
        AdfReflectedScalar::I8(v) => {
            if !(t.size == 1 && t.alignment == 1 && matches!(t.scalar_type, AdfScalarType::Signed)) {
                return Err(AdfReflectError::InvalidScalar);
            }
            tmp.push(i8_bits(*v));
        },
        AdfReflectedScalar::U16(v) => {
            if !(t.size == 2 && t.alignment == 2 && matches!(t.scalar_type, AdfScalarType::Unsigned)) {
                return Err(AdfReflectError::InvalidScalar);
            }
            crate::bytes::push_le16(&mut tmp, *v);
        },
        AdfReflectedScalar::I16(v) => {
            if !(t.size == 2 && t.alignment == 2 && matches!(t.scalar_type, AdfScalarType::Signed)) {
                return Err(AdfReflectError::InvalidScalar);
            }
            crate::bytes::push_le16(&mut tmp, i16_bits(*v));
        },
        AdfReflectedScalar::U32(v) => {
            if !(t.size == 4 && t.alignment == 4 && matches!(t.scalar_type, AdfScalarType::Unsigned)) {
                return Err(AdfReflectError::InvalidScalar);
            }
            crate::bytes::push_le32(&mut tmp, *v);
        },
        AdfReflectedScalar::I32(v) => {
            if !(t.size == 4 && t.alignment == 4 && matches!(t.scalar_type, AdfScalarType::Signed)) {
                return Err(AdfReflectError::InvalidScalar);
            }
            crate::bytes::push_le32(&mut tmp, i32_bits_exec(*v));
        },
        AdfReflectedScalar::F32Bits(v) => {
            if !(t.size == 4 && t.alignment == 4 && matches!(t.scalar_type, AdfScalarType::Float)) {
                return Err(AdfReflectError::InvalidScalar);
            }
            crate::bytes::push_le32(&mut tmp, *v);
        },
        AdfReflectedScalar::U64(v) => {
            if !(t.size == 8 && t.alignment == 8 && matches!(t.scalar_type, AdfScalarType::Unsigned)) {
                return Err(AdfReflectError::InvalidScalar);
            }
            crate::bytes::push_le64(&mut tmp, *v);
        },
        AdfReflectedScalar::I64(v) => {
            if !(t.size == 8 && t.alignment == 8 && matches!(t.scalar_type, AdfScalarType::Signed)) {
                return Err(AdfReflectError::InvalidScalar);
            }
            crate::bytes::push_le64(&mut tmp, i64_bits(*v));
        },
        AdfReflectedScalar::F64Bits(v) => {
            if !(t.size == 8 && t.alignment == 8 && matches!(t.scalar_type, AdfScalarType::Float)) {
                return Err(AdfReflectError::InvalidScalar);
            }
            crate::bytes::push_le64(&mut tmp, *v);
        },
    }
    assert(tmp@.len() == t@.size);
    write_at_pub(buf, off, tmp.as_slice());
    Ok(())
}

/// Or the selected bits of a bitfield value into the addressed scalar.
fn write_bitfield_at(
    sc: &AdfReflectedScalar,
    t: &AdfType,
    buf: &mut Vec<u8>,
    off: usize,
    shift: u32,
) -> (r: Result<(), AdfReflectError>)
    requires
        off + t@.size <= old(buf)@.len(),
    ensures
        r matches Ok(u) ==> spec_write_bitfield(*sc, t@, old(buf)@, off as int, shift) == Ok::<
            Seq<u8>,
            AdfReflectError,
        >(final(buf)@),
        r matches Err(e) ==> spec_write_bitfield(*sc, t@, old(buf)@, off as int, shift) == Err::<
            Seq<u8>,
            AdfReflectError,
        >(e) && final(buf)@ == old(buf)@,
{
    let variant_ok: bool = match sc {
        AdfReflectedScalar::U8(_) => t.size == 1 && t.alignment == 1 && matches!(
            t.scalar_type,
            AdfScalarType::Unsigned,
        ),
        AdfReflectedScalar::I8(_) => t.size == 1 && t.alignment == 1 && matches!(
            t.scalar_type,
            AdfScalarType::Signed,
        ),
        AdfReflectedScalar::U16(_) => t.size == 2 && t.alignment == 2 && matches!(
            t.scalar_type,
            AdfScalarType::Unsigned,
        ),
        AdfReflectedScalar::I16(_) => t.size == 2 && t.alignment == 2 && matches!(
            t.scalar_type,
            AdfScalarType::Signed,
        ),
        AdfReflectedScalar::U32(_) => t.size == 4 && t.alignment == 4 && matches!(
            t.scalar_type,
            AdfScalarType::Unsigned,
        ),
        AdfReflectedScalar::I32(_) => t.size == 4 && t.alignment == 4 && matches!(
            t.scalar_type,
            AdfScalarType::Signed,
        ),
        AdfReflectedScalar::U64(_) => t.size == 8 && t.alignment == 8 && matches!(
            t.scalar_type,
            AdfScalarType::Unsigned,
        ),
        AdfReflectedScalar::I64(_) => t.size == 8 && t.alignment == 8 && matches!(
            t.scalar_type,
            AdfScalarType::Signed,
        ),
        _ => false,
    };
    if !variant_ok {
        return Err(AdfReflectError::InvalidScalar);
    }
    let w: u32 = 8 * t.size;
    if shift >= w {
        return Err(AdfReflectError::BadLayout);
    }
    let raw: u64 = if t.size == 1 {
        buf[off] as u64
    } else if t.size == 2 {
        read_u16_at(buf.as_slice(), off) as u64
    } else if t.size == 4 {
        read_u32_at(buf.as_slice(), off) as u64
    } else {
        read_u64_at(buf.as_slice(), off)
    };
    let field = (scalar_bits(sc) & width_mask(t.element_length)) << shift;
    let merged = (raw | field) & width_mask(w);
    let mut tmp: Vec<u8> = Vec::new();
    if t.size == 1 {
        tmp.push((merged & 0xff) as u8);
    } else if t.size == 2 {
        crate::bytes::push_le16(&mut tmp, (merged & 0xffff) as u16);
    } else if t.size == 4 {
        crate::bytes::push_le32(&mut tmp, (merged & 0xffff_ffff) as u32);
    } else {
        crate::bytes::push_le64(&mut tmp, merged);
    }
    assert(tmp@.len() == t@.size);
    write_at_pub(buf, off, tmp.as_slice());
    Ok(())
}

fn align_up_u128(p: u128, a: u128) -> (r: u128)
    requires
        1 <= a,
        p + a <= u128::MAX,
    ensures
        r == crate::bytes::spec_align_up(p as int, a as int),
{
    let rem = p % a;
    let aligned = if rem == 0 {
        p
    } else {
        p + (a - rem)
    };
    assert(aligned == crate::bytes::spec_align_up(p as int, a as int)) by (nonlinear_arith)
        requires
            1 <= a,
            p + a <= u128::MAX,
            aligned == if p % a == 0 {
                p as int
            } else {
                p + (a - p % a)
            },
    ;
    aligned
}


impl AdfReflectionContext {
    /// Write one value as the type with the given hash.
    #[verifier::rlimit(100)]
    fn write_value_by_hash(
        &self,
        prim: &AdfReflectedPrimitive,
        h: u32,
        buf: &mut Vec<u8>,
        off: u128,
        shift: u32,
        fuel: u64,
    ) -> (r: Result<(), AdfReflectError>)
        ensures
            r matches Ok(u) ==> spec_write_by_hash(
                spec_ctx_view(*self),
                *prim,
                h,
                old(buf)@,
                off as int,
                shift,
                fuel as nat,
            ) == Ok::<Seq<u8>, AdfReflectError>(final(buf)@),
            r matches Err(e) ==> spec_write_by_hash(
                spec_ctx_view(*self),
                *prim,
                h,
                old(buf)@,
                off as int,
                shift,
                fuel as nat,
            ) == Err::<Seq<u8>, AdfReflectError>(e),
        decreases fuel, 0int,
    {
        if fuel == 0 {
            return Err(AdfReflectError::Depth);
        }
        let t = match self.get_type(h) {
            Some(t) => t,
            None => {
                return Err(AdfReflectError::TypeUnknown(h));
            },
        };
        self.write_value_by_info(prim, t, buf, off, shift, fuel - 1)
    }

    /// Write one value as the given type: scalars, bitfields and structure
    /// members go to the slice the type addresses; pointers, arrays and
    /// strings append their payload at the buffer's end and record its
    /// offset in the slice.
    #[verifier::rlimit(100)]
    fn write_value_by_info(
        &self,
        prim: &AdfReflectedPrimitive,
        t: &AdfType,
        buf: &mut Vec<u8>,
        off: u128,
        shift: u32,
        fuel: u64,
    ) -> (r: Result<(), AdfReflectError>)
        ensures
            r matches Ok(u) ==> spec_write_by_info(
                spec_ctx_view(*self),
                *prim,
                t@,
                old(buf)@,
                off as int,
                shift,
                fuel as nat,
            ) == Ok::<Seq<u8>, AdfReflectError>(final(buf)@),
            r matches Err(e) ==> spec_write_by_info(
                spec_ctx_view(*self),
                *prim,
                t@,
                old(buf)@,
                off as int,
                shift,
                fuel as nat,
            ) == Err::<Seq<u8>, AdfReflectError>(e),
        decreases fuel, 1int,
    {
        let ghost ctxv = spec_ctx_view(*self);
        if fuel == 0 {
            return Err(AdfReflectError::Depth);
        }
        if (buf.len() as u128) < t.size as u128 || (buf.len() as u128 - t.size as u128) < off {
            return Err(AdfReflectError::OutOfBounds);
        }
        if t.alignment == 0 || off % (t.alignment as u128) != 0 {
            return Err(AdfReflectError::Misaligned);
        }
        let o = off as usize;
        match prim {
            AdfReflectedPrimitive::Scalar(sc) => {
                if !matches!(t.primitive, AdfPrimitive::Scalar) {
                    return Err(AdfReflectError::TypeMismatch(t.type_hash));
                }
                write_scalar_at(sc, t, buf, o)
            },
            AdfReflectedPrimitive::Structure(vs) => {
                if !matches!(t.primitive, AdfPrimitive::Structure) {
                    return Err(AdfReflectError::TypeMismatch(t.type_hash));
                }
                if vs.len() as u64 != t.members.len() as u64 {
                    return Err(AdfReflectError::CountMismatch);
                }
                self.write_members(vs, t, buf, off, fuel - 1)
            },
            AdfReflectedPrimitive::Pointer(b) => {
                if !matches!(t.primitive, AdfPrimitive::Pointer) {
                    return Err(AdfReflectError::TypeMismatch(t.type_hash));
                }
                if t.element_type_hash != b.0 {
                    return Err(AdfReflectError::TypeMismatch(b.0));
                }
                if t.size < 8 {
                    return Err(AdfReflectError::BadLayout);
                }
                let et = match self.get_type(t.element_type_hash) {
                    Some(et) => et,
                    None => {
                        return Err(AdfReflectError::TypeUnknown(t.element_type_hash));
                    },
                };
                if et.alignment == 0 {
                    return Err(AdfReflectError::Misaligned);
                }
                let aligned = align_up_u128(buf.len() as u128, et.alignment as u128);
                if aligned > u64::MAX as u128 || aligned + et.size as u128 > usize::MAX as u128 {
                    return Err(AdfReflectError::BadLayout);
                }
                proof {
                    crate::bytes::lemma_align_up(buf@.len() as int, et@.alignment as int);
                }
                let mut tmp: Vec<u8> = Vec::new();
                crate::bytes::push_le64(&mut tmp, aligned as u64);
                assert(tmp@ =~= crate::bytes::spec_le64(aligned as u64));
                write_at_pub(buf, o, tmp.as_slice());
                let grow = (aligned as usize + et.size as usize) - buf.len();
                crate::bytes::push_zeros(buf, grow);
                assert(buf@ =~= spec_splice(
                    old(buf)@,
                    off as int,
                    crate::bytes::spec_le64(aligned as u64),
                ) + crate::bytes::spec_zeros(aligned + et@.size - old(buf)@.len()));
                self.write_value_by_info(&b.1, et, buf, aligned, 0, fuel - 1)
            },
            AdfReflectedPrimitive::Array(vs) => {
                if !matches!(t.primitive, AdfPrimitive::Array) {
                    return Err(AdfReflectError::TypeMismatch(t.type_hash));
                }
                if t.size < 16 {
                    return Err(AdfReflectError::BadLayout);
                }
                let et = match self.get_type(t.element_type_hash) {
                    Some(et) => et,
                    None => {
                        return Err(AdfReflectError::TypeUnknown(t.element_type_hash));
                    },
                };
                if et.alignment == 0 {
                    return Err(AdfReflectError::Misaligned);
                }
                let aligned = align_up_u128(buf.len() as u128, et.alignment as u128);
                let vn = vs.len();
                proof {
                    crate::bytes::lemma_align_up(buf@.len() as int, et@.alignment as int);
                    assert((et@.size as int) * (vn as int) <= u32::MAX as int * usize::MAX as int)
                        by (nonlinear_arith)
                        requires
                            et@.size <= u32::MAX,
                            vn <= usize::MAX,
                    ;
                }
                if aligned > u64::MAX as u128 || aligned + (et.size as u128) * (vs.len() as u128)
                    > usize::MAX as u128 {
                    return Err(AdfReflectError::BadLayout);
                }
                let mut tmp: Vec<u8> = Vec::new();
                crate::bytes::push_le64(&mut tmp, aligned as u64);
                assert(tmp@ =~= crate::bytes::spec_le64(aligned as u64));
                write_at_pub(buf, o, tmp.as_slice());
                let mut tmp2: Vec<u8> = Vec::new();
                crate::bytes::push_le64(&mut tmp2, vn as u64);
                assert(tmp2@ =~= crate::bytes::spec_le64(vs@.len() as u64));
                write_at_pub(buf, o + 8, tmp2.as_slice());
                let grow = ((aligned + (et.size as u128) * (vn as u128)) as usize) - buf.len();
                crate::bytes::push_zeros(buf, grow);
                assert(buf@ =~= spec_splice(
                    spec_splice(old(buf)@, off as int, crate::bytes::spec_le64(aligned as u64)),
                    off + 8,
                    crate::bytes::spec_le64(vs@.len() as u64),
                ) + crate::bytes::spec_zeros(
                    aligned + et@.size * vs@.len() - old(buf)@.len(),
                ));
                self.write_elems(vs, et, buf, aligned, fuel - 1)
            },
            AdfReflectedPrimitive::InlineArray(vs) => {
                if !matches!(t.primitive, AdfPrimitive::InlineArray) {
                    return Err(AdfReflectError::TypeMismatch(t.type_hash));
                }
                if vs.len() as u64 != t.element_length as u64 {
                    return Err(AdfReflectError::CountMismatch);
                }
                let et = match self.get_type(t.element_type_hash) {
                    Some(et) => et,
                    None => {
                        return Err(AdfReflectError::TypeUnknown(t.element_type_hash));
                    },
                };
                self.write_elems(vs, et, buf, off, fuel - 1)
            },
            AdfReflectedPrimitive::StringData(bs) => {
                if !matches!(t.primitive, AdfPrimitive::String) {
                    return Err(AdfReflectError::TypeMismatch(t.type_hash));
                }
                if t.size != 8 {
                    return Err(AdfReflectError::BadLayout);
                }
                if (buf.len() as u128) + (bs.len() as u128) + 1 > usize::MAX as u128 {
                    return Err(AdfReflectError::BadLayout);
                }
                let mut tmp: Vec<u8> = Vec::new();
                crate::bytes::push_le64(&mut tmp, buf.len() as u64);
                assert(tmp@ =~= crate::bytes::spec_le64(old(buf)@.len() as u64));
                write_at_pub(buf, o, tmp.as_slice());
                crate::bytes::push_bytes(buf, bs.as_slice());
                buf.push(0);
                assert(buf@ =~= spec_splice(
                    old(buf)@,
                    off as int,
                    crate::bytes::spec_le64(old(buf)@.len() as u64),
                ) + bs@ + seq![0u8]);
                Ok(())
            },
            AdfReflectedPrimitive::Bitfield(sc) => {
                if !matches!(t.primitive, AdfPrimitive::Bitfield) {
                    return Err(AdfReflectError::TypeMismatch(t.type_hash));
                }
                write_bitfield_at(sc, t, buf, o, shift)
            },
            AdfReflectedPrimitive::Enumeration(sc) => {
                if !matches!(t.primitive, AdfPrimitive::Enumeration) {
                    return Err(AdfReflectError::TypeMismatch(t.type_hash));
                }
                write_scalar_at(sc, t, buf, o)
            },
            AdfReflectedPrimitive::StringHash(sc) => {
                if !matches!(t.primitive, AdfPrimitive::StringHash) {
                    return Err(AdfReflectError::TypeMismatch(t.type_hash));
                }
                write_scalar_at(sc, t, buf, o)
            },
            AdfReflectedPrimitive::Deferred(b) => {
                if !matches!(t.primitive, AdfPrimitive::Deferred) {
                    return Err(AdfReflectError::TypeMismatch(t.type_hash));
                }
                Err(AdfReflectError::Unsupported)
            },
        }
    }

    /// Write every member value at its byte and bit offset.
    fn write_members(
        &self,
        vs: &Vec<AdfReflectedValue>,
        t: &AdfType,
        buf: &mut Vec<u8>,
        base: u128,
        fuel: u64,
    ) -> (r: Result<(), AdfReflectError>)
        requires
            base <= u64::MAX,
        ensures
            r matches Ok(u) ==> spec_write_members(
                spec_ctx_view(*self),
                vs@,
                t@.members,
                old(buf)@,
                base as int,
                0,
                fuel as nat,
            ) == Ok::<Seq<u8>, AdfReflectError>(final(buf)@),
            r matches Err(e) ==> spec_write_members(
                spec_ctx_view(*self),
                vs@,
                t@.members,
                old(buf)@,
                base as int,
                0,
                fuel as nat,
            ) == Err::<Seq<u8>, AdfReflectError>(e),
        decreases fuel, 2int,
    {
        let ghost ctxv = spec_ctx_view(*self);
        let ghost ms = t@.members;
        let n = if vs.len() < t.members.len() {
            vs.len()
        } else {
            t.members.len()
        };
        let mut i: usize = 0;
        while i < n
            invariant
                i <= n,
                n == if vs@.len() < t.members@.len() {
                    vs@.len() as int
                } else {
                    t.members@.len() as int
                },
                ms == t@.members,
                ctxv == spec_ctx_view(*self),
                base <= u64::MAX,
                match spec_write_members(ctxv, vs@, ms, buf@, base as int, i as int, fuel as nat) {
                    Ok(b) => spec_write_members(
                        ctxv,
                        vs@,
                        ms,
                        old(buf)@,
                        base as int,
                        0,
                        fuel as nat,
                    ) == Ok::<Seq<u8>, AdfReflectError>(b),
                    Err(x) => spec_write_members(
                        ctxv,
                        vs@,
                        ms,
                        old(buf)@,
                        base as int,
                        0,
                        fuel as nat,
                    ) == Err::<Seq<u8>, AdfReflectError>(x),
                },
            decreases n - i,
        {
            assert(ms[i as int] == t.members@[i as int]@);
            let m = &t.members[i];
            let v = &vs[i];
            assert(v == vs@[i as int]);
            if v.0 != m.type_hash {
                return Err(AdfReflectError::TypeMismatch(v.0));
            }
            let ghost b0 = buf@;
            let res = self.write_value_by_hash(
                &v.1,
                m.type_hash,
                buf,
                base + m.offsets.byte_offset as u128,
                m.offsets.bit_offset as u32,
                fuel,
            );
            if let Err(e) = res {
                proof {
                    assert(spec_write_members(ctxv, vs@, ms, b0, base as int, i as int, fuel as nat)
                        == Err::<Seq<u8>, AdfReflectError>(e));
                }
                return Err(e);
            }
            proof {
                assert(spec_write_members(ctxv, vs@, ms, b0, base as int, i as int, fuel as nat)
                    == spec_write_members(
                    ctxv,
                    vs@,
                    ms,
                    buf@,
                    base as int,
                    i + 1 as int,
                    fuel as nat,
                ));
            }
            i = i + 1;
        }
        proof {
            assert(spec_write_members(ctxv, vs@, ms, buf@, base as int, n as int, fuel as nat)
                == Ok::<Seq<u8>, AdfReflectError>(buf@));
        }
        Ok(())
    }

    /// Write every array element at its element-size stride.
    fn write_elems(
        &self,
        vs: &Vec<AdfReflectedValue>,
        et: &AdfType,
        buf: &mut Vec<u8>,
        start: u128,
        fuel: u64,
    ) -> (r: Result<(), AdfReflectError>)
        requires
            start <= u64::MAX,
        ensures
            r matches Ok(u) ==> spec_write_elems(
                spec_ctx_view(*self),
                vs@,
                et@,
                old(buf)@,
                start as int,
                0,
                fuel as nat,
            ) == Ok::<Seq<u8>, AdfReflectError>(final(buf)@),
            r matches Err(e) ==> spec_write_elems(
                spec_ctx_view(*self),
                vs@,
                et@,
                old(buf)@,
                start as int,
                0,
                fuel as nat,
            ) == Err::<Seq<u8>, AdfReflectError>(e),
        decreases fuel, 2int,
    {
        let ghost ctxv = spec_ctx_view(*self);
        let n = vs.len();
        let mut i: usize = 0;
        while i < n
            invariant
                i <= n,
                n == vs@.len(),
                ctxv == spec_ctx_view(*self),
                start <= u64::MAX,
                match spec_write_elems(ctxv, vs@, et@, buf@, start as int, i as int, fuel as nat) {
                    Ok(b) => spec_write_elems(
                        ctxv,
                        vs@,
                        et@,
                        old(buf)@,
                        start as int,
                        0,
                        fuel as nat,
                    ) == Ok::<Seq<u8>, AdfReflectError>(b),
                    Err(x) => spec_write_elems(
                        ctxv,
                        vs@,
                        et@,
                        old(buf)@,
                        start as int,
                        0,
                        fuel as nat,
                    ) == Err::<Seq<u8>, AdfReflectError>(x),
                },
            decreases n - i,
        {
            let v = &vs[i];
            assert(v == vs@[i as int]);
            if v.0 != et.type_hash {
                return Err(AdfReflectError::TypeMismatch(v.0));
            }
            proof {
                assert(start + i * et@.size <= u64::MAX as int + u64::MAX as int * u32::MAX as int)
                    by (nonlinear_arith)
                    requires
                        start <= u64::MAX,
                        0 <= i <= u64::MAX,
                        et@.size <= u32::MAX,
                ;
            }
            let ghost b0 = buf@;
            let eo: u128 = start + (i as u128) * (et.size as u128);
            proof {
                assert(eo as int == start + (i as int) * (et@.size as int)) by (nonlinear_arith)
                    requires
                        eo == start + (i as u128) * (et.size as u128),
                        et.size == et@.size,
                        start + (i as u128) * (et.size as u128) <= u128::MAX,
                ;
            }
            let res = self.write_value_by_info(&v.1, et, buf, eo, 0, fuel);
            if let Err(e) = res {
                proof {
                    assert(spec_write_by_info(ctxv, vs@[i as int].1, et@, b0, eo as int, 0, fuel as nat)
                        == Err::<Seq<u8>, AdfReflectError>(e));
                    assert(spec_write_elems(ctxv, vs@, et@, b0, start as int, i as int, fuel as nat)
                        == Err::<Seq<u8>, AdfReflectError>(e));
                }
                return Err(e);
            }
            proof {
                assert(spec_write_elems(ctxv, vs@, et@, b0, start as int, i as int, fuel as nat)
                    == spec_write_elems(
                    ctxv,
                    vs@,
                    et@,
                    buf@,
                    start as int,
                    i + 1 as int,
                    fuel as nat,
                ));
            }
            i = i + 1;
        }
        proof {
            assert(spec_write_elems(ctxv, vs@, et@, buf@, start as int, n as int, fuel as nat)
                == Ok::<Seq<u8>, AdfReflectError>(buf@));
        }
        Ok(())
    }
}


/// What writing a named value into a file does: the value's type is
/// resolved, the named instance of that type is found or created with a
/// zeroed buffer, and the value is packed into that buffer.
pub open spec fn spec_write_instance(
    ctxv: Seq<AdfTypeView>,
    name: Seq<u8>,
    value: AdfReflectedValue,
    f: crate::types::AdfFileView,
) -> Result<crate::types::AdfFileView, AdfReflectError> {
    match spec_lookup_from(ctxv, value.0, 0) {
        None => Err(AdfReflectError::TypeUnknown(value.0)),
        Some(t) => {
            let j = crate::types::spec_find_named_instance(f.instances, name, t.type_hash, 0);
            let mid = if j < f.instances.len() {
                f
            } else {
                crate::types::AdfFileView {
                    instances: f.instances.push(
                        crate::types::AdfInstanceView {
                            name: name,
                            type_hash: t.type_hash,
                            buffer: crate::bytes::spec_zeros(t.size as int),
                            alignment: t.alignment,
                        },
                    ),
                    ..f
                }
            };
            let idx = if j < f.instances.len() {
                j
            } else {
                f.instances.len() as int
            };
            match spec_write_by_hash(
                ctxv,
                value.1,
                value.0,
                mid.instances[idx].buffer,
                0,
                0,
                ADF_REFLECT_FUEL as nat,
            ) {
                Ok(b) => Ok(
                    crate::types::AdfFileView {
                        instances: mid.instances.update(
                            idx,
                            crate::types::AdfInstanceView { buffer: b, ..mid.instances[idx] },
                        ),
                        ..mid
                    },
                ),
                Err(e) => Err(e),
            }
        },
    }
}

impl AdfReflectionContext {
    /// Pack a value into the named instance of the value's type, creating
    /// the instance when the file does not hold it yet. On failure the file
    /// is left as it was.
    #[verifier::rlimit(100)]
    pub fn write_instance(
        &self,
        name: &[u8],
        value: &AdfReflectedValue,
        adf: &mut AdfFile,
    ) -> (r: Result<(), AdfReflectError>)
        ensures
            r matches Ok(u) ==> spec_write_instance(spec_ctx_view(*self), name@, *value, old(adf)@)
                == Ok::<crate::types::AdfFileView, AdfReflectError>(final(adf)@),
            r matches Err(e) ==> spec_write_instance(
                spec_ctx_view(*self),
                name@,
                *value,
                old(adf)@,
            ) == Err::<crate::types::AdfFileView, AdfReflectError>(e) && final(adf)@ == old(adf)@,
    {
        let ghost ctxv = spec_ctx_view(*self);
        let ghost f0 = adf@;
        let t = match self.get_type(value.0) {
            Some(t) => t,
            None => {
                return Err(AdfReflectError::TypeUnknown(value.0));
            },
        };
        let ghost j = crate::types::spec_find_named_instance(f0.instances, name@, t@.type_hash, 0);
        let ghost mid: crate::types::AdfFileView = if j < f0.instances.len() {
            f0
        } else {
            crate::types::AdfFileView {
                instances: f0.instances.push(
                    crate::types::AdfInstanceView {
                        name: name@,
                        type_hash: t@.type_hash,
                        buffer: crate::bytes::spec_zeros(t@.size as int),
                        alignment: t@.alignment,
                    },
                ),
                ..f0
            }
        };
        let ghost gidx: int = if j < f0.instances.len() {
            j
        } else {
            f0.instances.len() as int
        };
        let found = adf.get_instance(name, t);
        let mut buf: Vec<u8> = match found {
            Some(i) => clone_bytes(&adf.instances[i].buffer),
            None => {
                let mut b: Vec<u8> = Vec::new();
                crate::bytes::push_zeros(&mut b, t.size as usize);
                b
            },
        };
        proof {
            if found is Some {
                assert(f0.instances[j] == adf.instances@[j]@);
            }
            assert(buf@ == mid.instances[gidx].buffer);
        }
        let res = self.write_value_by_hash(&value.1, value.0, &mut buf, 0, 0, ADF_REFLECT_FUEL);
        if let Err(e) = res {
            return Err(e);
        }
        let ghost written = buf@;
        let idx = adf.new_instance(name, t);
        proof {
            assert(adf@.instances =~= mid.instances);
            assert(adf@ == mid);
            assert(gidx == idx as int);
        }
        let old_inst = &adf.instances[idx];
        let updated = AdfInstance {
            name: clone_bytes(&old_inst.name),
            type_hash: old_inst.type_hash,
            buffer: buf,
            alignment: old_inst.alignment,
        };
        proof {
            assert(mid.instances[gidx] == adf.instances@[idx as int]@);
            assert(updated@ == (crate::types::AdfInstanceView {
                buffer: written,
                ..mid.instances[gidx]
            }));
        }
        adf.instances.set(idx, updated);
        proof {
            assert(adf@.instances =~= mid.instances.update(
                gidx,
                crate::types::AdfInstanceView { buffer: written, ..mid.instances[gidx] },
            ));
            assert(adf@ == (crate::types::AdfFileView {
                instances: mid.instances.update(
                    gidx,
                    crate::types::AdfInstanceView { buffer: written, ..mid.instances[gidx] },
                ),
                ..mid
            }));
        }
        Ok(())
    }
}

} // verus!
