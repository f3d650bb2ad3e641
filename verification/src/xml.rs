use vstd::prelude::*;

use crate::reflect::{
    AdfReflectedPrimitive, AdfReflectedScalar, AdfReflectedValue, AdfReflectionContext,
    spec_ctx_view, spec_lookup_from,
};
use crate::types::{AdfPrimitive, AdfScalarType, AdfTypeView};

verus! {

broadcast use vstd::std_specs::vec::group_vec_axioms, vstd::seq::group_seq_axioms;

// The textual projection of a reflected value tree: every scalar becomes a
// decimal string, every type a display name. Floating-point scalars are
// projected as the decimal form of their bit patterns, which keeps the
// projection exact and reversible.

/// Why a projection or its reverse stopped.
#[derive(Clone, Copy, Debug, PartialEq, Eq, Structural)]
pub enum AdfXmlError {
    /// A type hash or display name that nothing defines.
    UnknownType(u32),
    /// A display name that the type list does not hold.
    UnknownName,
    /// A scalar string that does not parse as its kind demands.
    BadScalar,
    /// A scalar kind and size pair the format does not define.
    InvalidScalar,
    /// A pointer or deferred element without exactly one inner value.
    BadShape,
    /// A recursive type, which the projection cannot rebuild.
    Unsupported,
    /// The type graph recursion limit was reached.
    Depth,
}

/// The decimal digits of a number, most significant first.
pub open spec fn spec_dec_u64(n: u64) -> Seq<u8>
    decreases n,
{
    if n < 10 {
        seq![(0x30 + n) as u8]
    } else {
        spec_dec_u64(n / 10) + seq![(0x30 + n % 10) as u8]
    }
}

/// The decimal form of a signed number: a minus sign before the magnitude.
pub open spec fn spec_dec_i64(n: i64) -> Seq<u8> {
    if n >= 0 {
        spec_dec_u64(n as u64)
    } else {
        seq![0x2du8] + spec_dec_u64((-(n as int)) as u64)
    }
}

/// Format a number in decimal.
pub fn dec_u64(n: u64) -> (r: Vec<u8>)
    ensures
        r@ == spec_dec_u64(n),
    decreases n,
{
    if n < 10 {
        let mut r: Vec<u8> = Vec::new();
        r.push(0x30 + (n as u8));
        assert(r@ =~= spec_dec_u64(n));
        r
    } else {
        let mut r = dec_u64(n / 10);
        r.push(0x30 + ((n % 10) as u8));
        assert(r@ =~= spec_dec_u64(n));
        r
    }
}

pub fn dec_i64(n: i64) -> (r: Vec<u8>)
    ensures
        r@ == spec_dec_i64(n),
{
    if n >= 0 {
        dec_u64(n as u64)
    } else {
        let mut r: Vec<u8> = Vec::new();
        r.push(0x2d);
        let m = if n == i64::MIN {
            9223372036854775808u64
        } else {
            (-n) as u64
        };
        let d = dec_u64(m);
        crate::bytes::push_bytes(&mut r, d.as_slice());
        assert(r@ =~= seq![0x2du8] + spec_dec_u64(m));
        r
    }
}

/// The number a run of decimal digits stands for, if the run is nonempty,
/// all digits, and within the 64-bit range.
pub open spec fn spec_parse_u64(s: Seq<u8>) -> Option<u64>
    decreases s.len(),
{
    if s.len() == 0 {
        None
    } else if s.len() == 1 {
        if 0x30 <= s[0] <= 0x39 {
            Some((s[0] - 0x30) as u64)
        } else {
            None
        }
    } else {
        match spec_parse_u64(s.drop_last()) {
            None => None,
            Some(h) => {
                if 0x30 <= s.last() <= 0x39 && h * 10 + (s.last() - 0x30) <= u64::MAX {
                    Some((h * 10 + (s.last() - 0x30)) as u64)
                } else {
                    None
                }
            },
        }
    }
}

pub fn parse_u64(s: &[u8]) -> (r: Option<u64>)
    ensures
        r == spec_parse_u64(s@),
{
    let n = s.len();
    if n == 0 {
        return None;
    }
    let mut acc: u64 = 0;
    let mut k: usize = 0;
    while k < n
        invariant
            k <= n,
            n == s@.len(),
            n >= 1,
            k > 0 ==> spec_parse_u64(s@.take(k as int)) == Some(acc),
            k == 0 ==> acc == 0,
        decreases n - k,
    {
        let c = s[k];
        if c < 0x30 || c > 0x39 {
            proof {
                lemma_parse_u64_prefix_none(s@, k as int);
                assert(s@.subrange(0, s@.len() as int) =~= s@);
            }
            return None;
        }
        let d = (c - 0x30) as u64;
        if k > 0 && (acc > 0xffff_ffff_ffff_ffffu64 / 10 || (acc == 0xffff_ffff_ffff_ffffu64 / 10
            && d > 0xffff_ffff_ffff_ffffu64 % 10)) {
            proof {
                lemma_parse_u64_prefix_overflow(s@, k as int, acc);
                assert(s@.subrange(0, s@.len() as int) =~= s@);
            }
            return None;
        }
        let ghost acc0 = acc;
        if k == 0 {
            acc = d;
        } else {
            acc = acc * 10 + d;
        }
        proof {
            assert(s@.take(k + 1 as int).drop_last() =~= s@.take(k as int));
            assert(s@.take(k + 1 as int).last() == s@[k as int]);
        }
        k = k + 1;
    }
    proof {
        assert(s@.take(n as int) =~= s@);
    }
    Some(acc)
}

/// A digit run with a bad character at position `k` parses to nothing.
proof fn lemma_parse_u64_prefix_none(s: Seq<u8>, k: int)
    requires
        0 <= k < s.len(),
        !(0x30 <= s[k] <= 0x39),
    ensures
        spec_parse_u64(s.subrange(0, s.len() as int)) is None,
    decreases s.len() - k,
{
    lemma_parse_u64_bad_digit(s, k, s.len() as int);
}

proof fn lemma_parse_u64_bad_digit(s: Seq<u8>, k: int, e: int)
    requires
        0 <= k < e <= s.len(),
        !(0x30 <= s[k] <= 0x39),
    ensures
        spec_parse_u64(s.subrange(0, e)) is None,
    decreases e,
{
    let p = s.subrange(0, e);
    if e == k + 1 {
        assert(p.last() == s[k]);
        if p.len() > 1 {
            assert(spec_parse_u64(p) is None);
        }
    } else {
        lemma_parse_u64_bad_digit(s, k, e - 1);
        assert(p.drop_last() =~= s.subrange(0, e - 1));
    }
}

/// Once the accumulated value would overflow, the whole run parses to
/// nothing.
proof fn lemma_parse_u64_prefix_overflow(s: Seq<u8>, k: int, acc: u64)
    requires
        0 < k < s.len(),
        spec_parse_u64(s.subrange(0, k)) == Some(acc),
        0x30 <= s[k] <= 0x39,
        acc * 10 + (s[k] - 0x30) > u64::MAX,
    ensures
        spec_parse_u64(s.subrange(0, s.len() as int)) is None,
{
    lemma_parse_u64_overflow_from(s, k, acc, s.len() as int);
}

proof fn lemma_parse_u64_overflow_from(s: Seq<u8>, k: int, acc: u64, e: int)
    requires
        0 < k < e <= s.len(),
        spec_parse_u64(s.subrange(0, k)) == Some(acc),
        0x30 <= s[k] <= 0x39,
        acc * 10 + (s[k] - 0x30) > u64::MAX,
    ensures
        spec_parse_u64(s.subrange(0, e)) is None,
    decreases e,
{
    let p = s.subrange(0, e);
    if e == k + 1 {
        assert(p.drop_last() =~= s.subrange(0, k));
        assert(p.last() == s[k]);
    } else {
        lemma_parse_u64_overflow_from(s, k, acc, e - 1);
        assert(p.drop_last() =~= s.subrange(0, e - 1));
        let prev = spec_parse_u64(s.subrange(0, e - 1));
        assert(prev is None);
    }
}

/// The signed number a decimal string stands for: an optional minus sign,
/// then digits, within the 64-bit signed range.
pub open spec fn spec_parse_i64(s: Seq<u8>) -> Option<i64> {
    if s.len() > 0 && s[0] == 0x2d {
        match spec_parse_u64(s.drop_first()) {
            None => None,
            Some(m) => {
                if m <= 0x8000_0000_0000_0000u64 {
                    Some((-(m as int)) as i64)
                } else {
                    None
                }
            },
        }
    } else {
        match spec_parse_u64(s) {
            None => None,
            Some(m) => {
                if m <= i64::MAX as u64 {
                    Some(m as i64)
                } else {
                    None
                }
            },
        }
    }
}

pub fn parse_i64(s: &[u8]) -> (r: Option<i64>)
    ensures
        r == spec_parse_i64(s@),
{
    if s.len() > 0 && s[0] == 0x2d {
        let tail = crate::bytes::copy_range(s, 1, s.len());
        assert(tail@ =~= s@.drop_first());
        match parse_u64(tail.as_slice()) {
            None => None,
            Some(m) => {
                if m <= 0x8000_0000_0000_0000u64 {
                    if m == 0x8000_0000_0000_0000u64 {
                        Some(i64::MIN)
                    } else {
                        Some(-(m as i64))
                    }
                } else {
                    None
                }
            },
        }
    } else {
        match parse_u64(s) {
            None => None,
            Some(m) => {
                if m <= 0x7fff_ffff_ffff_ffffu64 {
                    Some(m as i64)
                } else {
                    None
                }
            },
        }
    }
}

/// The decimal text of a scalar; float payloads show their bit patterns.
pub open spec fn spec_scalar_string(sc: AdfReflectedScalar) -> Seq<u8> {
    match sc {
        AdfReflectedScalar::U8(v) => spec_dec_u64(v as u64),
        AdfReflectedScalar::I8(v) => spec_dec_i64(v as i64),
        AdfReflectedScalar::U16(v) => spec_dec_u64(v as u64),
        AdfReflectedScalar::I16(v) => spec_dec_i64(v as i64),
        AdfReflectedScalar::U32(v) => spec_dec_u64(v as u64),
        AdfReflectedScalar::I32(v) => spec_dec_i64(v as i64),
        AdfReflectedScalar::F32Bits(v) => spec_dec_u64(v as u64),
        AdfReflectedScalar::U64(v) => spec_dec_u64(v),
        AdfReflectedScalar::I64(v) => spec_dec_i64(v),
        AdfReflectedScalar::F64Bits(v) => spec_dec_u64(v),
    }
}

pub fn scalar_string(sc: &AdfReflectedScalar) -> (r: Vec<u8>)
    ensures
        r@ == spec_scalar_string(*sc),
{
    match sc {
        AdfReflectedScalar::U8(v) => dec_u64(*v as u64),
        AdfReflectedScalar::I8(v) => dec_i64(*v as i64),
        AdfReflectedScalar::U16(v) => dec_u64(*v as u64),
        AdfReflectedScalar::I16(v) => dec_i64(*v as i64),
        AdfReflectedScalar::U32(v) => dec_u64(*v as u64),
        AdfReflectedScalar::I32(v) => dec_i64(*v as i64),
        AdfReflectedScalar::F32Bits(v) => dec_u64(*v as u64),
        AdfReflectedScalar::U64(v) => dec_u64(*v),
        AdfReflectedScalar::I64(v) => dec_i64(*v),
        AdfReflectedScalar::F64Bits(v) => dec_u64(*v),
    }
}

/// The scalar a decimal string stands for, under the given kind and size.
pub open spec fn spec_scalar_value(s: Seq<u8>, t: AdfTypeView) -> Result<
    AdfReflectedScalar,
    AdfXmlError,
> {
    match t.scalar_type {
        AdfScalarType::Signed => {
            match spec_parse_i64(s) {
                None => Err(AdfXmlError::BadScalar),
                Some(v) => {
                    if t.size == 1 {
                        if i8::MIN <= v <= i8::MAX {
                            Ok(AdfReflectedScalar::I8(v as i8))
                        } else {
                            Err(AdfXmlError::BadScalar)
                        }
                    } else if t.size == 2 {
                        if i16::MIN <= v <= i16::MAX {
                            Ok(AdfReflectedScalar::I16(v as i16))
                        } else {
                            Err(AdfXmlError::BadScalar)
                        }
                    } else if t.size == 4 {
                        if i32::MIN <= v <= i32::MAX {
                            Ok(AdfReflectedScalar::I32(v as i32))
                        } else {
                            Err(AdfXmlError::BadScalar)
                        }
                    } else if t.size == 8 {
                        Ok(AdfReflectedScalar::I64(v))
                    } else {
                        Err(AdfXmlError::InvalidScalar)
                    }
                },
            }
        },
        AdfScalarType::Unsigned => {
            match spec_parse_u64(s) {
                None => Err(AdfXmlError::BadScalar),
                Some(v) => {
                    if t.size == 1 {
                        if v <= u8::MAX {
                            Ok(AdfReflectedScalar::U8(v as u8))
                        } else {
                            Err(AdfXmlError::BadScalar)
                        }
                    } else if t.size == 2 {
                        if v <= u16::MAX {
                            Ok(AdfReflectedScalar::U16(v as u16))
                        } else {
                            Err(AdfXmlError::BadScalar)
                        }
                    } else if t.size == 4 {
                        if v <= u32::MAX {
                            Ok(AdfReflectedScalar::U32(v as u32))
                        } else {
                            Err(AdfXmlError::BadScalar)
                        }
                    } else if t.size == 8 {
                        Ok(AdfReflectedScalar::U64(v))
                    } else {
                        Err(AdfXmlError::InvalidScalar)
                    }
                },
            }
        },
        AdfScalarType::Float => {
            match spec_parse_u64(s) {
                None => Err(AdfXmlError::BadScalar),
                Some(v) => {
                    if t.size == 4 {
                        if v <= u32::MAX {
                            Ok(AdfReflectedScalar::F32Bits(v as u32))
                        } else {
                            Err(AdfXmlError::BadScalar)
                        }
                    } else if t.size == 8 {
                        Ok(AdfReflectedScalar::F64Bits(v))
                    } else {
                        Err(AdfXmlError::InvalidScalar)
                    }
                },
            }
        },
    }
}

pub fn scalar_value(s: &[u8], t: &crate::types::AdfType) -> (r: Result<
    AdfReflectedScalar,
    AdfXmlError,
>)
    ensures
        r == spec_scalar_value(s@, t@),
{
    match t.scalar_type {
        AdfScalarType::Signed => {
            match parse_i64(s) {
                None => Err(AdfXmlError::BadScalar),
                Some(v) => {
                    if t.size == 1 {
                        if -128 <= v && v <= 127 {
                            Ok(AdfReflectedScalar::I8(v as i8))
                        } else {
                            Err(AdfXmlError::BadScalar)
                        }
                    } else if t.size == 2 {
                        if -32768 <= v && v <= 32767 {
                            Ok(AdfReflectedScalar::I16(v as i16))
                        } else {
                            Err(AdfXmlError::BadScalar)
                        }
                    } else if t.size == 4 {
                        if -2147483648 <= v && v <= 2147483647 {
                            Ok(AdfReflectedScalar::I32(v as i32))
                        } else {
                            Err(AdfXmlError::BadScalar)
                        }
                    } else if t.size == 8 {
                        Ok(AdfReflectedScalar::I64(v))
                    } else {
                        Err(AdfXmlError::InvalidScalar)
                    }
                },
            }
        },
        AdfScalarType::Unsigned => {
            match parse_u64(s) {
                None => Err(AdfXmlError::BadScalar),
                Some(v) => {
                    if t.size == 1 {
                        if v <= 255 {
                            Ok(AdfReflectedScalar::U8(v as u8))
                        } else {
                            Err(AdfXmlError::BadScalar)
                        }
                    } else if t.size == 2 {
                        if v <= 65535 {
                            Ok(AdfReflectedScalar::U16(v as u16))
                        } else {
                            Err(AdfXmlError::BadScalar)
                        }
                    } else if t.size == 4 {
                        if v <= 4294967295 {
                            Ok(AdfReflectedScalar::U32(v as u32))
                        } else {
                            Err(AdfXmlError::BadScalar)
                        }
                    } else if t.size == 8 {
                        Ok(AdfReflectedScalar::U64(v))
                    } else {
                        Err(AdfXmlError::InvalidScalar)
                    }
                },
            }
        },
        AdfScalarType::Float => {
            match parse_u64(s) {
                None => Err(AdfXmlError::BadScalar),
                Some(v) => {
                    if t.size == 4 {
                        if v <= 4294967295 {
                            Ok(AdfReflectedScalar::F32Bits(v as u32))
                        } else {
                            Err(AdfXmlError::BadScalar)
                        }
                    } else if t.size == 8 {
                        Ok(AdfReflectedScalar::F64Bits(v))
                    } else {
                        Err(AdfXmlError::InvalidScalar)
                    }
                },
            }
        },
    }
}


/// The display name of a scalar kind and size, when the pair is defined.
pub open spec fn spec_scalar_name(st: AdfScalarType, size: u32) -> Option<Seq<u8>> {
    match st {
        AdfScalarType::Signed => {
            if size == 1 { Some(seq![0x69u8, 0x38u8]) }
            else if size == 2 { Some(seq![0x69u8, 0x31u8, 0x36u8]) }
            else if size == 4 { Some(seq![0x69u8, 0x33u8, 0x32u8]) }
            else if size == 8 { Some(seq![0x69u8, 0x36u8, 0x34u8]) }
            else { None }
        },
        AdfScalarType::Unsigned => {
            if size == 1 { Some(seq![0x75u8, 0x38u8]) }
            else if size == 2 { Some(seq![0x75u8, 0x31u8, 0x36u8]) }
            else if size == 4 { Some(seq![0x75u8, 0x33u8, 0x32u8]) }
            else if size == 8 { Some(seq![0x75u8, 0x36u8, 0x34u8]) }
            else { None }
        },
        AdfScalarType::Float => {
            if size == 4 { Some(seq![0x66u8, 0x33u8, 0x32u8]) }
            else if size == 8 { Some(seq![0x66u8, 0x36u8, 0x34u8]) }
            else { None }
        },
    }
}

fn scalar_name(st: AdfScalarType, size: u32) -> (r: Option<Vec<u8>>)
    ensures
        match r {
            Some(v) => spec_scalar_name(st, size) == Some(v@),
            None => spec_scalar_name(st, size) is None,
        },
{
    let mut v: Vec<u8> = Vec::new();
    match st {
        AdfScalarType::Signed => {
            v.push(0x69);
            if size == 1 { v.push(0x38); assert(v@ =~= seq![0x69u8, 0x38u8]); Some(v) }
            else if size == 2 { v.push(0x31); v.push(0x36); assert(v@ =~= seq![0x69u8, 0x31u8, 0x36u8]); Some(v) }
            else if size == 4 { v.push(0x33); v.push(0x32); assert(v@ =~= seq![0x69u8, 0x33u8, 0x32u8]); Some(v) }
            else if size == 8 { v.push(0x36); v.push(0x34); assert(v@ =~= seq![0x69u8, 0x36u8, 0x34u8]); Some(v) }
            else { None }
        },
        AdfScalarType::Unsigned => {
            v.push(0x75);
            if size == 1 { v.push(0x38); assert(v@ =~= seq![0x75u8, 0x38u8]); Some(v) }
            else if size == 2 { v.push(0x31); v.push(0x36); assert(v@ =~= seq![0x75u8, 0x31u8, 0x36u8]); Some(v) }
            else if size == 4 { v.push(0x33); v.push(0x32); assert(v@ =~= seq![0x75u8, 0x33u8, 0x32u8]); Some(v) }
            else if size == 8 { v.push(0x36); v.push(0x34); assert(v@ =~= seq![0x75u8, 0x36u8, 0x34u8]); Some(v) }
            else { None }
        },
        AdfScalarType::Float => {
            v.push(0x66);
            if size == 4 { v.push(0x33); v.push(0x32); assert(v@ =~= seq![0x66u8, 0x33u8, 0x32u8]); Some(v) }
            else if size == 8 { v.push(0x36); v.push(0x34); assert(v@ =~= seq![0x66u8, 0x36u8, 0x34u8]); Some(v) }
            else { None }
        },
    }
}

/// The display name of the type with the given hash: structural names for
/// scalars, pointers, arrays, bitfields, enumerations, strings and hashes,
/// and the declared name for structures.
pub open spec fn spec_display_name(ts: Seq<AdfTypeView>, h: u32, fuel: nat) -> Option<Seq<u8>>
    decreases fuel,
{
    if fuel <= 0 {
        None
    } else {
        match spec_lookup_from(ts, h, 0) {
            None => None,
            Some(t) => match t.primitive {
                AdfPrimitive::Scalar => spec_scalar_name(t.scalar_type, t.size),
                AdfPrimitive::Structure => Some(t.name),
                AdfPrimitive::Pointer => match spec_display_name(
                    ts,
                    t.element_type_hash,
                    (fuel - 1) as nat,
                ) {
                    None => None,
                    Some(n) => Some(seq![0x50u8, 0x6fu8, 0x69u8, 0x6eu8, 0x74u8, 0x65u8, 0x72u8, 0x5bu8] + n + seq![0x5du8]),
                },
                AdfPrimitive::Array => match spec_display_name(
                    ts,
                    t.element_type_hash,
                    (fuel - 1) as nat,
                ) {
                    None => None,
                    Some(n) => Some(seq![0x5bu8] + n + seq![0x5du8]),
                },
                AdfPrimitive::InlineArray => match spec_display_name(
                    ts,
                    t.element_type_hash,
                    (fuel - 1) as nat,
                ) {
                    None => None,
                    Some(n) => Some(
                        seq![0x5bu8] + n + seq![0x3bu8, 0x20u8] + spec_dec_u64(
                            t.element_length as u64,
                        ) + seq![0x5du8],
                    ),
                },
                AdfPrimitive::String => Some(seq![0x53u8, 0x74u8, 0x72u8, 0x69u8, 0x6eu8, 0x67u8]),
                AdfPrimitive::Recursive => match spec_display_name(
                    ts,
                    t.element_type_hash,
                    (fuel - 1) as nat,
                ) {
                    None => None,
                    Some(n) => Some(seq![0x52u8, 0x65u8, 0x63u8, 0x75u8, 0x72u8, 0x73u8, 0x69u8, 0x76u8, 0x65u8, 0x5bu8] + n + seq![0x5du8]),
                },
                AdfPrimitive::Bitfield => match spec_scalar_name(t.scalar_type, t.size) {
                    None => None,
                    Some(n) => Some(
                        n + seq![0x3au8, 0x20u8] + spec_dec_u64(t.element_length as u64),
                    ),
                },
                AdfPrimitive::Enumeration => match spec_scalar_name(t.scalar_type, t.size) {
                    None => None,
                    Some(n) => Some(t.name + seq![0x3au8, 0x20u8] + n),
                },
                AdfPrimitive::StringHash => match spec_scalar_name(t.scalar_type, t.size) {
                    None => None,
                    Some(n) => Some(seq![0x48u8, 0x61u8, 0x73u8, 0x68u8, 0x5bu8] + n + seq![0x5du8]),
                },
                AdfPrimitive::Deferred => Some(seq![0x41u8, 0x6eu8, 0x79u8]),
            },
        }
    }
}

/// The fuel the display-name recursion gets; deeper element chains than
/// this are treated as unresolvable.
pub const ADF_NAME_FUEL: u64 = 64;

pub fn display_name(ctx: &AdfReflectionContext, type_hash: u32, fuel: u64) -> (r: Option<Vec<u8>>)
    ensures
        match r {
            Some(v) => spec_display_name(spec_ctx_view(*ctx), type_hash, fuel as nat) == Some(v@),
            None => spec_display_name(spec_ctx_view(*ctx), type_hash, fuel as nat) is None,
        },
    decreases fuel,
{
    if fuel == 0 {
        return None;
    }
    let t = match ctx.get_type(type_hash) {
        Some(t) => t,
        None => {
            return None;
        },
    };
    match t.primitive {
        AdfPrimitive::Scalar => scalar_name(t.scalar_type, t.size),
        AdfPrimitive::Structure => Some(crate::bytes::copy_range(t.name.as_slice(), 0, t.name.len())),
        AdfPrimitive::Pointer => {
            match display_name(ctx, t.element_type_hash, fuel - 1) {
                None => None,
                Some(n) => {
                    let mut v: Vec<u8> = Vec::new();
                    v.push(0x50);
                    v.push(0x6f);
                    v.push(0x69);
                    v.push(0x6e);
                    v.push(0x74);
                    v.push(0x65);
                    v.push(0x72);
                    v.push(0x5b);
                    crate::bytes::push_bytes(&mut v, n.as_slice());
                    v.push(0x5d);
                    assert(v@ =~= seq![0x50u8, 0x6fu8, 0x69u8, 0x6eu8, 0x74u8, 0x65u8, 0x72u8, 0x5bu8] + n@ + seq![0x5du8]);
                    Some(v)
                },
            }
        },
        AdfPrimitive::Array => {
            match display_name(ctx, t.element_type_hash, fuel - 1) {
                None => None,
                Some(n) => {
                    let mut v: Vec<u8> = Vec::new();
                    v.push(0x5b);
                    crate::bytes::push_bytes(&mut v, n.as_slice());
                    v.push(0x5d);
                    assert(v@ =~= seq![0x5bu8] + n@ + seq![0x5du8]);
                    Some(v)
                },
            }
        },
        AdfPrimitive::InlineArray => {
            match display_name(ctx, t.element_type_hash, fuel - 1) {
                None => None,
                Some(n) => {
                    let mut v: Vec<u8> = Vec::new();
                    v.push(0x5b);
                    crate::bytes::push_bytes(&mut v, n.as_slice());
                    v.push(0x3b);
                    v.push(0x20);
                    let d = dec_u64(t.element_length as u64);
                    crate::bytes::push_bytes(&mut v, d.as_slice());
                    v.push(0x5d);
                    assert(v@ =~= seq![0x5bu8] + n@ + seq![0x3bu8, 0x20u8] + spec_dec_u64(
                        t.element_length as u64,
                    ) + seq![0x5du8]);
                    Some(v)
                },
            }
        },
        AdfPrimitive::String => {
            let mut v: Vec<u8> = Vec::new();
            v.push(0x53);
            v.push(0x74);
            v.push(0x72);
            v.push(0x69);
            v.push(0x6e);
            v.push(0x67);
            assert(v@ =~= seq![0x53u8, 0x74u8, 0x72u8, 0x69u8, 0x6eu8, 0x67u8]);
            Some(v)
        },
        AdfPrimitive::Recursive => {
            match display_name(ctx, t.element_type_hash, fuel - 1) {
                None => None,
                Some(n) => {
                    let mut v: Vec<u8> = Vec::new();
                    v.push(0x52);
                    v.push(0x65);
                    v.push(0x63);
                    v.push(0x75);
                    v.push(0x72);
                    v.push(0x73);
                    v.push(0x69);
                    v.push(0x76);
                    v.push(0x65);
                    v.push(0x5b);
                    crate::bytes::push_bytes(&mut v, n.as_slice());
                    v.push(0x5d);
                    assert(v@ =~= seq![0x52u8, 0x65u8, 0x63u8, 0x75u8, 0x72u8, 0x73u8, 0x69u8, 0x76u8, 0x65u8, 0x5bu8] + n@ + seq![0x5du8]);
                    Some(v)
                },
            }
        },
        AdfPrimitive::Bitfield => {
            match scalar_name(t.scalar_type, t.size) {
                None => None,
                Some(n) => {
                    let mut v: Vec<u8> = Vec::new();
                    crate::bytes::push_bytes(&mut v, n.as_slice());
                    v.push(0x3a);
                    v.push(0x20);
                    let d = dec_u64(t.element_length as u64);
                    crate::bytes::push_bytes(&mut v, d.as_slice());
                    assert(v@ =~= n@ + seq![0x3au8, 0x20u8] + spec_dec_u64(
                        t.element_length as u64,
                    ));
                    Some(v)
                },
            }
        },
        AdfPrimitive::Enumeration => {
            match scalar_name(t.scalar_type, t.size) {
                None => None,
                Some(n) => {
                    let mut v: Vec<u8> = Vec::new();
                    crate::bytes::push_bytes(&mut v, t.name.as_slice());
                    v.push(0x3a);
                    v.push(0x20);
                    crate::bytes::push_bytes(&mut v, n.as_slice());
                    assert(v@ =~= t@.name + seq![0x3au8, 0x20u8] + n@);
                    Some(v)
                },
            }
        },
        AdfPrimitive::StringHash => {
            match scalar_name(t.scalar_type, t.size) {
                None => None,
                Some(n) => {
                    let mut v: Vec<u8> = Vec::new();
                    v.push(0x48);
                    v.push(0x61);
                    v.push(0x73);
                    v.push(0x68);
                    v.push(0x5b);
                    crate::bytes::push_bytes(&mut v, n.as_slice());
                    v.push(0x5d);
                    assert(v@ =~= seq![0x48u8, 0x61u8, 0x73u8, 0x68u8, 0x5bu8] + n@ + seq![0x5du8]);
                    Some(v)
                },
            }
        },
        AdfPrimitive::Deferred => {
            let mut v: Vec<u8> = Vec::new();
            v.push(0x41);
            v.push(0x6e);
            v.push(0x79);
            assert(v@ =~= seq![0x41u8, 0x6eu8, 0x79u8]);
            Some(v)
        },
    }
}


/// The textual projection of a whole file: the extension that selects type
/// libraries on re-import, whether type definitions are embedded, the
/// display names of the types used, and one projected tree per instance.
#[derive(Debug)]
pub struct AdfXml {
    pub extension: Vec<u8>,
    pub embedded_types: bool,
    pub types: Vec<AdfXmlType>,
    pub instances: Vec<AdfXmlValue>,
}

/// One type of the projection: its display name and its 32-bit hash.
#[derive(Clone, Debug)]
pub struct AdfXmlType {
    pub type_label: Vec<u8>,
    pub type_hash: u32,
}

/// One projected node: an optional member or instance name, the display
/// name of its type, child members for structures, child values for
/// indirections and arrays, and the scalar or string text.
#[derive(Debug)]
pub struct AdfXmlValue {
    pub name: Option<Vec<u8>>,
    pub type_label: Vec<u8>,
    pub members: Vec<AdfXmlValue>,
    pub values: Vec<AdfXmlValue>,
    pub value: Vec<u8>,
}

impl AdfXmlValue {
    /// A leaf node carrying scalar or string text.
    pub fn leaf(type_label: Vec<u8>, value: Vec<u8>) -> (r: AdfXmlValue)
        ensures
            r.name is None,
            r.type_label@ == type_label@,
            r.members@.len() == 0,
            r.values@.len() == 0,
            r.value@ == value@,
    {
        AdfXmlValue { name: None, type_label: type_label, members: Vec::new(), values: Vec::new(), value: value }
    }

    /// The same node under a member or instance name.
    pub fn named(self, name: Vec<u8>) -> (r: AdfXmlValue)
        ensures
            r.name matches Some(n) && n@ == name@,
            r.type_label@ == self.type_label@,
            r.members@ == self.members@,
            r.values@ == self.values@,
            r.value@ == self.value@,
    {
        AdfXmlValue { name: Some(name), ..self }
    }
}

/// First projection type with the given display name; the length if none.
pub open spec fn spec_find_xml_type(ts: Seq<AdfXmlType>, name: Seq<u8>, j: int) -> int
    decreases ts.len() - j,
{
    if j < 0 || j >= ts.len() {
        ts.len() as int
    } else if ts[j].type_label@ == name {
        j
    } else {
        spec_find_xml_type(ts, name, j + 1)
    }
}

/// Resolve a display name to its hash in a projection's type list.
pub fn lookup_xml_type(ts: &Vec<AdfXmlType>, name: &[u8]) -> (r: Option<u32>)
    ensures
        match r {
            Some(h) => {
                let j = spec_find_xml_type(ts@, name@, 0);
                j < ts@.len() && ts@[j].type_hash == h
            },
            None => spec_find_xml_type(ts@, name@, 0) == ts@.len(),
        },
{
    let n = ts.len();
    let mut j: usize = 0;
    while j < n
        invariant
            j <= n,
            n == ts@.len(),
            spec_find_xml_type(ts@, name@, 0) == spec_find_xml_type(ts@, name@, j as int),
        decreases n - j,
    {
        if crate::pools::bytes_eq(ts[j].type_label.as_slice(), name) {
            return Some(ts[j].type_hash);
        }
        j = j + 1;
    }
    None
}


pub struct AdfXmlValueView {
    pub name: Option<Seq<u8>>,
    pub type_label: Seq<u8>,
    pub members: Seq<AdfXmlValueView>,
    pub values: Seq<AdfXmlValueView>,
    pub value: Seq<u8>,
}

pub open spec fn spec_xml_value_view(v: AdfXmlValue) -> AdfXmlValueView
    decreases v,
    via spec_xml_value_view_decreases
{
    AdfXmlValueView {
        name: match v.name {
            Some(n) => Some(n@),
            None => None,
        },
        type_label: v.type_label@,
        members: spec_xml_values_view(v.members@),
        values: spec_xml_values_view(v.values@),
        value: v.value@,
    }
}

#[via_fn]
proof fn spec_xml_value_view_decreases(v: AdfXmlValue) {
    assert(decreases_to!(v => v.members));
    assert(decreases_to!(v.members => v.members@));
    assert(decreases_to!(v => v.values));
    assert(decreases_to!(v.values => v.values@));
}

impl View for AdfXmlValue {
    type V = AdfXmlValueView;

    open spec fn view(&self) -> AdfXmlValueView {
        spec_xml_value_view(*self)
    }
}

pub open spec fn spec_xml_values_view(vs: Seq<AdfXmlValue>) -> Seq<AdfXmlValueView>
    decreases vs, vs.len(),
{
    if vs.len() <= 0 {
        Seq::empty()
    } else {
        seq![spec_xml_value_view(vs[0])] + spec_xml_values_view(vs.drop_first())
    }
}

pub proof fn lemma_xml_values_view_len(vs: Seq<AdfXmlValue>)
    ensures
        spec_xml_values_view(vs).len() == vs.len(),
    decreases vs.len(),
{
    if vs.len() > 0 {
        lemma_xml_values_view_len(vs.drop_first());
    }
}

pub proof fn lemma_xml_values_view_push(vs: Seq<AdfXmlValue>, x: AdfXmlValue)
    ensures
        spec_xml_values_view(vs.push(x)) =~= spec_xml_values_view(vs).push(
            spec_xml_value_view(x),
        ),
    decreases vs.len(),
{
    lemma_xml_values_view_len(vs);
    lemma_xml_values_view_len(vs.push(x));
    if vs.len() == 0 {
        assert(vs.push(x).drop_first() =~= Seq::<AdfXmlValue>::empty());
        assert(vs.push(x)[0] == x);
        assert(seq![spec_xml_value_view(x)] + Seq::<AdfXmlValueView>::empty()
            =~= Seq::<AdfXmlValueView>::empty().push(spec_xml_value_view(x)));
    } else {
        lemma_xml_values_view_push(vs.drop_first(), x);
        lemma_xml_values_view_len(vs.drop_first());
        assert(vs.push(x).drop_first() =~= vs.drop_first().push(x));
        assert(vs.push(x)[0] == vs[0]);
        assert(seq![spec_xml_value_view(vs[0])] + spec_xml_values_view(vs.drop_first()).push(
            spec_xml_value_view(x),
        ) =~= (seq![spec_xml_value_view(vs[0])] + spec_xml_values_view(vs.drop_first())).push(
            spec_xml_value_view(x),
        ));
    }
}

/// A plain leaf of the projection, before a name is attached.
pub open spec fn spec_xml_leaf(label: Seq<u8>, text: Seq<u8>) -> AdfXmlValueView {
    AdfXmlValueView {
        name: None,
        type_label: label,
        members: Seq::empty(),
        values: Seq::empty(),
        value: text,
    }
}

/// The projection of one reflected value: scalars and strings become leaf
/// text, structure members are projected under their declared names, and
/// indirections and arrays carry their projected children.
pub open spec fn spec_from_value(
    ts: Seq<AdfTypeView>,
    v: crate::reflect::AdfReflectedValue,
    fuel: nat,
) -> Result<AdfXmlValueView, AdfXmlError>
    decreases fuel, 1int,
{
    if fuel <= 0 {
        Err(AdfXmlError::Depth)
    } else {
        match spec_lookup_from(ts, v.0, 0) {
            None => Err(AdfXmlError::UnknownType(v.0)),
            Some(t) => match spec_display_name(ts, v.0, crate::xml::ADF_NAME_FUEL as nat) {
                None => Err(AdfXmlError::UnknownType(v.0)),
                Some(label) => match v.1 {
                    AdfReflectedPrimitive::Scalar(sc) => Ok(
                        spec_xml_leaf(label, spec_scalar_string(sc)),
                    ),
                    AdfReflectedPrimitive::Bitfield(sc) => Ok(
                        spec_xml_leaf(label, spec_scalar_string(sc)),
                    ),
                    AdfReflectedPrimitive::Enumeration(sc) => Ok(
                        spec_xml_leaf(label, spec_scalar_string(sc)),
                    ),
                    AdfReflectedPrimitive::StringHash(sc) => Ok(
                        spec_xml_leaf(label, spec_scalar_string(sc)),
                    ),
                    AdfReflectedPrimitive::StringData(bs) => Ok(spec_xml_leaf(label, bs@)),
                    AdfReflectedPrimitive::Structure(vs) => match spec_from_members(
                        ts,
                        vs@,
                        t.members,
                        0,
                        (fuel - 1) as nat,
                    ) {
                        Ok(ms) => Ok(AdfXmlValueView { members: ms, ..spec_xml_leaf(label, Seq::empty()) }),
                        Err(e) => Err(e),
                    },
                    AdfReflectedPrimitive::Pointer(b) => match spec_from_value(
                        ts,
                        *b,
                        (fuel - 1) as nat,
                    ) {
                        Ok(inner) => Ok(
                            AdfXmlValueView {
                                values: seq![inner],
                                ..spec_xml_leaf(label, Seq::empty())
                            },
                        ),
                        Err(e) => Err(e),
                    },
                    AdfReflectedPrimitive::Deferred(b) => match spec_from_value(
                        ts,
                        *b,
                        (fuel - 1) as nat,
                    ) {
                        Ok(inner) => Ok(
                            AdfXmlValueView {
                                values: seq![inner],
                                ..spec_xml_leaf(label, Seq::empty())
                            },
                        ),
                        Err(e) => Err(e),
                    },
                    AdfReflectedPrimitive::Array(vs) => match spec_from_elems(
                        ts,
                        vs@,
                        0,
                        (fuel - 1) as nat,
                    ) {
                        Ok(cs) => Ok(AdfXmlValueView { values: cs, ..spec_xml_leaf(label, Seq::empty()) }),
                        Err(e) => Err(e),
                    },
                    AdfReflectedPrimitive::InlineArray(vs) => match spec_from_elems(
                        ts,
                        vs@,
                        0,
                        (fuel - 1) as nat,
                    ) {
                        Ok(cs) => Ok(AdfXmlValueView { values: cs, ..spec_xml_leaf(label, Seq::empty()) }),
                        Err(e) => Err(e),
                    },
                },
            },
        }
    }
}

/// Structure members are projected in declared order, each under its
/// member's name; members past either list's end are dropped, as a zip is.
pub open spec fn spec_from_members(
    ts: Seq<AdfTypeView>,
    vs: Seq<crate::reflect::AdfReflectedValue>,
    ms: Seq<crate::types::AdfMemberView>,
    i: int,
    fuel: nat,
) -> Result<Seq<AdfXmlValueView>, AdfXmlError>
    decreases fuel, 2int + vs.len() - i,
{
    if i < 0 || i >= vs.len() || i >= ms.len() {
        Ok(Seq::empty())
    } else {
        match spec_from_value(ts, vs[i], fuel) {
            Ok(c) => match spec_from_members(ts, vs, ms, i + 1, fuel) {
                Ok(rest) => Ok(
                    seq![AdfXmlValueView { name: Some(ms[i].name), ..c }] + rest,
                ),
                Err(e) => Err(e),
            },
            Err(e) => Err(e),
        }
    }
}

pub open spec fn spec_from_elems(
    ts: Seq<AdfTypeView>,
    vs: Seq<crate::reflect::AdfReflectedValue>,
    i: int,
    fuel: nat,
) -> Result<Seq<AdfXmlValueView>, AdfXmlError>
    decreases fuel, 2int + vs.len() - i,
{
    if i < 0 || i >= vs.len() {
        Ok(Seq::empty())
    } else {
        match spec_from_value(ts, vs[i], fuel) {
            Ok(c) => match spec_from_elems(ts, vs, i + 1, fuel) {
                Ok(rest) => Ok(seq![c] + rest),
                Err(e) => Err(e),
            },
            Err(e) => Err(e),
        }
    }
}


/// The projection of a value is fixed by the value's view: two values
/// that view alike project alike.
pub proof fn lemma_from_value_view(
    ts: Seq<AdfTypeView>,
    a: AdfReflectedValue,
    b: AdfReflectedValue,
    fuel: nat,
)
    requires
        a@ == b@,
    ensures
        spec_from_value(ts, a, fuel) == spec_from_value(ts, b, fuel),
    decreases fuel, 1int,
{
    if fuel > 0 {
        assert(a.0 == b.0);
        match (a.1, b.1) {
            (AdfReflectedPrimitive::Structure(va), AdfReflectedPrimitive::Structure(vb)) => {
                lemma_seq_views_pointwise(va@, vb@);
                if spec_lookup_from(ts, a.0, 0) is Some {
                    let t = spec_lookup_from(ts, a.0, 0)->Some_0;
                    lemma_from_members_view(ts, va@, vb@, t.members, 0, (fuel - 1) as nat);
                }
            },
            (AdfReflectedPrimitive::Array(va), AdfReflectedPrimitive::Array(vb)) => {
                lemma_seq_views_pointwise(va@, vb@);
                lemma_from_elems_view(ts, va@, vb@, 0, (fuel - 1) as nat);
            },
            (AdfReflectedPrimitive::InlineArray(va), AdfReflectedPrimitive::InlineArray(vb)) => {
                lemma_seq_views_pointwise(va@, vb@);
                lemma_from_elems_view(ts, va@, vb@, 0, (fuel - 1) as nat);
            },
            (AdfReflectedPrimitive::Pointer(ba), AdfReflectedPrimitive::Pointer(bb)) => {
                lemma_from_value_view(ts, *ba, *bb, (fuel - 1) as nat);
            },
            (AdfReflectedPrimitive::Deferred(ba), AdfReflectedPrimitive::Deferred(bb)) => {
                lemma_from_value_view(ts, *ba, *bb, (fuel - 1) as nat);
            },
            _ => {},
        }
    }
}

/// Two value lists whose element views match up give pointwise equal views.
proof fn lemma_seq_views_pointwise(va: Seq<AdfReflectedValue>, vb: Seq<AdfReflectedValue>)
    requires
        crate::reflect::spec_values_view(va) == crate::reflect::spec_values_view(vb),
    ensures
        va.len() == vb.len(),
        forall|j: int| 0 <= j < va.len() ==> (#[trigger] va[j])@ == vb[j]@,
{
    crate::reflect::lemma_values_view_len(va);
    crate::reflect::lemma_values_view_len(vb);
    assert forall|j: int| 0 <= j < va.len() implies (#[trigger] va[j])@ == vb[j]@ by {
        crate::reflect::lemma_values_view_index(va, j);
        crate::reflect::lemma_values_view_index(vb, j);
    }
}

proof fn lemma_from_members_view(
    ts: Seq<AdfTypeView>,
    va: Seq<AdfReflectedValue>,
    vb: Seq<AdfReflectedValue>,
    ms: Seq<crate::types::AdfMemberView>,
    i: int,
    fuel: nat,
)
    requires
        va.len() == vb.len(),
        forall|j: int| 0 <= j < va.len() ==> (#[trigger] va[j])@ == vb[j]@,
    ensures
        spec_from_members(ts, va, ms, i, fuel) == spec_from_members(ts, vb, ms, i, fuel),
    decreases fuel, 2int + va.len() - i,
{
    if 0 <= i < va.len() && i < ms.len() {
        lemma_from_value_view(ts, va[i], vb[i], fuel);
        lemma_from_members_view(ts, va, vb, ms, i + 1, fuel);
    }
}

proof fn lemma_from_elems_view(
    ts: Seq<AdfTypeView>,
    va: Seq<AdfReflectedValue>,
    vb: Seq<AdfReflectedValue>,
    i: int,
    fuel: nat,
)
    requires
        va.len() == vb.len(),
        forall|j: int| 0 <= j < va.len() ==> (#[trigger] va[j])@ == vb[j]@,
    ensures
        spec_from_elems(ts, va, i, fuel) == spec_from_elems(ts, vb, i, fuel),
    decreases fuel, 2int + va.len() - i,
{
    if 0 <= i < va.len() {
        lemma_from_value_view(ts, va[i], vb[i], fuel);
        lemma_from_elems_view(ts, va, vb, i + 1, fuel);
    }
}

impl AdfXmlValue {
    /// Project one reflected value to its textual node: the type's display
    /// name, leaf text for scalars and strings, named children for
    /// structure members, and child values for indirections and arrays.
    pub fn from_value(
        value: &crate::reflect::AdfReflectedValue,
        context: &AdfReflectionContext,
        fuel: u64,
    ) -> (r: Result<AdfXmlValue, AdfXmlError>)
        ensures
            r matches Ok(x) ==> spec_from_value(spec_ctx_view(*context), *value, fuel as nat)
                == Ok::<AdfXmlValueView, AdfXmlError>(x@),
            r matches Err(e) ==> spec_from_value(spec_ctx_view(*context), *value, fuel as nat)
                == Err::<AdfXmlValueView, AdfXmlError>(e),
        decreases fuel, 1int,
    {
        let ghost ctxv = spec_ctx_view(*context);
        if fuel == 0 {
            return Err(AdfXmlError::Depth);
        }
        let t = match context.get_type(value.0) {
            Some(t) => t,
            None => {
                return Err(AdfXmlError::UnknownType(value.0));
            },
        };
        let label = match display_name(context, value.0, ADF_NAME_FUEL) {
            Some(l) => l,
            None => {
                return Err(AdfXmlError::UnknownType(value.0));
            },
        };
        match &value.1 {
            AdfReflectedPrimitive::Scalar(sc) => Ok(AdfXmlValue::leaf(label, scalar_string(sc))),
            AdfReflectedPrimitive::Bitfield(sc) => Ok(AdfXmlValue::leaf(label, scalar_string(sc))),
            AdfReflectedPrimitive::Enumeration(sc) => Ok(
                AdfXmlValue::leaf(label, scalar_string(sc)),
            ),
            AdfReflectedPrimitive::StringHash(sc) => Ok(
                AdfXmlValue::leaf(label, scalar_string(sc)),
            ),
            AdfReflectedPrimitive::StringData(bs) => {
                let data = crate::bytes::copy_range(bs.as_slice(), 0, bs.len());
                assert(data@ =~= bs@);
                Ok(AdfXmlValue::leaf(label, data))
            },
            AdfReflectedPrimitive::Structure(vs) => {
                match AdfXmlValue::from_members(vs, t, context, fuel - 1) {
                    Ok(children) => {
                        let r = AdfXmlValue {
                            name: None,
                            type_label: label,
                            members: children,
                            values: Vec::new(),
                            value: Vec::new(),
                        };
                        assert(r@.values =~= Seq::<AdfXmlValueView>::empty());
                        assert(r@.value =~= Seq::<u8>::empty());
                        Ok(r)
                    },
                    Err(e) => Err(e),
                }
            },
            AdfReflectedPrimitive::Pointer(b) => {
                let res = AdfXmlValue::from_value(&*b, context, fuel - 1);
                match res {
                    Ok(inner) => {
                        let mut values: Vec<AdfXmlValue> = Vec::new();
                        let ghost iv = inner@;
                        let ghost cb = values@;
                        values.push(inner);
                        proof {
                            lemma_xml_values_view_push(cb, values@.last());
                            assert(values@ =~= cb.push(values@.last()));
                            assert(spec_xml_values_view(cb) =~= Seq::<AdfXmlValueView>::empty());
                            assert(spec_xml_values_view(values@) =~= seq![iv]);
                        }
                        let r = AdfXmlValue {
                            name: None,
                            type_label: label,
                            members: Vec::new(),
                            values: values,
                            value: Vec::new(),
                        };
                        assert(r@.values =~= seq![iv]);
                        assert(r@.members =~= Seq::<AdfXmlValueView>::empty());
                        assert(r@.value =~= Seq::<u8>::empty());
                        Ok(r)
                    },
                    Err(e) => Err(e),
                }
            },
            AdfReflectedPrimitive::Deferred(b) => {
                let res = AdfXmlValue::from_value(&*b, context, fuel - 1);
                match res {
                    Ok(inner) => {
                        let mut values: Vec<AdfXmlValue> = Vec::new();
                        let ghost iv = inner@;
                        let ghost cb = values@;
                        values.push(inner);
                        proof {
                            lemma_xml_values_view_push(cb, values@.last());
                            assert(values@ =~= cb.push(values@.last()));
                            assert(spec_xml_values_view(cb) =~= Seq::<AdfXmlValueView>::empty());
                            assert(spec_xml_values_view(values@) =~= seq![iv]);
                        }
                        let r = AdfXmlValue {
                            name: None,
                            type_label: label,
                            members: Vec::new(),
                            values: values,
                            value: Vec::new(),
                        };
                        assert(r@.values =~= seq![iv]);
                        assert(r@.members =~= Seq::<AdfXmlValueView>::empty());
                        assert(r@.value =~= Seq::<u8>::empty());
                        Ok(r)
                    },
                    Err(e) => Err(e),
                }
            },
            AdfReflectedPrimitive::Array(vs) => {
                match AdfXmlValue::from_elems(vs, context, fuel - 1) {
                    Ok(children) => {
                        let r = AdfXmlValue {
                            name: None,
                            type_label: label,
                            members: Vec::new(),
                            values: children,
                            value: Vec::new(),
                        };
                        assert(r@.members =~= Seq::<AdfXmlValueView>::empty());
                        assert(r@.value =~= Seq::<u8>::empty());
                        Ok(r)
                    },
                    Err(e) => Err(e),
                }
            },
            AdfReflectedPrimitive::InlineArray(vs) => {
                match AdfXmlValue::from_elems(vs, context, fuel - 1) {
                    Ok(children) => {
                        let r = AdfXmlValue {
                            name: None,
                            type_label: label,
                            members: Vec::new(),
                            values: children,
                            value: Vec::new(),
                        };
                        assert(r@.members =~= Seq::<AdfXmlValueView>::empty());
                        assert(r@.value =~= Seq::<u8>::empty());
                        Ok(r)
                    },
                    Err(e) => Err(e),
                }
            },
        }
    }

    /// Project every structure member, each under its declared name.
    fn from_members(
        vs: &Vec<crate::reflect::AdfReflectedValue>,
        t: &crate::types::AdfType,
        context: &AdfReflectionContext,
        fuel: u64,
    ) -> (r: Result<Vec<AdfXmlValue>, AdfXmlError>)
        ensures
            r matches Ok(cs) ==> spec_from_members(
                spec_ctx_view(*context),
                vs@,
                t@.members,
                0,
                fuel as nat,
            ) == Ok::<Seq<AdfXmlValueView>, AdfXmlError>(spec_xml_values_view(cs@)),
            r matches Err(e) ==> spec_from_members(
                spec_ctx_view(*context),
                vs@,
                t@.members,
                0,
                fuel as nat,
            ) == Err::<Seq<AdfXmlValueView>, AdfXmlError>(e),
        decreases fuel, 2int,
    {
        let ghost ctxv = spec_ctx_view(*context);
        let ghost ms = t@.members;
        let n = if vs.len() < t.members.len() {
            vs.len()
        } else {
            t.members.len()
        };
        let mut children: Vec<AdfXmlValue> = Vec::new();
        let mut i: usize = 0;
        while i < n
            invariant
                i <= n,
                n == if vs@.len() < t.members@.len() {
                    vs@.len() as int
                } else {
                    t.members@.len() as int
                },
                ms == t@.members,
                ctxv == spec_ctx_view(*context),
                match spec_from_members(ctxv, vs@, ms, i as int, fuel as nat) {
                    Ok(rest) => spec_from_members(ctxv, vs@, ms, 0, fuel as nat) == Ok::<
                        Seq<AdfXmlValueView>,
                        AdfXmlError,
                    >(spec_xml_values_view(children@) + rest),
                    Err(x) => spec_from_members(ctxv, vs@, ms, 0, fuel as nat) == Err::<
                        Seq<AdfXmlValueView>,
                        AdfXmlError,
                    >(x),
                },
            decreases n - i,
        {
            assert(ms[i as int] == t.members@[i as int]@);
            let res = AdfXmlValue::from_value(&vs[i], context, fuel);
            let child = match res {
                Ok(c) => c,
                Err(e) => {
                    return Err(e);
                },
            };
            let nm = crate::bytes::copy_range(
                t.members[i].name.as_slice(),
                0,
                t.members[i].name.len(),
            );
            assert(nm@ =~= ms[i as int].name);
            let ghost childv = child@;
            let named = child.named(nm);
            assert(named@.members =~= childv.members);
            assert(named@.values =~= childv.values);
            assert(named@ == (AdfXmlValueView { name: Some(ms[i as int].name), ..childv }));
            let ghost c0 = spec_xml_values_view(children@);
            let ghost cb = children@;
            children.push(named);
            proof {
                lemma_xml_values_view_push(cb, children@.last());
                assert(children@ =~= cb.push(children@.last()));
                let nxt = spec_from_members(ctxv, vs@, ms, i + 1 as int, fuel as nat);
                if nxt is Ok {
                    let rest = nxt->Ok_0;
                    assert(c0 + (seq![children@.last()@] + rest) =~= spec_xml_values_view(
                        children@,
                    ) + rest);
                }
            }
            i = i + 1;
        }
        proof {
            assert(spec_from_members(ctxv, vs@, ms, n as int, fuel as nat) == Ok::<
                Seq<AdfXmlValueView>,
                AdfXmlError,
            >(Seq::empty()));
            assert(spec_xml_values_view(children@) + Seq::<AdfXmlValueView>::empty()
                =~= spec_xml_values_view(children@));
        }
        Ok(children)
    }

    /// Project every element of an array value, in order.
    fn from_elems(
        vs: &Vec<crate::reflect::AdfReflectedValue>,
        context: &AdfReflectionContext,
        fuel: u64,
    ) -> (r: Result<Vec<AdfXmlValue>, AdfXmlError>)
        ensures
            r matches Ok(cs) ==> spec_from_elems(spec_ctx_view(*context), vs@, 0, fuel as nat)
                == Ok::<Seq<AdfXmlValueView>, AdfXmlError>(spec_xml_values_view(cs@)),
            r matches Err(e) ==> spec_from_elems(spec_ctx_view(*context), vs@, 0, fuel as nat)
                == Err::<Seq<AdfXmlValueView>, AdfXmlError>(e),
        decreases fuel, 2int,
    {
        let ghost ctxv = spec_ctx_view(*context);
        let n = vs.len();
        let mut children: Vec<AdfXmlValue> = Vec::new();
        let mut i: usize = 0;
        while i < n
            invariant
                i <= n,
                n == vs@.len(),
                ctxv == spec_ctx_view(*context),
                match spec_from_elems(ctxv, vs@, i as int, fuel as nat) {
                    Ok(rest) => spec_from_elems(ctxv, vs@, 0, fuel as nat) == Ok::<
                        Seq<AdfXmlValueView>,
                        AdfXmlError,
                    >(spec_xml_values_view(children@) + rest),
                    Err(x) => spec_from_elems(ctxv, vs@, 0, fuel as nat) == Err::<
                        Seq<AdfXmlValueView>,
                        AdfXmlError,
                    >(x),
                },
            decreases n - i,
        {
            let res = AdfXmlValue::from_value(&vs[i], context, fuel);
            let child = match res {
                Ok(c) => c,
                Err(e) => {
                    return Err(e);
                },
            };
            let ghost c0 = spec_xml_values_view(children@);
            let ghost cb = children@;
            children.push(child);
            proof {
                lemma_xml_values_view_push(cb, children@.last());
                assert(children@ =~= cb.push(children@.last()));
                let nxt = spec_from_elems(ctxv, vs@, i + 1 as int, fuel as nat);
                if nxt is Ok {
                    let rest = nxt->Ok_0;
                    assert(c0 + (seq![children@.last()@] + rest) =~= spec_xml_values_view(
                        children@,
                    ) + rest);
                }
            }
            i = i + 1;
        }
        proof {
            assert(spec_from_elems(ctxv, vs@, n as int, fuel as nat) == Ok::<
                Seq<AdfXmlValueView>,
                AdfXmlError,
            >(Seq::empty()));
            assert(spec_xml_values_view(children@) + Seq::<AdfXmlValueView>::empty()
                =~= spec_xml_values_view(children@));
        }
        Ok(children)
    }

    /// The projection of a value under a member or instance name.
    pub fn from_value_named(
        value: &crate::reflect::AdfReflectedValue,
        name: &[u8],
        context: &AdfReflectionContext,
        fuel: u64,
    ) -> (r: Result<AdfXmlValue, AdfXmlError>)
        ensures
            r matches Ok(x) ==> (spec_from_value(spec_ctx_view(*context), *value, fuel as nat)
                matches Ok(inner) && x@ == (AdfXmlValueView { name: Some(name@), ..inner })),
            r matches Err(e) ==> spec_from_value(spec_ctx_view(*context), *value, fuel as nat)
                == Err::<AdfXmlValueView, AdfXmlError>(e),
    {
        match AdfXmlValue::from_value(value, context, fuel) {
            Ok(x) => {
                let mut nm: Vec<u8> = Vec::new();
                crate::bytes::push_bytes(&mut nm, name);
                Ok(x.named(nm))
            },
            Err(e) => Err(e),
        }
    }
}


/// The reflected value a projected node stands for: the display name picks
/// the type, scalar text parses by the type's kind, structure members come
/// from the node's named children, and indirections from its child values.
pub open spec fn spec_to_value(
    ts: Seq<AdfTypeView>,
    tl: Seq<AdfXmlType>,
    x: AdfXmlValue,
    fuel: nat,
) -> Result<crate::reflect::AdfReflectedValueView, AdfXmlError>
    decreases fuel, 1int,
{
    if fuel <= 0 {
        Err(AdfXmlError::Depth)
    } else {
        let j = spec_find_xml_type(tl, x.type_label@, 0);
        if j >= tl.len() {
            Err(AdfXmlError::UnknownName)
        } else {
            let h = tl[j].type_hash;
            match spec_lookup_from(ts, h, 0) {
                None => Err(AdfXmlError::UnknownType(h)),
                Some(t) => match t.primitive {
                    AdfPrimitive::Scalar => match spec_scalar_value(x.value@, t) {
                        Ok(sc) => Ok(
                            crate::reflect::AdfReflectedValueView {
                                type_hash: t.type_hash,
                                payload: crate::reflect::AdfReflectedPrimitiveView::Scalar(sc),
                            },
                        ),
                        Err(e) => Err(e),
                    },
                    AdfPrimitive::Structure => match spec_to_values(
                        ts,
                        tl,
                        x.members@,
                        0,
                        (fuel - 1) as nat,
                    ) {
                        Ok(vs) => Ok(
                            crate::reflect::AdfReflectedValueView {
                                type_hash: t.type_hash,
                                payload: crate::reflect::AdfReflectedPrimitiveView::Structure(vs),
                            },
                        ),
                        Err(e) => Err(e),
                    },
                    AdfPrimitive::Pointer => {
                        if x.values@.len() == 0 {
                            Err(AdfXmlError::BadShape)
                        } else {
                            match spec_to_value(ts, tl, x.values@[0], (fuel - 1) as nat) {
                                Ok(inner) => Ok(
                                    crate::reflect::AdfReflectedValueView {
                                        type_hash: t.type_hash,
                                        payload: crate::reflect::AdfReflectedPrimitiveView::Pointer(
                                            Box::new(inner),
                                        ),
                                    },
                                ),
                                Err(e) => Err(e),
                            }
                        }
                    },
                    AdfPrimitive::Array => match spec_to_values(
                        ts,
                        tl,
                        x.values@,
                        0,
                        (fuel - 1) as nat,
                    ) {
                        Ok(vs) => Ok(
                            crate::reflect::AdfReflectedValueView {
                                type_hash: t.type_hash,
                                payload: crate::reflect::AdfReflectedPrimitiveView::Array(vs),
                            },
                        ),
                        Err(e) => Err(e),
                    },
                    AdfPrimitive::InlineArray => match spec_to_values(
                        ts,
                        tl,
                        x.values@,
                        0,
                        (fuel - 1) as nat,
                    ) {
                        Ok(vs) => Ok(
                            crate::reflect::AdfReflectedValueView {
                                type_hash: t.type_hash,
                                payload: crate::reflect::AdfReflectedPrimitiveView::InlineArray(
                                    vs,
                                ),
                            },
                        ),
                        Err(e) => Err(e),
                    },
                    AdfPrimitive::String => Ok(
                        crate::reflect::AdfReflectedValueView {
                            type_hash: t.type_hash,
                            payload: crate::reflect::AdfReflectedPrimitiveView::StringData(
                                x.value@,
                            ),
                        },
                    ),
                    AdfPrimitive::Recursive => Err(AdfXmlError::Unsupported),
                    AdfPrimitive::Bitfield => match spec_scalar_value(x.value@, t) {
                        Ok(sc) => Ok(
                            crate::reflect::AdfReflectedValueView {
                                type_hash: t.type_hash,
                                payload: crate::reflect::AdfReflectedPrimitiveView::Bitfield(sc),
                            },
                        ),
                        Err(e) => Err(e),
                    },
                    AdfPrimitive::Enumeration => match spec_scalar_value(x.value@, t) {
                        Ok(sc) => Ok(
                            crate::reflect::AdfReflectedValueView {
                                type_hash: t.type_hash,
                                payload: crate::reflect::AdfReflectedPrimitiveView::Enumeration(
                                    sc,
                                ),
                            },
                        ),
                        Err(e) => Err(e),
                    },
                    AdfPrimitive::StringHash => match spec_scalar_value(x.value@, t) {
                        Ok(sc) => Ok(
                            crate::reflect::AdfReflectedValueView {
                                type_hash: t.type_hash,
                                payload: crate::reflect::AdfReflectedPrimitiveView::StringHash(
                                    sc,
                                ),
                            },
                        ),
                        Err(e) => Err(e),
                    },
                    AdfPrimitive::Deferred => {
                        if x.values@.len() == 0 {
                            Err(AdfXmlError::BadShape)
                        } else {
                            match spec_to_value(ts, tl, x.values@[0], (fuel - 1) as nat) {
                                Ok(inner) => Ok(
                                    crate::reflect::AdfReflectedValueView {
                                        type_hash: t.type_hash,
                                        payload:
                                            crate::reflect::AdfReflectedPrimitiveView::Deferred(
                                            Box::new(inner),
                                        ),
                                    },
                                ),
                                Err(e) => Err(e),
                            }
                        }
                    },
                },
            }
        }
    }
}

pub open spec fn spec_to_values(
    ts: Seq<AdfTypeView>,
    tl: Seq<AdfXmlType>,
    vs: Seq<AdfXmlValue>,
    i: int,
    fuel: nat,
) -> Result<Seq<crate::reflect::AdfReflectedValueView>, AdfXmlError>
    decreases fuel, 2int + vs.len() - i,
{
    if i < 0 || i >= vs.len() {
        Ok(Seq::empty())
    } else {
        match spec_to_value(ts, tl, vs[i], fuel) {
            Ok(v) => match spec_to_values(ts, tl, vs, i + 1, fuel) {
                Ok(rest) => Ok(seq![v] + rest),
                Err(e) => Err(e),
            },
            Err(e) => Err(e),
        }
    }
}

impl AdfXmlValue {
    /// Rebuild the reflected value a projected node stands for, resolving
    /// display names against the projection's type list and the registry.
    pub fn to_value(
        &self,
        types: &Vec<AdfXmlType>,
        context: &AdfReflectionContext,
        fuel: u64,
    ) -> (r: Result<crate::reflect::AdfReflectedValue, AdfXmlError>)
        ensures
            r matches Ok(v) ==> spec_to_value(spec_ctx_view(*context), types@, *self, fuel as nat)
                == Ok::<crate::reflect::AdfReflectedValueView, AdfXmlError>(v@),
            r matches Err(e) ==> spec_to_value(spec_ctx_view(*context), types@, *self, fuel as nat)
                == Err::<crate::reflect::AdfReflectedValueView, AdfXmlError>(e),
        decreases fuel, 1int,
    {
        let ghost ctxv = spec_ctx_view(*context);
        if fuel == 0 {
            return Err(AdfXmlError::Depth);
        }
        let h = match lookup_xml_type(types, self.type_label.as_slice()) {
            Some(h) => h,
            None => {
                return Err(AdfXmlError::UnknownName);
            },
        };
        proof {
            let j = spec_find_xml_type(types@, self.type_label@, 0);
            lemma_find_xml_type_found(types@, self.type_label@, 0);
        }
        let t = match context.get_type(h) {
            Some(t) => t,
            None => {
                return Err(AdfXmlError::UnknownType(h));
            },
        };
        match t.primitive {
            AdfPrimitive::Scalar => match scalar_value(self.value.as_slice(), t) {
                Ok(sc) => Ok(
                    crate::reflect::AdfReflectedValue(
                        t.type_hash,
                        crate::reflect::AdfReflectedPrimitive::Scalar(sc),
                    ),
                ),
                Err(e) => Err(e),
            },
            AdfPrimitive::Structure => match Self::to_values(
                &self.members,
                types,
                context,
                fuel - 1,
            ) {
                Ok(vs) => Ok(
                    crate::reflect::AdfReflectedValue(
                        t.type_hash,
                        crate::reflect::AdfReflectedPrimitive::Structure(vs),
                    ),
                ),
                Err(e) => Err(e),
            },
            AdfPrimitive::Pointer => {
                if self.values.len() == 0 {
                    return Err(AdfXmlError::BadShape);
                }
                match self.values[0].to_value(types, context, fuel - 1) {
                    Ok(inner) => Ok(
                        crate::reflect::AdfReflectedValue(
                            t.type_hash,
                            crate::reflect::AdfReflectedPrimitive::Pointer(Box::new(inner)),
                        ),
                    ),
                    Err(e) => Err(e),
                }
            },
            AdfPrimitive::Array => match Self::to_values(&self.values, types, context, fuel - 1) {
                Ok(vs) => Ok(
                    crate::reflect::AdfReflectedValue(
                        t.type_hash,
                        crate::reflect::AdfReflectedPrimitive::Array(vs),
                    ),
                ),
                Err(e) => Err(e),
            },
            AdfPrimitive::InlineArray => match Self::to_values(
                &self.values,
                types,
                context,
                fuel - 1,
            ) {
                Ok(vs) => Ok(
                    crate::reflect::AdfReflectedValue(
                        t.type_hash,
                        crate::reflect::AdfReflectedPrimitive::InlineArray(vs),
                    ),
                ),
                Err(e) => Err(e),
            },
            AdfPrimitive::String => {
                let data = crate::bytes::copy_range(self.value.as_slice(), 0, self.value.len());
                assert(data@ =~= self.value@);
                Ok(
                    crate::reflect::AdfReflectedValue(
                        t.type_hash,
                        crate::reflect::AdfReflectedPrimitive::StringData(data),
                    ),
                )
            },
            AdfPrimitive::Recursive => Err(AdfXmlError::Unsupported),
            AdfPrimitive::Bitfield => match scalar_value(self.value.as_slice(), t) {
                Ok(sc) => Ok(
                    crate::reflect::AdfReflectedValue(
                        t.type_hash,
                        crate::reflect::AdfReflectedPrimitive::Bitfield(sc),
                    ),
                ),
                Err(e) => Err(e),
            },
            AdfPrimitive::Enumeration => match scalar_value(self.value.as_slice(), t) {
                Ok(sc) => Ok(
                    crate::reflect::AdfReflectedValue(
                        t.type_hash,
                        crate::reflect::AdfReflectedPrimitive::Enumeration(sc),
                    ),
                ),
                Err(e) => Err(e),
            },
            AdfPrimitive::StringHash => match scalar_value(self.value.as_slice(), t) {
                Ok(sc) => Ok(
                    crate::reflect::AdfReflectedValue(
                        t.type_hash,
                        crate::reflect::AdfReflectedPrimitive::StringHash(sc),
                    ),
                ),
                Err(e) => Err(e),
            },
            AdfPrimitive::Deferred => {
                if self.values.len() == 0 {
                    return Err(AdfXmlError::BadShape);
                }
                match self.values[0].to_value(types, context, fuel - 1) {
                    Ok(inner) => Ok(
                        crate::reflect::AdfReflectedValue(
                            t.type_hash,
                            crate::reflect::AdfReflectedPrimitive::Deferred(Box::new(inner)),
                        ),
                    ),
                    Err(e) => Err(e),
                }
            },
        }
    }

    /// Rebuild every child node, in order.
    fn to_values(
        vs: &Vec<AdfXmlValue>,
        types: &Vec<AdfXmlType>,
        context: &AdfReflectionContext,
        fuel: u64,
    ) -> (r: Result<Vec<crate::reflect::AdfReflectedValue>, AdfXmlError>)
        ensures
            r matches Ok(cs) ==> spec_to_values(
                spec_ctx_view(*context),
                types@,
                vs@,
                0,
                fuel as nat,
            ) == Ok::<Seq<crate::reflect::AdfReflectedValueView>, AdfXmlError>(
                crate::reflect::spec_values_view(cs@),
            ),
            r matches Err(e) ==> spec_to_values(
                spec_ctx_view(*context),
                types@,
                vs@,
                0,
                fuel as nat,
            ) == Err::<Seq<crate::reflect::AdfReflectedValueView>, AdfXmlError>(e),
        decreases fuel, 2int,
    {
        let ghost ctxv = spec_ctx_view(*context);
        let n = vs.len();
        let mut out: Vec<crate::reflect::AdfReflectedValue> = Vec::new();
        let mut i: usize = 0;
        while i < n
            invariant
                i <= n,
                n == vs@.len(),
                ctxv == spec_ctx_view(*context),
                match spec_to_values(ctxv, types@, vs@, i as int, fuel as nat) {
                    Ok(rest) => spec_to_values(ctxv, types@, vs@, 0, fuel as nat) == Ok::<
                        Seq<crate::reflect::AdfReflectedValueView>,
                        AdfXmlError,
                    >(crate::reflect::spec_values_view(out@) + rest),
                    Err(x) => spec_to_values(ctxv, types@, vs@, 0, fuel as nat) == Err::<
                        Seq<crate::reflect::AdfReflectedValueView>,
                        AdfXmlError,
                    >(x),
                },
            decreases n - i,
        {
            let res = vs[i].to_value(types, context, fuel);
            let v = match res {
                Ok(v) => v,
                Err(e) => {
                    return Err(e);
                },
            };
            let ghost c0 = crate::reflect::spec_values_view(out@);
            let ghost cb = out@;
            out.push(v);
            proof {
                crate::reflect::lemma_values_view_push(cb, out@.last());
                assert(out@ =~= cb.push(out@.last()));
                let nxt = spec_to_values(ctxv, types@, vs@, i + 1 as int, fuel as nat);
                if nxt is Ok {
                    let rest = nxt->Ok_0;
                    assert(c0 + (seq![out@.last()@] + rest) =~= crate::reflect::spec_values_view(
                        out@,
                    ) + rest);
                }
            }
            i = i + 1;
        }
        proof {
            assert(spec_to_values(ctxv, types@, vs@, n as int, fuel as nat) == Ok::<
                Seq<crate::reflect::AdfReflectedValueView>,
                AdfXmlError,
            >(Seq::empty()));
            assert(crate::reflect::spec_values_view(out@)
                + Seq::<crate::reflect::AdfReflectedValueView>::empty()
                =~= crate::reflect::spec_values_view(out@));
        }
        Ok(out)
    }
}

/// A found display name really names the entry at the found position.
pub proof fn lemma_find_xml_type_found(ts: Seq<AdfXmlType>, name: Seq<u8>, j: int)
    requires
        0 <= j,
        spec_find_xml_type(ts, name, j) < ts.len(),
    ensures
        j <= spec_find_xml_type(ts, name, j),
        ts[spec_find_xml_type(ts, name, j)].type_label@ == name,
    decreases ts.len() - j,
{
    if j < ts.len() && ts[j].type_label@ != name {
        lemma_find_xml_type_found(ts, name, j + 1);
    }
}


/// A type definition with its member default values cleared, as embedded
/// type tables are written.
pub open spec fn spec_cleared_members(ms: Seq<crate::types::AdfMemberView>, n: int) -> Seq<
    crate::types::AdfMemberView,
> {
    Seq::new(
        if n >= 0 {
            n as nat
        } else {
            0
        },
        |i: int|
            crate::types::AdfMemberView {
                value: crate::types::AdfMemberValue::UninitializedValue,
                ..ms[i]
            },
    )
}

pub open spec fn spec_clear_defaults(t: AdfTypeView) -> AdfTypeView {
    AdfTypeView { members: spec_cleared_members(t.members, t.members.len() as int), ..t }
}

/// The embedded type table a re-import writes: each listed hash resolved in
/// the registry, scalar, string and deferred definitions left to the
/// built-in tables, and member defaults cleared.
pub open spec fn spec_convert_types(
    ts: Seq<AdfTypeView>,
    tl: Seq<AdfXmlType>,
    i: int,
) -> Result<Seq<AdfTypeView>, AdfXmlError>
    decreases tl.len() - i,
{
    if i < 0 || i >= tl.len() {
        Ok(Seq::empty())
    } else {
        match spec_lookup_from(ts, tl[i].type_hash, 0) {
            None => Err(AdfXmlError::UnknownType(tl[i].type_hash)),
            Some(t) => match spec_convert_types(ts, tl, i + 1) {
                Ok(rest) => {
                    if t.primitive == AdfPrimitive::Scalar || t.primitive == AdfPrimitive::String
                        || t.primitive == AdfPrimitive::Deferred {
                        Ok(rest)
                    } else {
                        Ok(seq![spec_clear_defaults(t)] + rest)
                    }
                },
                Err(e) => Err(e),
            },
        }
    }
}

/// The file a rebuild starts from: an empty container carrying the
/// embedded type table when the projection brought one.
pub open spec fn spec_rebuild_base(
    ctxv: Seq<AdfTypeView>,
    embedded: bool,
    tl: Seq<AdfXmlType>,
) -> crate::types::AdfFileView {
    crate::types::AdfFileView {
        version: crate::types::AdfVersion::V4,
        instances: Seq::empty(),
        types: if embedded {
            spec_convert_types(ctxv, tl, 0)->Ok_0
        } else {
            Seq::empty()
        },
        hashes: Seq::empty(),
        description: Seq::empty(),
    }
}

/// A sequence of rebuilt values standing for the projection's leading
/// nodes: each entry's view is exactly what its node rebuilds to.
pub open spec fn spec_rebuilt_vals(
    ctxv: Seq<AdfTypeView>,
    tl: Seq<AdfXmlType>,
    nodes: Seq<AdfXmlValue>,
    vals: Seq<crate::reflect::AdfReflectedValue>,
    fuel: nat,
) -> bool {
    &&& vals.len() <= nodes.len()
    &&& forall|j: int|
        0 <= j < vals.len() ==> spec_to_value(ctxv, tl, nodes[j], fuel) == Ok::<
            crate::reflect::AdfReflectedValueView,
            AdfXmlError,
        >((#[trigger] vals[j])@)
}

/// The container a projection folds to, node by node from a base file:
/// each node in order must carry a name and rebuild to a value, and that
/// value is packed into the file under the node's name. A node without a
/// name, or a rebuilt value the engine cannot pack, stops the fold with
/// a shape error; a node that does not rebuild stops it with that error.
pub open spec fn spec_rebuild_file(
    ctxv: Seq<AdfTypeView>,
    tl: Seq<AdfXmlType>,
    nodes: Seq<AdfXmlValue>,
    vals: Seq<crate::reflect::AdfReflectedValue>,
    k: int,
    f: crate::types::AdfFileView,
    fuel: nat,
) -> Result<crate::types::AdfFileView, AdfXmlError>
    decreases nodes.len() - k,
{
    if k < 0 || k >= nodes.len() {
        Ok(f)
    } else if nodes[k].name is None {
        Err(AdfXmlError::BadShape)
    } else {
        match spec_to_value(ctxv, tl, nodes[k], fuel) {
            Err(e) => Err(e),
            Ok(vv) => match crate::reflect::spec_write_instance(
                ctxv,
                nodes[k].name->Some_0@,
                vals[k],
                f,
            ) {
                Ok(f2) => spec_rebuild_file(ctxv, tl, nodes, vals, k + 1, f2, fuel),
                Err(_) => Err(AdfXmlError::BadShape),
            },
        }
    }
}

/// An extension-closed rebuild split: the fold from the start equals the
/// fold from position `k` on the accumulated file, whatever values follow.
#[verifier::opaque]
pub open spec fn spec_rebuild_split(
    ctxv: Seq<AdfTypeView>,
    tl: Seq<AdfXmlType>,
    nodes: Seq<AdfXmlValue>,
    gvals: Seq<crate::reflect::AdfReflectedValue>,
    k: int,
    base: crate::types::AdfFileView,
    acc: crate::types::AdfFileView,
    fuel: nat,
) -> bool {
    forall|rest: Seq<crate::reflect::AdfReflectedValue>|
        #[trigger] spec_rebuild_file(ctxv, tl, nodes, gvals + rest, 0, base, fuel)
            == spec_rebuild_file(ctxv, tl, nodes, gvals + rest, k, acc, fuel)
}

/// The split holds trivially before any node is folded.
proof fn lemma_rebuild_split_init(
    ctxv: Seq<AdfTypeView>,
    tl: Seq<AdfXmlType>,
    nodes: Seq<AdfXmlValue>,
    base: crate::types::AdfFileView,
    fuel: nat,
)
    ensures
        spec_rebuild_split(
            ctxv,
            tl,
            nodes,
            Seq::<crate::reflect::AdfReflectedValue>::empty(),
            0,
            base,
            base,
            fuel,
        ),
{
    reveal(spec_rebuild_split);
}

/// A split instantiated on the accumulated values alone.
proof fn lemma_rebuild_split_close(
    ctxv: Seq<AdfTypeView>,
    tl: Seq<AdfXmlType>,
    nodes: Seq<AdfXmlValue>,
    gvals: Seq<crate::reflect::AdfReflectedValue>,
    k: int,
    base: crate::types::AdfFileView,
    acc: crate::types::AdfFileView,
    fuel: nat,
)
    requires
        spec_rebuild_split(ctxv, tl, nodes, gvals, k, base, acc, fuel),
    ensures
        spec_rebuild_file(ctxv, tl, nodes, gvals, 0, base, fuel) == spec_rebuild_file(
            ctxv,
            tl,
            nodes,
            gvals,
            k,
            acc,
            fuel,
        ),
{
    reveal(spec_rebuild_split);
    let empty = Seq::<crate::reflect::AdfReflectedValue>::empty();
    assert(gvals + empty =~= gvals);
    assert(spec_rebuild_file(ctxv, tl, nodes, gvals + empty, 0, base, fuel)
        == spec_rebuild_file(ctxv, tl, nodes, gvals + empty, k, acc, fuel));
}

/// A split instantiated on the accumulated values and one more.
proof fn lemma_rebuild_split_close_push(
    ctxv: Seq<AdfTypeView>,
    tl: Seq<AdfXmlType>,
    nodes: Seq<AdfXmlValue>,
    gvals: Seq<crate::reflect::AdfReflectedValue>,
    v: crate::reflect::AdfReflectedValue,
    k: int,
    base: crate::types::AdfFileView,
    acc: crate::types::AdfFileView,
    fuel: nat,
)
    requires
        spec_rebuild_split(ctxv, tl, nodes, gvals, k, base, acc, fuel),
    ensures
        spec_rebuild_file(ctxv, tl, nodes, gvals.push(v), 0, base, fuel) == spec_rebuild_file(
            ctxv,
            tl,
            nodes,
            gvals.push(v),
            k,
            acc,
            fuel,
        ),
{
    reveal(spec_rebuild_split);
    assert(gvals + seq![v] =~= gvals.push(v));
    assert(spec_rebuild_file(ctxv, tl, nodes, gvals + seq![v], 0, base, fuel)
        == spec_rebuild_file(ctxv, tl, nodes, gvals + seq![v], k, acc, fuel));
}

/// One successful node carries the split one position forward.
proof fn lemma_rebuild_split_step(
    ctxv: Seq<AdfTypeView>,
    tl: Seq<AdfXmlType>,
    nodes: Seq<AdfXmlValue>,
    gvals: Seq<crate::reflect::AdfReflectedValue>,
    v: crate::reflect::AdfReflectedValue,
    k: int,
    base: crate::types::AdfFileView,
    acc: crate::types::AdfFileView,
    acc2: crate::types::AdfFileView,
    fuel: nat,
)
    requires
        spec_rebuild_split(ctxv, tl, nodes, gvals, k, base, acc, fuel),
        0 <= k < nodes.len(),
        gvals.len() == k,
        nodes[k].name is Some,
        spec_to_value(ctxv, tl, nodes[k], fuel) is Ok,
        crate::reflect::spec_write_instance(ctxv, nodes[k].name->Some_0@, v, acc) == Ok::<
            crate::types::AdfFileView,
            crate::reflect::AdfReflectError,
        >(acc2),
    ensures
        spec_rebuild_split(ctxv, tl, nodes, gvals.push(v), k + 1, base, acc2, fuel),
{
    reveal(spec_rebuild_split);
    assert forall|rest: Seq<crate::reflect::AdfReflectedValue>|
        #[trigger] spec_rebuild_file(ctxv, tl, nodes, gvals.push(v) + rest, 0, base, fuel)
            == spec_rebuild_file(ctxv, tl, nodes, gvals.push(v) + rest, k + 1, acc2, fuel) by {
        assert(gvals.push(v) + rest =~= gvals + (seq![v] + rest));
        assert(spec_rebuild_file(ctxv, tl, nodes, gvals + (seq![v] + rest), 0, base, fuel)
            == spec_rebuild_file(ctxv, tl, nodes, gvals + (seq![v] + rest), k, acc, fuel));
        assert((gvals.push(v) + rest)[k] == v);
        assert(spec_rebuild_file(ctxv, tl, nodes, gvals.push(v) + rest, k, acc, fuel)
            == spec_rebuild_file(ctxv, tl, nodes, gvals.push(v) + rest, k + 1, acc2, fuel));
    }
}

impl AdfXml {
    /// Rebuild a container file from a projection: the embedded type table
    /// is copied out of the registry with member defaults cleared, and each
    /// projected instance is rebuilt and packed in order under its name.
    /// Every node must carry a name, rebuild, and pack; otherwise the
    /// rebuild fails at the first offending node and nothing is produced.
    #[verifier::rlimit(100)]
    pub fn convert(
        &self,
        context: &AdfReflectionContext,
        fuel: u64,
    ) -> (r: Result<crate::types::AdfFile, AdfXmlError>)
        ensures
            r matches Ok(out) ==> ({
                &&& out@.version == crate::types::AdfVersion::V4
                &&& out@.hashes =~= Seq::<u32>::empty()
                &&& out@.description =~= Seq::<u8>::empty()
                &&& out@.types == if self.embedded_types {
                    spec_convert_types(spec_ctx_view(*context), self.types@, 0)->Ok_0
                } else {
                    Seq::<AdfTypeView>::empty()
                }
                &&& (self.embedded_types ==> spec_convert_types(
                    spec_ctx_view(*context),
                    self.types@,
                    0,
                ) is Ok)
                &&& exists|vals: Seq<crate::reflect::AdfReflectedValue>|
                    vals.len() == self.instances@.len() && #[trigger] spec_rebuilt_vals(
                        spec_ctx_view(*context),
                        self.types@,
                        self.instances@,
                        vals,
                        fuel as nat,
                    ) && spec_rebuild_file(
                        spec_ctx_view(*context),
                        self.types@,
                        self.instances@,
                        vals,
                        0,
                        spec_rebuild_base(
                            spec_ctx_view(*context),
                            self.embedded_types,
                            self.types@,
                        ),
                        fuel as nat,
                    ) == Ok::<crate::types::AdfFileView, AdfXmlError>(out@)
            }),
            r matches Err(e) ==> ({
                ||| (self.embedded_types && spec_convert_types(
                    spec_ctx_view(*context),
                    self.types@,
                    0,
                ) == Err::<Seq<AdfTypeView>, AdfXmlError>(e))
                ||| exists|vals: Seq<crate::reflect::AdfReflectedValue>|
                    #[trigger] spec_rebuilt_vals(
                        spec_ctx_view(*context),
                        self.types@,
                        self.instances@,
                        vals,
                        fuel as nat,
                    ) && spec_rebuild_file(
                        spec_ctx_view(*context),
                        self.types@,
                        self.instances@,
                        vals,
                        0,
                        spec_rebuild_base(
                            spec_ctx_view(*context),
                            self.embedded_types,
                            self.types@,
                        ),
                        fuel as nat,
                    ) == Err::<crate::types::AdfFileView, AdfXmlError>(e)
            }),
    {
        let ghost ctxv = spec_ctx_view(*context);
        let ghost tl = self.types@;
        let ghost nodes = self.instances@;
        let mut out = crate::types::AdfFile::default();
        if self.embedded_types {
            match Self::convert_types(&self.types, context) {
                Ok(ts) => {
                    out.types = ts;
                },
                Err(e) => {
                    return Err(e);
                },
            }
        }
        let ghost base = spec_rebuild_base(ctxv, self.embedded_types, tl);
        proof {
            assert(out@ =~= base);
            lemma_rebuild_split_init(ctxv, tl, nodes, base, fuel as nat);
        }
        let ghost mut gvals: Seq<crate::reflect::AdfReflectedValue> = Seq::empty();
        let n = self.instances.len();
        let mut k: usize = 0;
        while k < n
            invariant
                k <= n,
                n == self.instances@.len(),
                ctxv == spec_ctx_view(*context),
                tl == self.types@,
                nodes == self.instances@,
                base == spec_rebuild_base(ctxv, self.embedded_types, tl),
                out@.version == crate::types::AdfVersion::V4,
                out@.hashes =~= Seq::<u32>::empty(),
                out@.description =~= Seq::<u8>::empty(),
                out@.types == if self.embedded_types {
                    spec_convert_types(ctxv, self.types@, 0)->Ok_0
                } else {
                    Seq::<AdfTypeView>::empty()
                },
                self.embedded_types ==> spec_convert_types(ctxv, self.types@, 0) is Ok,
                gvals.len() == k,
                spec_rebuilt_vals(ctxv, tl, nodes, gvals, fuel as nat),
                spec_rebuild_split(ctxv, tl, nodes, gvals, k as int, base, out@, fuel as nat),
            decreases n - k,
        {
            let node = &self.instances[k];
            let name: &Vec<u8> = match &node.name {
                Some(nm) => nm,
                None => {
                    proof {
                        lemma_rebuild_split_close(
                            ctxv,
                            tl,
                            nodes,
                            gvals,
                            k as int,
                            base,
                            out@,
                            fuel as nat,
                        );
                        assert(spec_rebuild_file(ctxv, tl, nodes, gvals, k as int, out@, fuel as nat)
                            == Err::<crate::types::AdfFileView, AdfXmlError>(AdfXmlError::BadShape));
                    }
                    return Err(AdfXmlError::BadShape);
                },
            };
            let value = match node.to_value(&self.types, context, fuel) {
                Ok(v) => v,
                Err(e) => {
                    proof {
                        lemma_rebuild_split_close(
                            ctxv,
                            tl,
                            nodes,
                            gvals,
                            k as int,
                            base,
                            out@,
                            fuel as nat,
                        );
                        assert(spec_rebuild_file(ctxv, tl, nodes, gvals, k as int, out@, fuel as nat)
                            == Err::<crate::types::AdfFileView, AdfXmlError>(e));
                    }
                    return Err(e);
                },
            };
            let ghost prevout = out@;
            let res = context.write_instance(name.as_slice(), &value, &mut out);
            let ghost g2 = gvals.push(value);
            proof {
                assert(nodes[k as int].name->Some_0@ == name@);
                assert forall|j: int| 0 <= j < g2.len() implies spec_to_value(
                    ctxv,
                    tl,
                    nodes[j],
                    fuel as nat,
                ) == Ok::<crate::reflect::AdfReflectedValueView, AdfXmlError>(
                    (#[trigger] g2[j])@,
                ) by {
                    if j < k {
                        assert(g2[j] == gvals[j]);
                    } else {
                        assert(g2[j] == value);
                    }
                }
                assert(spec_rebuilt_vals(ctxv, tl, nodes, g2, fuel as nat));
            }
            if res.is_err() {
                // a value that was rebuilt from text but cannot be packed
                // leaves the rebuild without a file
                proof {
                    lemma_rebuild_split_close_push(
                        ctxv,
                        tl,
                        nodes,
                        gvals,
                        value,
                        k as int,
                        base,
                        out@,
                        fuel as nat,
                    );
                    assert(g2[k as int] == value);
                    assert(spec_rebuild_file(ctxv, tl, nodes, g2, k as int, out@, fuel as nat)
                        == Err::<crate::types::AdfFileView, AdfXmlError>(AdfXmlError::BadShape));
                }
                return Err(AdfXmlError::BadShape);
            }
            proof {
                lemma_rebuild_split_step(
                    ctxv,
                    tl,
                    nodes,
                    gvals,
                    value,
                    k as int,
                    base,
                    prevout,
                    out@,
                    fuel as nat,
                );
                gvals = g2;
            }
            k = k + 1;
        }
        proof {
            lemma_rebuild_split_close(ctxv, tl, nodes, gvals, n as int, base, out@, fuel as nat);
            assert(spec_rebuild_file(ctxv, tl, nodes, gvals, n as int, out@, fuel as nat) == Ok::<
                crate::types::AdfFileView,
                AdfXmlError,
            >(out@));
        }
        Ok(out)
    }

    /// Copy the listed types out of the registry for embedding, skipping the
    /// built-in scalar, string and deferred definitions and clearing member
    /// defaults.
    fn convert_types(
        tl: &Vec<AdfXmlType>,
        context: &AdfReflectionContext,
    ) -> (r: Result<Vec<crate::types::AdfType>, AdfXmlError>)
        ensures
            r matches Ok(ts) ==> spec_convert_types(spec_ctx_view(*context), tl@, 0) == Ok::<
                Seq<AdfTypeView>,
                AdfXmlError,
            >(ts@.map_values(|t: crate::types::AdfType| t@)),
            r matches Err(e) ==> spec_convert_types(spec_ctx_view(*context), tl@, 0) == Err::<
                Seq<AdfTypeView>,
                AdfXmlError,
            >(e),
    {
        let ghost ctxv = spec_ctx_view(*context);
        let n = tl.len();
        let mut out: Vec<crate::types::AdfType> = Vec::new();
        let mut i: usize = 0;
        while i < n
            invariant
                i <= n,
                n == tl@.len(),
                ctxv == spec_ctx_view(*context),
                match spec_convert_types(ctxv, tl@, i as int) {
                    Ok(rest) => spec_convert_types(ctxv, tl@, 0) == Ok::<
                        Seq<AdfTypeView>,
                        AdfXmlError,
                    >(out@.map_values(|t: crate::types::AdfType| t@) + rest),
                    Err(x) => spec_convert_types(ctxv, tl@, 0) == Err::<
                        Seq<AdfTypeView>,
                        AdfXmlError,
                    >(x),
                },
            decreases n - i,
        {
            let t = match context.get_type(tl[i].type_hash) {
                Some(t) => t,
                None => {
                    return Err(AdfXmlError::UnknownType(tl[i].type_hash));
                },
            };
            let keep = !(matches!(t.primitive, AdfPrimitive::Scalar) || matches!(
                t.primitive,
                AdfPrimitive::String,
            ) || matches!(t.primitive, AdfPrimitive::Deferred));
            if keep {
                let cleared = clear_member_defaults(t);
                let ghost c0 = out@.map_values(|t: crate::types::AdfType| t@);
                let ghost cb = out@;
                out.push(cleared);
                proof {
                    assert(out@ =~= cb.push(out@.last()));
                    assert(out@.map_values(|t: crate::types::AdfType| t@) =~= c0.push(
                        out@.last()@,
                    ));
                    let nxt = spec_convert_types(ctxv, tl@, i + 1 as int);
                    if nxt is Ok {
                        let rest = nxt->Ok_0;
                        assert(c0 + (seq![out@.last()@] + rest) =~= out@.map_values(
                            |t: crate::types::AdfType| t@,
                        ) + rest);
                    }
                }
            }
            i = i + 1;
        }
        proof {
            assert(spec_convert_types(ctxv, tl@, n as int) == Ok::<Seq<AdfTypeView>, AdfXmlError>(
                Seq::empty(),
            ));
            assert(out@.map_values(|t: crate::types::AdfType| t@) + Seq::<AdfTypeView>::empty()
                =~= out@.map_values(|t: crate::types::AdfType| t@));
        }
        Ok(out)
    }
}

/// A copy of a type with every member's default value cleared.
fn clear_member_defaults(t: &crate::types::AdfType) -> (r: crate::types::AdfType)
    ensures
        r@ == spec_clear_defaults(t@),
{
    let mut members: Vec<crate::types::AdfMember> = Vec::new();
    let nm = t.members.len();
    let mut i: usize = 0;
    while i < nm
        invariant
            i <= nm,
            nm == t.members@.len(),
            members@.map_values(|m: crate::types::AdfMember| m@) =~= spec_cleared_members(
                t@.members,
                i as int,
            ),
        decreases nm - i,
    {
        let m = &t.members[i];
        let c = crate::types::AdfMember {
            name: crate::bytes::copy_range(m.name.as_slice(), 0, m.name.len()),
            type_hash: m.type_hash,
            alignment: m.alignment,
            offsets: m.offsets,
            value: crate::types::AdfMemberValue::UninitializedValue,
        };
        proof {
            assert(c@.name =~= t@.members[i as int].name);
            assert(c@ == (crate::types::AdfMemberView {
                value: crate::types::AdfMemberValue::UninitializedValue,
                ..t@.members[i as int]
            }));
        }
        let ghost prev = members@.map_values(|m: crate::types::AdfMember| m@);
        let ghost cv = c@;
        members.push(c);
        proof {
            assert(members@.map_values(|m: crate::types::AdfMember| m@) =~= prev.push(cv));
            assert(spec_cleared_members(t@.members, i + 1 as int) =~= spec_cleared_members(
                t@.members,
                i as int,
            ).push(cv));
        }
        i = i + 1;
    }
    let r = crate::types::AdfType {
        primitive: t.primitive,
        size: t.size,
        alignment: t.alignment,
        type_hash: t.type_hash,
        name: crate::bytes::copy_range(t.name.as_slice(), 0, t.name.len()),
        flags: t.flags,
        scalar_type: t.scalar_type,
        element_type_hash: t.element_type_hash,
        element_length: t.element_length,
        members: members,
        enumerations: clone_enums(&t.enumerations),
    };
    assert(r@.name =~= t@.name);
    assert(r@.enumerations =~= t@.enumerations);
    assert(r@.members =~= spec_clear_defaults(t@).members);
    r
}

fn clone_enums(es: &Vec<crate::types::AdfEnum>) -> (r: Vec<crate::types::AdfEnum>)
    ensures
        r@.map_values(|e: crate::types::AdfEnum| e@) == es@.map_values(
            |e: crate::types::AdfEnum| e@,
        ),
{
    let n = es.len();
    let mut r: Vec<crate::types::AdfEnum> = Vec::new();
    let mut i: usize = 0;
    while i < n
        invariant
            i <= n,
            n == es@.len(),
            r@.map_values(|e: crate::types::AdfEnum| e@) =~= es@.map_values(
                |e: crate::types::AdfEnum| e@,
            ).take(i as int),
        decreases n - i,
    {
        let e = &es[i];
        let c = crate::types::AdfEnum {
            name: crate::bytes::copy_range(e.name.as_slice(), 0, e.name.len()),
            value: e.value,
        };
        proof {
            assert(c@.name =~= es@[i as int]@.name);
            assert(c@ == es@[i as int]@);
        }
        let ghost prev = r@.map_values(|e: crate::types::AdfEnum| e@);
        let ghost cv = c@;
        r.push(c);
        proof {
            assert(r@.map_values(|e: crate::types::AdfEnum| e@) =~= prev.push(cv));
            assert(es@.map_values(|e: crate::types::AdfEnum| e@).take(i + 1 as int)
                =~= es@.map_values(|e: crate::types::AdfEnum| e@).take(i as int).push(cv));
        }
        i = i + 1;
    }
    assert(es@.map_values(|e: crate::types::AdfEnum| e@).take(n as int) =~= es@.map_values(
        |e: crate::types::AdfEnum| e@,
    ));
    r
}


/// Byte-lexicographic order on names: a prefix sorts before its extensions.
pub open spec fn spec_lex_le(a: Seq<u8>, b: Seq<u8>) -> bool
    decreases a.len(),
{
    if a.len() == 0 {
        true
    } else if b.len() == 0 {
        false
    } else if a[0] < b[0] {
        true
    } else if a[0] > b[0] {
        false
    } else {
        spec_lex_le(a.drop_first(), b.drop_first())
    }
}

pub fn lex_le(a: &[u8], b: &[u8]) -> (r: bool)
    ensures
        r == spec_lex_le(a@, b@),
{
    let na = a.len();
    let nb = b.len();
    let mut k: usize = 0;
    proof {
        assert(a@.skip(0) =~= a@);
        assert(b@.skip(0) =~= b@);
    }
    loop
        invariant
            k <= na,
            k <= nb,
            na == a@.len(),
            nb == b@.len(),
            spec_lex_le(a@, b@) == spec_lex_le(a@.skip(k as int), b@.skip(k as int)),
        ensures
            spec_lex_le(a@, b@) == spec_lex_le(a@.skip(k as int), b@.skip(k as int)),
            k <= na && k <= nb,
            k == na || k == nb || a@[k as int] != b@[k as int],
        decreases na - k,
    {
        if k == na || k == nb {
            break ;
        }
        if a[k] != b[k] {
            break ;
        }
        proof {
            assert(a@.skip(k as int)[0] == a@[k as int]);
            assert(b@.skip(k as int)[0] == b@[k as int]);
            assert(a@.skip(k as int).drop_first() =~= a@.skip(k + 1 as int));
            assert(b@.skip(k as int).drop_first() =~= b@.skip(k + 1 as int));
        }
        k = k + 1;
    }
    proof {
        if k < na {
            assert(a@.skip(k as int)[0] == a@[k as int]);
        }
        if k < nb {
            assert(b@.skip(k as int)[0] == b@[k as int]);
        }
        if k == na {
            assert(a@.skip(k as int).len() == 0);
        } else if k == nb {
            assert(b@.skip(k as int).len() == 0);
        }
    }
    if k == na {
        true
    } else if k == nb {
        false
    } else {
        a[k] < b[k]
    }
}

/// A projection type list that is ready to emit: adjacent entries sorted by
/// display name, all hashes distinct, and every label the display name its
/// hash resolves to.
pub open spec fn spec_xml_types_wf(ts: Seq<AdfXmlType>, ctxv: Seq<AdfTypeView>) -> bool {
    &&& (forall|i: int|
        0 <= i && i + 1 < ts.len() ==> spec_lex_le(
            (#[trigger] ts[i]).type_label@,
            ts[i + 1].type_label@,
        ))
    &&& (forall|i: int, j: int|
        0 <= i < j < ts.len() ==> (#[trigger] ts[i]).type_hash != (#[trigger] ts[j]).type_hash)
    &&& (forall|i: int|
        0 <= i < ts.len() ==> spec_display_name(ctxv, (#[trigger] ts[i]).type_hash, ADF_NAME_FUEL as nat)
            == Some(ts[i].type_label@))
}

/// A hash that the projection's type list carries.
pub open spec fn spec_hash_listed(ts: Seq<AdfXmlType>, h: u32) -> bool {
    exists|t: int| 0 <= t < ts.len() && (#[trigger] ts[t]).type_hash == h
}

/// A type hash that a value tree uses: the root's own type, or one used
/// below it by a member, an element, or an indirection's target.
pub open spec fn spec_tree_uses(v: AdfReflectedValue, h: u32) -> bool
    decreases v,
    via spec_tree_uses_decreases
{
    ||| v.0 == h
    ||| match v.1 {
        AdfReflectedPrimitive::Structure(vs) => spec_trees_use(vs@, h),
        AdfReflectedPrimitive::Array(vs) => spec_trees_use(vs@, h),
        AdfReflectedPrimitive::InlineArray(vs) => spec_trees_use(vs@, h),
        AdfReflectedPrimitive::Pointer(b) => spec_tree_uses(*b, h),
        AdfReflectedPrimitive::Deferred(b) => spec_tree_uses(*b, h),
        _ => false,
    }
}

#[via_fn]
proof fn spec_tree_uses_decreases(v: AdfReflectedValue, h: u32) {
    match v.1 {
        AdfReflectedPrimitive::Structure(vs) => {
            assert(decreases_to!(v => vs));
            assert(decreases_to!(vs => vs@));
        },
        AdfReflectedPrimitive::Array(vs) => {
            assert(decreases_to!(v => vs));
            assert(decreases_to!(vs => vs@));
        },
        AdfReflectedPrimitive::InlineArray(vs) => {
            assert(decreases_to!(v => vs));
            assert(decreases_to!(vs => vs@));
        },
        _ => {},
    }
}

pub open spec fn spec_trees_use(vs: Seq<AdfReflectedValue>, h: u32) -> bool
    decreases vs, vs.len(),
{
    if vs.len() <= 0 {
        false
    } else {
        spec_tree_uses(vs[0], h) || spec_trees_use(vs.drop_first(), h)
    }
}

/// A list of trees uses a hash exactly when one of its trees does.
proof fn lemma_trees_use_exists(vs: Seq<AdfReflectedValue>, h: u32)
    ensures
        spec_trees_use(vs, h) == exists|j: int|
            0 <= j < vs.len() && spec_tree_uses(#[trigger] vs[j], h),
    decreases vs.len(),
{
    if vs.len() > 0 {
        lemma_trees_use_exists(vs.drop_first(), h);
        if spec_trees_use(vs, h) {
            if spec_tree_uses(vs[0], h) {
            } else {
                let j = choose|j: int|
                    0 <= j < vs.drop_first().len() && spec_tree_uses(
                        #[trigger] vs.drop_first()[j],
                        h,
                    );
                assert(vs.drop_first()[j] == vs[j + 1]);
            }
        }
        if exists|j: int| 0 <= j < vs.len() && spec_tree_uses(#[trigger] vs[j], h) {
            let j = choose|j: int| 0 <= j < vs.len() && spec_tree_uses(#[trigger] vs[j], h);
            if j > 0 {
                assert(vs.drop_first()[j - 1] == vs[j]);
            }
        }
    }
}

/// The hashes a tree uses are fixed by the tree's view.
proof fn lemma_tree_uses_view(a: AdfReflectedValue, b: AdfReflectedValue, h: u32)
    requires
        a@ == b@,
    ensures
        spec_tree_uses(a, h) == spec_tree_uses(b, h),
    decreases a, 1int,
{
    assert(a.0 == b.0);
    match (a.1, b.1) {
        (AdfReflectedPrimitive::Structure(va), AdfReflectedPrimitive::Structure(vb)) => {
            assert(decreases_to!(a => va));
            assert(decreases_to!(va => va@));
            lemma_seq_views_pointwise(va@, vb@);
            lemma_trees_use_view(va@, vb@, h);
        },
        (AdfReflectedPrimitive::Array(va), AdfReflectedPrimitive::Array(vb)) => {
            assert(decreases_to!(a => va));
            assert(decreases_to!(va => va@));
            lemma_seq_views_pointwise(va@, vb@);
            lemma_trees_use_view(va@, vb@, h);
        },
        (AdfReflectedPrimitive::InlineArray(va), AdfReflectedPrimitive::InlineArray(vb)) => {
            assert(decreases_to!(a => va));
            assert(decreases_to!(va => va@));
            lemma_seq_views_pointwise(va@, vb@);
            lemma_trees_use_view(va@, vb@, h);
        },
        (AdfReflectedPrimitive::Pointer(ba), AdfReflectedPrimitive::Pointer(bb)) => {
            lemma_tree_uses_view(*ba, *bb, h);
        },
        (AdfReflectedPrimitive::Deferred(ba), AdfReflectedPrimitive::Deferred(bb)) => {
            lemma_tree_uses_view(*ba, *bb, h);
        },
        _ => {},
    }
}

proof fn lemma_trees_use_view(va: Seq<AdfReflectedValue>, vb: Seq<AdfReflectedValue>, h: u32)
    requires
        va.len() == vb.len(),
        forall|j: int| 0 <= j < va.len() ==> (#[trigger] va[j])@ == vb[j]@,
    ensures
        spec_trees_use(va, h) == spec_trees_use(vb, h),
    decreases va, 0int,
{
    lemma_trees_use_exists(va, h);
    lemma_trees_use_exists(vb, h);
    if spec_trees_use(va, h) {
        let j = choose|j: int| 0 <= j < va.len() && spec_tree_uses(#[trigger] va[j], h);
        lemma_tree_uses_view(va[j], vb[j], h);
    }
    if spec_trees_use(vb, h) {
        let j = choose|j: int| 0 <= j < vb.len() && spec_tree_uses(#[trigger] vb[j], h);
        lemma_tree_uses_view(va[j], vb[j], h);
    }
}

/// Insert one labeled hash into a sorted, duplicate-free type list; a hash
/// already listed leaves the list as it is.
#[verifier::rlimit(100)]
fn insert_xml_type(
    ts: &mut Vec<AdfXmlType>,
    label: Vec<u8>,
    type_hash: u32,
    context: &AdfReflectionContext,
)
    requires
        spec_xml_types_wf(old(ts)@, spec_ctx_view(*context)),
        spec_display_name(spec_ctx_view(*context), type_hash, ADF_NAME_FUEL as nat) == Some(
            label@,
        ),
    ensures
        spec_xml_types_wf(final(ts)@, spec_ctx_view(*context)),
        spec_hash_listed(final(ts)@, type_hash),
        forall|h: u32| spec_hash_listed(old(ts)@, h) ==> spec_hash_listed(final(ts)@, h),
{
    let ghost ctxv = spec_ctx_view(*context);
    let n = ts.len();
    let mut j: usize = 0;
    while j < n
        invariant
            j <= n,
            n == ts@.len(),
            ctxv == spec_ctx_view(*context),
            spec_xml_types_wf(ts@, ctxv),
            ts@ == old(ts)@,
            forall|k: int| 0 <= k < j ==> (#[trigger] ts@[k]).type_hash != type_hash,
        decreases n - j,
    {
        if ts[j].type_hash == type_hash {
            proof {
                assert(ts@[j as int].type_hash == type_hash);
            }
            return ;
        }
        j = j + 1;
    }
    // find the sorted position
    let mut p: usize = 0;
    while p < n
        invariant
            p <= n,
            n == ts@.len(),
            ctxv == spec_ctx_view(*context),
            spec_xml_types_wf(ts@, ctxv),
            ts@ == old(ts)@,
            forall|k: int| 0 <= k < n ==> (#[trigger] ts@[k]).type_hash != type_hash,
            forall|k: int| 0 <= k < p ==> spec_lex_le((#[trigger] ts@[k]).type_label@, label@),
        ensures
            p <= n,
            n == ts@.len(),
            ctxv == spec_ctx_view(*context),
            spec_xml_types_wf(ts@, ctxv),
            ts@ == old(ts)@,
            forall|k: int| 0 <= k < n ==> (#[trigger] ts@[k]).type_hash != type_hash,
            forall|k: int| 0 <= k < p ==> spec_lex_le((#[trigger] ts@[k]).type_label@, label@),
            p < n ==> !spec_lex_le(ts@[p as int].type_label@, label@),
        decreases n - p,
    {
        if !lex_le(ts[p].type_label.as_slice(), label.as_slice()) {
            break ;
        }
        p = p + 1;
    }
    proof {
        if p < n {
            assert(!spec_lex_le(ts@[p as int].type_label@, label@));
            lemma_lex_total(ts@[p as int].type_label@, label@);
        }
    }
    let entry = AdfXmlType { type_label: label, type_hash: type_hash };
    let ghost entryv = entry;
    let ghost before = ts@;
    ts.insert(p, entry);
    proof {
        before.insert_ensures(p as int, entryv);
        assert(ts@ =~= before.insert(p as int, entryv));
        assert forall|i: int| 0 <= i && i + 1 < ts@.len() implies spec_lex_le(
            (#[trigger] ts@[i]).type_label@,
            ts@[i + 1].type_label@,
        ) by {
            if i + 1 < p {
                assert(ts@[i] == before[i]);
                assert(ts@[i + 1] == before[i + 1]);
            } else if i + 1 == p {
                assert(ts@[i] == before[i]);
                assert(ts@[i + 1] == entryv);
            } else if i == p {
                assert(ts@[i] == entryv);
                assert(ts@[i + 1] == before[i]);
                if p > 0 {
                    assert(spec_lex_le(before[p - 1].type_label@, entryv.type_label@));
                }
            } else {
                assert(ts@[i] == before[i - 1]);
                assert(ts@[i + 1] == before[i]);
            }
        }
        assert forall|i: int, j2: int|
            0 <= i < j2 < ts@.len() implies (#[trigger] ts@[i]).type_hash != (
        #[trigger] ts@[j2]).type_hash by {
            if i != p && j2 != p {
                let i0 = if i < p {
                    i
                } else {
                    i - 1
                };
                let j0 = if j2 < p {
                    j2
                } else {
                    j2 - 1
                };
                assert(ts@[i] == before[i0]);
                assert(ts@[j2] == before[j0]);
            } else if i == p {
                assert(ts@[j2] == before[j2 - 1]);
            } else {
                assert(ts@[i] == before[i]);
            }
        }
        assert forall|i: int| 0 <= i < ts@.len() implies spec_display_name(
            ctxv,
            (#[trigger] ts@[i]).type_hash,
            ADF_NAME_FUEL as nat,
        ) == Some(ts@[i].type_label@) by {
            if i < p {
                assert(ts@[i] == before[i]);
            } else if i > p {
                assert(ts@[i] == before[i - 1]);
            }
        }
        assert(ts@[p as int].type_hash == type_hash);
        assert(spec_hash_listed(ts@, type_hash));
        assert forall|h: u32| spec_hash_listed(before, h) implies spec_hash_listed(ts@, h) by {
            let i = choose|i: int| 0 <= i < before.len() && (#[trigger] before[i]).type_hash == h;
            if i < p {
                assert(ts@[i] == before[i]);
                assert(ts@[i].type_hash == h);
            } else {
                assert(ts@[i + 1] == before[i]);
                assert(ts@[i + 1].type_hash == h);
            }
        }
    }
}

/// Two names compare in at least one direction.
proof fn lemma_lex_total(a: Seq<u8>, b: Seq<u8>)
    ensures
        spec_lex_le(a, b) || spec_lex_le(b, a),
    decreases a.len(),
{
    if a.len() > 0 && b.len() > 0 && a[0] == b[0] {
        lemma_lex_total(a.drop_first(), b.drop_first());
    }
}


/// Record the display names of every type a value tree uses: the node's own
/// type and, below it, the types of all its children. Every hash the tree
/// uses whose display name resolves ends up listed; types whose display
/// name cannot be resolved are left out, as the projection leaves them out.
fn collect_value_types(
    ts: &mut Vec<AdfXmlType>,
    v: &crate::reflect::AdfReflectedValue,
    context: &AdfReflectionContext,
)
    requires
        spec_xml_types_wf(old(ts)@, spec_ctx_view(*context)),
    ensures
        spec_xml_types_wf(final(ts)@, spec_ctx_view(*context)),
        forall|h: u32| spec_hash_listed(old(ts)@, h) ==> spec_hash_listed(final(ts)@, h),
        forall|h: u32|
            #[trigger] spec_tree_uses(*v, h) && spec_display_name(
                spec_ctx_view(*context),
                h,
                ADF_NAME_FUEL as nat,
            ) is Some ==> spec_hash_listed(final(ts)@, h),
    decreases *v,
{
    let ghost ctxv = spec_ctx_view(*context);
    let ghost ts0 = ts@;
    match &v.1 {
        crate::reflect::AdfReflectedPrimitive::Structure(vs) => {
            collect_values_types(ts, vs, context);
        },
        crate::reflect::AdfReflectedPrimitive::Array(vs) => {
            collect_values_types(ts, vs, context);
        },
        crate::reflect::AdfReflectedPrimitive::InlineArray(vs) => {
            collect_values_types(ts, vs, context);
        },
        crate::reflect::AdfReflectedPrimitive::Pointer(b) => {
            collect_value_types(ts, &*b, context);
        },
        crate::reflect::AdfReflectedPrimitive::Deferred(b) => {
            collect_value_types(ts, &*b, context);
        },
        _ => {},
    }
    let ghost tsmid = ts@;
    let own = display_name(context, v.0, ADF_NAME_FUEL);
    if let Some(label) = own {
        insert_xml_type(ts, label, v.0, context);
    }
    proof {
        assert forall|h: u32| spec_hash_listed(ts0, h) implies spec_hash_listed(ts@, h) by {
            assert(spec_hash_listed(tsmid, h));
        }
        assert forall|h: u32|
            #[trigger] spec_tree_uses(*v, h) && spec_display_name(
                ctxv,
                h,
                ADF_NAME_FUEL as nat,
            ) is Some implies spec_hash_listed(ts@, h) by {
            if v.0 == h {
                assert(own is Some);
                assert(spec_hash_listed(ts@, h));
            } else {
                match v.1 {
                    crate::reflect::AdfReflectedPrimitive::Structure(vs) => {
                        lemma_trees_use_exists(vs@, h);
                        let jx = choose|j: int|
                            0 <= j < vs@.len() && spec_tree_uses(#[trigger] vs@[j], h);
                        assert(spec_hash_listed(tsmid, h));
                    },
                    crate::reflect::AdfReflectedPrimitive::Array(vs) => {
                        lemma_trees_use_exists(vs@, h);
                        let jx = choose|j: int|
                            0 <= j < vs@.len() && spec_tree_uses(#[trigger] vs@[j], h);
                        assert(spec_hash_listed(tsmid, h));
                    },
                    crate::reflect::AdfReflectedPrimitive::InlineArray(vs) => {
                        lemma_trees_use_exists(vs@, h);
                        let jx = choose|j: int|
                            0 <= j < vs@.len() && spec_tree_uses(#[trigger] vs@[j], h);
                        assert(spec_hash_listed(tsmid, h));
                    },
                    crate::reflect::AdfReflectedPrimitive::Pointer(b) => {
                        assert(spec_tree_uses(*b, h));
                        assert(spec_hash_listed(tsmid, h));
                    },
                    crate::reflect::AdfReflectedPrimitive::Deferred(b) => {
                        assert(spec_tree_uses(*b, h));
                        assert(spec_hash_listed(tsmid, h));
                    },
                    _ => {
                        assert(false);
                    },
                }
            }
        }
    }
}

fn collect_values_types(
    ts: &mut Vec<AdfXmlType>,
    vs: &Vec<crate::reflect::AdfReflectedValue>,
    context: &AdfReflectionContext,
)
    requires
        spec_xml_types_wf(old(ts)@, spec_ctx_view(*context)),
    ensures
        spec_xml_types_wf(final(ts)@, spec_ctx_view(*context)),
        forall|h: u32| spec_hash_listed(old(ts)@, h) ==> spec_hash_listed(final(ts)@, h),
        forall|j: int, h: u32|
            0 <= j < vs@.len() && #[trigger] spec_tree_uses(vs@[j], h) && spec_display_name(
                spec_ctx_view(*context),
                h,
                ADF_NAME_FUEL as nat,
            ) is Some ==> spec_hash_listed(final(ts)@, h),
    decreases *vs,
{
    let ghost ctxv = spec_ctx_view(*context);
    let n = vs.len();
    let mut i: usize = 0;
    while i < n
        invariant
            i <= n,
            n == vs@.len(),
            ctxv == spec_ctx_view(*context),
            spec_xml_types_wf(ts@, ctxv),
            forall|h: u32| spec_hash_listed(old(ts)@, h) ==> spec_hash_listed(ts@, h),
            forall|j: int, h: u32|
                0 <= j < i && #[trigger] spec_tree_uses(vs@[j], h) && spec_display_name(
                    ctxv,
                    h,
                    ADF_NAME_FUEL as nat,
                ) is Some ==> spec_hash_listed(ts@, h),
        decreases n - i,
    {
        let ghost tsprev = ts@;
        collect_value_types(ts, &vs[i], context);
        proof {
            assert forall|j: int, h: u32|
                0 <= j < i + 1 && #[trigger] spec_tree_uses(vs@[j], h) && spec_display_name(
                    ctxv,
                    h,
                    ADF_NAME_FUEL as nat,
                ) is Some implies spec_hash_listed(ts@, h) by {
                if j < i {
                    assert(spec_hash_listed(tsprev, h));
                }
            }
        }
        i = i + 1;
    }
}

/// A projected node that stands for one of a file's instances: some
/// instance reflects to a value whose projection, under the instance's
/// name, is exactly this node.
pub open spec fn spec_projected_from(
    ctxv: Seq<AdfTypeView>,
    insts: Seq<crate::types::AdfInstanceView>,
    node: AdfXmlValue,
) -> bool {
    exists|j: int, v: crate::reflect::AdfReflectedValue|
        0 <= j < insts.len() && #[trigger] crate::reflect::spec_read_by_hash(
            ctxv,
            insts[j].buffer,
            insts[j].type_hash,
            0,
            0,
            crate::reflect::ADF_REFLECT_FUEL as nat,
        ) == Ok::<crate::reflect::AdfReflectedValueView, crate::reflect::AdfReflectError>(v@) && (
        #[trigger] spec_from_value(ctxv, v, crate::reflect::ADF_REFLECT_FUEL as nat)) is Ok
            && spec_xml_value_view(node) == (AdfXmlValueView {
            name: Some(insts[j].name),
            ..spec_from_value(ctxv, v, crate::reflect::ADF_REFLECT_FUEL as nat)->Ok_0
        })
}

/// An instance the projection emits: its buffer reads back as a value of
/// its type, and that value projects to a node.
pub open spec fn spec_projectable(
    ctxv: Seq<AdfTypeView>,
    inst: crate::types::AdfInstanceView,
) -> bool {
    exists|v: AdfReflectedValue|
        crate::reflect::spec_read_by_hash(
            ctxv,
            inst.buffer,
            inst.type_hash,
            0,
            0,
            crate::reflect::ADF_REFLECT_FUEL as nat,
        ) == Ok::<crate::reflect::AdfReflectedValueView, crate::reflect::AdfReflectError>(v@) && (
        #[trigger] spec_from_value(ctxv, v, crate::reflect::ADF_REFLECT_FUEL as nat)) is Ok
}

/// The node an instance projects to: the value its buffer reads back as,
/// projected, under the instance's name.
pub open spec fn spec_node_projects(
    ctxv: Seq<AdfTypeView>,
    inst: crate::types::AdfInstanceView,
    node: AdfXmlValue,
) -> bool {
    exists|v: AdfReflectedValue|
        crate::reflect::spec_read_by_hash(
            ctxv,
            inst.buffer,
            inst.type_hash,
            0,
            0,
            crate::reflect::ADF_REFLECT_FUEL as nat,
        ) == Ok::<crate::reflect::AdfReflectedValueView, crate::reflect::AdfReflectError>(v@) && (
        #[trigger] spec_from_value(ctxv, v, crate::reflect::ADF_REFLECT_FUEL as nat)) is Ok
            && spec_xml_value_view(node) == (AdfXmlValueView {
            name: Some(inst.name),
            ..spec_from_value(ctxv, v, crate::reflect::ADF_REFLECT_FUEL as nat)->Ok_0
        })
}

/// How many of a file's first `i` instances project.
pub open spec fn spec_proj_count(
    ctxv: Seq<AdfTypeView>,
    insts: Seq<crate::types::AdfInstanceView>,
    i: int,
) -> int
    decreases i,
{
    if i <= 0 {
        0
    } else {
        spec_proj_count(ctxv, insts, i - 1) + if spec_projectable(ctxv, insts[i - 1]) {
            1int
        } else {
            0int
        }
    }
}

/// The projection count never falls as the prefix grows.
pub proof fn lemma_proj_count_mono(
    ctxv: Seq<AdfTypeView>,
    insts: Seq<crate::types::AdfInstanceView>,
    i: int,
    j: int,
)
    requires
        i <= j,
    ensures
        spec_proj_count(ctxv, insts, i) <= spec_proj_count(ctxv, insts, j),
    decreases j - i,
{
    if i < j {
        lemma_proj_count_mono(ctxv, insts, i, j - 1);
    }
}

/// The leading nodes of a projection stand one for one, in order, for
/// the projectable instances among a file's first `j`: there are exactly
/// as many nodes as projectable instances, and the node at a projectable
/// instance's projection count is its projection.
#[verifier::opaque]
pub open spec fn spec_nodes_match(
    ctxv: Seq<AdfTypeView>,
    insts: Seq<crate::types::AdfInstanceView>,
    j: int,
    nodes: Seq<AdfXmlValue>,
) -> bool {
    &&& nodes.len() == spec_proj_count(ctxv, insts, j)
    &&& forall|i: int|
        0 <= i < j && spec_projectable(ctxv, #[trigger] insts[i]) ==> spec_node_projects(
            ctxv,
            insts[i],
            nodes[spec_proj_count(ctxv, insts, i)],
        )
}

/// Every type hash used by a tree that one of a file's first `j`
/// instances reads back and projects as, whose display name resolves,
/// is listed.
#[verifier::opaque]
pub open spec fn spec_types_cover(
    ctxv: Seq<AdfTypeView>,
    insts: Seq<crate::types::AdfInstanceView>,
    j: int,
    ts: Seq<AdfXmlType>,
) -> bool {
    forall|i: int, v: AdfReflectedValue, h: u32|
        #![trigger crate::reflect::spec_read_by_hash(
            ctxv,
            insts[i].buffer,
            insts[i].type_hash,
            0,
            0,
            crate::reflect::ADF_REFLECT_FUEL as nat,
        ), spec_tree_uses(v, h)]
        0 <= i < j && crate::reflect::spec_read_by_hash(
            ctxv,
            insts[i].buffer,
            insts[i].type_hash,
            0,
            0,
            crate::reflect::ADF_REFLECT_FUEL as nat,
        ) == Ok::<crate::reflect::AdfReflectedValueView, crate::reflect::AdfReflectError>(v@)
            && spec_from_value(ctxv, v, crate::reflect::ADF_REFLECT_FUEL as nat) is Ok
            && spec_tree_uses(v, h) && spec_display_name(ctxv, h, ADF_NAME_FUEL as nat) is Some
            ==> spec_hash_listed(ts, h)
}

proof fn lemma_projection_init(
    ctxv: Seq<AdfTypeView>,
    insts: Seq<crate::types::AdfInstanceView>,
    ts: Seq<AdfXmlType>,
)
    ensures
        spec_nodes_match(ctxv, insts, 0, Seq::<AdfXmlValue>::empty()),
        spec_types_cover(ctxv, insts, 0, ts),
{
    reveal(spec_nodes_match);
    reveal(spec_types_cover);
}

/// An instance whose buffer does not read back is not projectable.
proof fn lemma_not_projectable_bad_read(
    ctxv: Seq<AdfTypeView>,
    inst: crate::types::AdfInstanceView,
)
    requires
        crate::reflect::spec_read_by_hash(
            ctxv,
            inst.buffer,
            inst.type_hash,
            0,
            0,
            crate::reflect::ADF_REFLECT_FUEL as nat,
        ) is Err,
    ensures
        !spec_projectable(ctxv, inst),
{
}

/// An instance whose value does not project is not projectable, whatever
/// representative of the read-back view is chosen.
proof fn lemma_not_projectable_bad_value(
    ctxv: Seq<AdfTypeView>,
    inst: crate::types::AdfInstanceView,
    gv: AdfReflectedValue,
)
    requires
        crate::reflect::spec_read_by_hash(
            ctxv,
            inst.buffer,
            inst.type_hash,
            0,
            0,
            crate::reflect::ADF_REFLECT_FUEL as nat,
        ) == Ok::<crate::reflect::AdfReflectedValueView, crate::reflect::AdfReflectError>(gv@),
        !(spec_from_value(ctxv, gv, crate::reflect::ADF_REFLECT_FUEL as nat) is Ok),
    ensures
        !spec_projectable(ctxv, inst),
{
    if spec_projectable(ctxv, inst) {
        let w = choose|w: AdfReflectedValue|
            crate::reflect::spec_read_by_hash(
                ctxv,
                inst.buffer,
                inst.type_hash,
                0,
                0,
                crate::reflect::ADF_REFLECT_FUEL as nat,
            ) == Ok::<crate::reflect::AdfReflectedValueView, crate::reflect::AdfReflectError>(w@)
                && (#[trigger] spec_from_value(ctxv, w, crate::reflect::ADF_REFLECT_FUEL as nat))
                is Ok;
        lemma_from_value_view(ctxv, w, gv, crate::reflect::ADF_REFLECT_FUEL as nat);
        assert(false);
    }
}

/// A projected node carries the match one instance forward.
proof fn lemma_match_step_proj(
    ctxv: Seq<AdfTypeView>,
    insts: Seq<crate::types::AdfInstanceView>,
    j: int,
    nodes: Seq<AdfXmlValue>,
    node: AdfXmlValue,
)
    requires
        0 <= j < insts.len(),
        spec_nodes_match(ctxv, insts, j, nodes),
        spec_projectable(ctxv, insts[j]),
        spec_node_projects(ctxv, insts[j], node),
    ensures
        spec_nodes_match(ctxv, insts, j + 1, nodes.push(node)),
{
    reveal(spec_nodes_match);
    assert(spec_proj_count(ctxv, insts, j + 1) == spec_proj_count(ctxv, insts, j) + 1);
    assert forall|i: int|
        0 <= i < j + 1 && spec_projectable(ctxv, #[trigger] insts[i]) implies spec_node_projects(
        ctxv,
        insts[i],
        nodes.push(node)[spec_proj_count(ctxv, insts, i)],
    ) by {
        lemma_proj_count_mono(ctxv, insts, 0, i);
        if i < j {
            assert(spec_proj_count(ctxv, insts, i + 1) == spec_proj_count(ctxv, insts, i) + 1);
            lemma_proj_count_mono(ctxv, insts, i + 1, j);
            assert(nodes.push(node)[spec_proj_count(ctxv, insts, i)] == nodes[spec_proj_count(
                ctxv,
                insts,
                i,
            )]);
        } else {
            assert(nodes.push(node)[spec_proj_count(ctxv, insts, i)] == node);
        }
    }
}

/// A skipped instance leaves the match as it is.
proof fn lemma_match_step_skip(
    ctxv: Seq<AdfTypeView>,
    insts: Seq<crate::types::AdfInstanceView>,
    j: int,
    nodes: Seq<AdfXmlValue>,
)
    requires
        0 <= j < insts.len(),
        spec_nodes_match(ctxv, insts, j, nodes),
        !spec_projectable(ctxv, insts[j]),
    ensures
        spec_nodes_match(ctxv, insts, j + 1, nodes),
{
    reveal(spec_nodes_match);
    assert(spec_proj_count(ctxv, insts, j + 1) == spec_proj_count(ctxv, insts, j));
}

/// Collecting a projected instance's tree extends the type coverage to it.
proof fn lemma_cover_step_ok(
    ctxv: Seq<AdfTypeView>,
    insts: Seq<crate::types::AdfInstanceView>,
    j: int,
    ts0: Seq<AdfXmlType>,
    ts1: Seq<AdfXmlType>,
    gv: AdfReflectedValue,
)
    requires
        0 <= j < insts.len(),
        spec_types_cover(ctxv, insts, j, ts0),
        forall|h: u32| spec_hash_listed(ts0, h) ==> spec_hash_listed(ts1, h),
        forall|h: u32|
            #[trigger] spec_tree_uses(gv, h) && spec_display_name(
                ctxv,
                h,
                ADF_NAME_FUEL as nat,
            ) is Some ==> spec_hash_listed(ts1, h),
        crate::reflect::spec_read_by_hash(
            ctxv,
            insts[j].buffer,
            insts[j].type_hash,
            0,
            0,
            crate::reflect::ADF_REFLECT_FUEL as nat,
        ) == Ok::<crate::reflect::AdfReflectedValueView, crate::reflect::AdfReflectError>(gv@),
    ensures
        spec_types_cover(ctxv, insts, j + 1, ts1),
{
    reveal(spec_types_cover);
    assert forall|i: int, w: AdfReflectedValue, h: u32|
        #![trigger crate::reflect::spec_read_by_hash(
            ctxv,
            insts[i].buffer,
            insts[i].type_hash,
            0,
            0,
            crate::reflect::ADF_REFLECT_FUEL as nat,
        ), spec_tree_uses(w, h)]
        0 <= i < j + 1 && crate::reflect::spec_read_by_hash(
            ctxv,
            insts[i].buffer,
            insts[i].type_hash,
            0,
            0,
            crate::reflect::ADF_REFLECT_FUEL as nat,
        ) == Ok::<crate::reflect::AdfReflectedValueView, crate::reflect::AdfReflectError>(w@)
            && spec_from_value(ctxv, w, crate::reflect::ADF_REFLECT_FUEL as nat) is Ok
            && spec_tree_uses(w, h) && spec_display_name(ctxv, h, ADF_NAME_FUEL as nat) is Some
        implies spec_hash_listed(ts1, h) by {
        if i == j {
            assert(w@ == gv@);
            lemma_tree_uses_view(w, gv, h);
            assert(spec_tree_uses(gv, h));
        } else {
            assert(spec_hash_listed(ts0, h));
        }
    }
}

/// An instance that is not projectable adds nothing to the coverage.
proof fn lemma_cover_step_dead(
    ctxv: Seq<AdfTypeView>,
    insts: Seq<crate::types::AdfInstanceView>,
    j: int,
    ts: Seq<AdfXmlType>,
)
    requires
        0 <= j < insts.len(),
        spec_types_cover(ctxv, insts, j, ts),
        !spec_projectable(ctxv, insts[j]),
    ensures
        spec_types_cover(ctxv, insts, j + 1, ts),
{
    reveal(spec_types_cover);
    assert forall|i: int, w: AdfReflectedValue, h: u32|
        #![trigger crate::reflect::spec_read_by_hash(
            ctxv,
            insts[i].buffer,
            insts[i].type_hash,
            0,
            0,
            crate::reflect::ADF_REFLECT_FUEL as nat,
        ), spec_tree_uses(w, h)]
        0 <= i < j + 1 && crate::reflect::spec_read_by_hash(
            ctxv,
            insts[i].buffer,
            insts[i].type_hash,
            0,
            0,
            crate::reflect::ADF_REFLECT_FUEL as nat,
        ) == Ok::<crate::reflect::AdfReflectedValueView, crate::reflect::AdfReflectError>(w@)
            && spec_from_value(ctxv, w, crate::reflect::ADF_REFLECT_FUEL as nat) is Ok
            && spec_tree_uses(w, h) && spec_display_name(ctxv, h, ADF_NAME_FUEL as nat) is Some
        implies spec_hash_listed(ts, h) by {
        if i == j {
            assert(spec_projectable(ctxv, insts[j]));
            assert(false);
        }
    }
}

impl AdfXml {
    /// Project a whole file: each instance that reflects and projects
    /// cleanly appears in order under its name — the k-th emitted node is
    /// the projection of the k-th projectable instance — the display names
    /// of every type those trees use are listed sorted and duplicate-free,
    /// and the embedded-types flag records whether the file carried its
    /// own type table.
    #[verifier::rlimit(100)]
    pub fn new(
        adf: &crate::types::AdfFile,
        context: &AdfReflectionContext,
        extension: &[u8],
    ) -> (r: AdfXml)
        ensures
            r.extension@ == extension@,
            r.embedded_types == (adf@.types.len() > 0),
            spec_xml_types_wf(r.types@, spec_ctx_view(*context)),
            forall|k: int|
                0 <= k < r.instances@.len() ==> spec_projected_from(
                    spec_ctx_view(*context),
                    adf@.instances,
                    #[trigger] r.instances@[k],
                ),
            spec_nodes_match(
                spec_ctx_view(*context),
                adf@.instances,
                adf@.instances.len() as int,
                r.instances@,
            ),
            spec_types_cover(
                spec_ctx_view(*context),
                adf@.instances,
                adf@.instances.len() as int,
                r.types@,
            ),
    {
        let ghost ctxv = spec_ctx_view(*context);
        let ghost insts = adf@.instances;
        let mut types: Vec<AdfXmlType> = Vec::new();
        let mut nodes: Vec<AdfXmlValue> = Vec::new();
        proof {
            lemma_projection_init(ctxv, insts, types@);
        }
        let n = adf.instances.len();
        let mut j: usize = 0;
        while j < n
            invariant
                j <= n,
                n == adf.instances@.len(),
                ctxv == spec_ctx_view(*context),
                insts == adf@.instances,
                spec_xml_types_wf(types@, ctxv),
                forall|k: int|
                    0 <= k < nodes@.len() ==> spec_projected_from(
                        ctxv,
                        adf@.instances,
                        #[trigger] nodes@[k],
                    ),
                spec_nodes_match(ctxv, insts, j as int, nodes@),
                spec_types_cover(ctxv, insts, j as int, types@),
            decreases n - j,
        {
            let inst = &adf.instances[j];
            assert(inst@ == adf@.instances[j as int]);
            let got = context.read_instance(inst);
            let ghost types0 = types@;
            match got {
                Ok(v) => {
                    let projected = AdfXmlValue::from_value_named(
                        &v,
                        inst.name.as_slice(),
                        context,
                        crate::reflect::ADF_REFLECT_FUEL,
                    );
                    match projected {
                        Ok(node) => {
                            collect_value_types(&mut types, &v, context);
                            let ghost gv = v;
                            let ghost gnode = node;
                            let ghost nb = nodes@;
                            nodes.push(node);
                            proof {
                                assert(nodes@ =~= nb.push(gnode));
                                assert(spec_projected_from(ctxv, adf@.instances, gnode));
                                assert forall|k: int|
                                    0 <= k < nodes@.len() implies spec_projected_from(
                                    ctxv,
                                    adf@.instances,
                                    #[trigger] nodes@[k],
                                ) by {
                                    if k < nb.len() {
                                        assert(nodes@[k] == nb[k]);
                                    } else {
                                        assert(nodes@[k] == gnode);
                                    }
                                }
                                assert(spec_projectable(ctxv, insts[j as int]));
                                assert(spec_node_projects(ctxv, insts[j as int], gnode));
                                lemma_match_step_proj(ctxv, insts, j as int, nb, gnode);
                                lemma_cover_step_ok(ctxv, insts, j as int, types0, types@, gv);
                            }
                        },
                        Err(_) => {
                            proof {
                                let gv = v;
                                lemma_not_projectable_bad_value(ctxv, insts[j as int], gv);
                                lemma_match_step_skip(ctxv, insts, j as int, nodes@);
                                lemma_cover_step_dead(ctxv, insts, j as int, types@);
                            }
                        },
                    }
                },
                Err(_) => {
                    proof {
                        lemma_not_projectable_bad_read(ctxv, insts[j as int]);
                        lemma_match_step_skip(ctxv, insts, j as int, nodes@);
                        lemma_cover_step_dead(ctxv, insts, j as int, types@);
                    }
                },
            }
            j = j + 1;
        }
        let mut ext: Vec<u8> = Vec::new();
        crate::bytes::push_bytes(&mut ext, extension);
        AdfXml {
            extension: ext,
            embedded_types: adf.types.len() > 0,
            types: types,
            instances: nodes,
        }
    }
}

} // verus!
