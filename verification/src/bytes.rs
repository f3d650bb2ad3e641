use vstd::prelude::*;

verus! {

// Little-endian encoding and decoding of the fixed-width integers the
// container uses, plus the alignment arithmetic shared by the reader and
// the writer. Everything is stated over plain byte sequences.

pub open spec fn spec_le16(v: u16) -> Seq<u8> {
    seq![(v % 0x100) as u8, ((v / 0x100) % 0x100) as u8]
}

pub open spec fn spec_le32(v: u32) -> Seq<u8> {
    seq![
        (v % 0x100) as u8,
        ((v / 0x100) % 0x100) as u8,
        ((v / 0x10000) % 0x100) as u8,
        ((v / 0x1000000) % 0x100) as u8,
    ]
}

pub open spec fn spec_le64(v: u64) -> Seq<u8> {
    seq![
        (v % 0x100) as u8,
        ((v / 0x100) % 0x100) as u8,
        ((v / 0x10000) % 0x100) as u8,
        ((v / 0x1000000) % 0x100) as u8,
        ((v / 0x1_0000_0000) % 0x100) as u8,
        ((v / 0x100_0000_0000) % 0x100) as u8,
        ((v / 0x1_0000_0000_0000) % 0x100) as u8,
        ((v / 0x100_0000_0000_0000) % 0x100) as u8,
    ]
}

pub open spec fn spec_u16_at(s: Seq<u8>, i: int) -> u16 {
    (s[i] + s[i + 1] * 0x100) as u16
}

pub open spec fn spec_u32_at(s: Seq<u8>, i: int) -> u32 {
    (s[i] + s[i + 1] * 0x100 + s[i + 2] * 0x10000 + s[i + 3] * 0x1000000) as u32
}

pub open spec fn spec_u64_at(s: Seq<u8>, i: int) -> u64 {
    (s[i] + s[i + 1] * 0x100 + s[i + 2] * 0x10000 + s[i + 3] * 0x1000000 + s[i + 4]
        * 0x1_0000_0000 + s[i + 5] * 0x100_0000_0000 + s[i + 6] * 0x1_0000_0000_0000 + s[i + 7]
        * 0x100_0000_0000_0000) as u64
}

/// A run of zero bytes, as written for padding and reserved regions.
pub open spec fn spec_zeros(n: int) -> Seq<u8> {
    Seq::new(if n >= 0 {
        n as nat
    } else {
        0
    }, |i: int| 0u8)
}

/// The smallest multiple of `a` that is at least `p`.
pub open spec fn spec_align_up(p: int, a: int) -> int {
    ((p + a - 1) / a) * a
}

pub proof fn lemma_align_up(p: int, a: int)
    by (nonlinear_arith)
    requires
        0 <= p,
        1 <= a,
    ensures
        p <= spec_align_up(p, a) <= p + a - 1,
        spec_align_up(p, a) % a == 0,
{
}

pub proof fn lemma_le16_roundtrip(v: u16)
    ensures
        spec_u16_at(spec_le16(v), 0) == v,
{
}

pub proof fn lemma_le32_roundtrip(v: u32)
    ensures
        spec_u32_at(spec_le32(v), 0) == v,
{
}

pub proof fn lemma_le64_roundtrip(v: u64)
    ensures
        spec_u64_at(spec_le64(v), 0) == v,
{
    let x = v as int;
    let q1 = x / 0x100;
    let q2 = q1 / 0x100;
    let q3 = q2 / 0x100;
    let q4 = q3 / 0x100;
    let q5 = q4 / 0x100;
    let q6 = q5 / 0x100;
    let q7 = q6 / 0x100;
    let q8 = q7 / 0x100;
    vstd::arithmetic::div_mod::lemma_div_denominator(x, 0x100, 0x100);
    vstd::arithmetic::div_mod::lemma_div_denominator(x, 0x10000, 0x100);
    vstd::arithmetic::div_mod::lemma_div_denominator(x, 0x1000000, 0x100);
    vstd::arithmetic::div_mod::lemma_div_denominator(x, 0x1_0000_0000, 0x100);
    vstd::arithmetic::div_mod::lemma_div_denominator(x, 0x100_0000_0000, 0x100);
    vstd::arithmetic::div_mod::lemma_div_denominator(x, 0x1_0000_0000_0000, 0x100);
    vstd::arithmetic::div_mod::lemma_div_denominator(x, 0x100_0000_0000_0000, 0x100);
    assert(q2 == x / 0x10000);
    assert(q3 == x / 0x1000000);
    assert(q4 == x / 0x1_0000_0000);
    assert(q5 == x / 0x100_0000_0000);
    assert(q6 == x / 0x1_0000_0000_0000);
    assert(q7 == x / 0x100_0000_0000_0000);
    assert(q8 == x / 0x1_0000_0000_0000_0000);
    vstd::arithmetic::div_mod::lemma_basic_div(x, 0x1_0000_0000_0000_0000);
    vstd::arithmetic::div_mod::lemma_fundamental_div_mod(x, 0x100);
    vstd::arithmetic::div_mod::lemma_fundamental_div_mod(q1, 0x100);
    vstd::arithmetic::div_mod::lemma_fundamental_div_mod(q2, 0x100);
    vstd::arithmetic::div_mod::lemma_fundamental_div_mod(q3, 0x100);
    vstd::arithmetic::div_mod::lemma_fundamental_div_mod(q4, 0x100);
    vstd::arithmetic::div_mod::lemma_fundamental_div_mod(q5, 0x100);
    vstd::arithmetic::div_mod::lemma_fundamental_div_mod(q6, 0x100);
    vstd::arithmetic::div_mod::lemma_fundamental_div_mod(q7, 0x100);
    assert(x == (x % 0x100) + (q1 % 0x100) * 0x100 + (q2 % 0x100) * 0x10000 + (q3 % 0x100)
        * 0x1000000 + (q4 % 0x100) * 0x1_0000_0000 + (q5 % 0x100) * 0x100_0000_0000 + (q6 % 0x100)
        * 0x1_0000_0000_0000 + (q7 % 0x100) * 0x100_0000_0000_0000);
}

/// Decoding four bytes and re-encoding the value gives the bytes back.
pub proof fn lemma_le32_of_bytes(s: Seq<u8>)
    requires
        s.len() == 4,
    ensures
        spec_le32(spec_u32_at(s, 0)) =~= s,
{
    let b0 = s[0] as int;
    let b1 = s[1] as int;
    let b2 = s[2] as int;
    let b3 = s[3] as int;
    let v = spec_u32_at(s, 0) as int;
    assert(v == b0 + b1 * 0x100 + b2 * 0x10000 + b3 * 0x1000000);
    let t1 = b1 + b2 * 0x100 + b3 * 0x10000;
    let t2 = b2 + b3 * 0x100;
    vstd::arithmetic::div_mod::lemma_fundamental_div_mod_converse(v, 0x100, t1, b0);
    vstd::arithmetic::div_mod::lemma_fundamental_div_mod_converse(t1, 0x100, t2, b1);
    vstd::arithmetic::div_mod::lemma_fundamental_div_mod_converse(t2, 0x100, b3, b2);
    vstd::arithmetic::div_mod::lemma_basic_div(b3, 0x100);
    vstd::arithmetic::div_mod::lemma_div_denominator(v, 0x100, 0x100);
    vstd::arithmetic::div_mod::lemma_div_denominator(v, 0x10000, 0x100);
    assert(spec_le32(spec_u32_at(s, 0))[0] == s[0]);
    assert(spec_le32(spec_u32_at(s, 0))[1] == s[1]);
    assert(spec_le32(spec_u32_at(s, 0))[2] == s[2]);
    assert(spec_le32(spec_u32_at(s, 0))[3] == s[3]);
}

pub fn read_u16_at(bytes: &[u8], pos: usize) -> (r: u16)
    requires
        pos + 2 <= bytes@.len(),
    ensures
        r == spec_u16_at(bytes@, pos as int),
{
    bytes[pos] as u16 + bytes[pos + 1] as u16 * 0x100
}

pub fn read_u32_at(bytes: &[u8], pos: usize) -> (r: u32)
    requires
        pos + 4 <= bytes@.len(),
    ensures
        r == spec_u32_at(bytes@, pos as int),
{
    bytes[pos] as u32 + bytes[pos + 1] as u32 * 0x100 + bytes[pos + 2] as u32 * 0x10000 + bytes[pos
        + 3] as u32 * 0x1000000
}

pub fn read_u64_at(bytes: &[u8], pos: usize) -> (r: u64)
    requires
        pos + 8 <= bytes@.len(),
    ensures
        r == spec_u64_at(bytes@, pos as int),
{
    bytes[pos] as u64 + bytes[pos + 1] as u64 * 0x100 + bytes[pos + 2] as u64 * 0x10000 + bytes[pos
        + 3] as u64 * 0x1000000 + bytes[pos + 4] as u64 * 0x1_0000_0000 + bytes[pos + 5] as u64
        * 0x100_0000_0000 + bytes[pos + 6] as u64 * 0x1_0000_0000_0000 + bytes[pos + 7] as u64
        * 0x100_0000_0000_0000
}

pub fn push_le16(out: &mut Vec<u8>, v: u16)
    ensures
        final(out)@ =~= old(out)@ + spec_le16(v),
{
    out.push((v % 0x100) as u8);
    out.push(((v / 0x100) % 0x100) as u8);
}

pub fn push_le32(out: &mut Vec<u8>, v: u32)
    ensures
        final(out)@ =~= old(out)@ + spec_le32(v),
{
    out.push((v % 0x100) as u8);
    out.push(((v / 0x100) % 0x100) as u8);
    out.push(((v / 0x10000) % 0x100) as u8);
    out.push(((v / 0x1000000) % 0x100) as u8);
}

pub fn push_le64(out: &mut Vec<u8>, v: u64)
    ensures
        final(out)@ =~= old(out)@ + spec_le64(v),
{
    out.push((v % 0x100) as u8);
    out.push(((v / 0x100) % 0x100) as u8);
    out.push(((v / 0x10000) % 0x100) as u8);
    out.push(((v / 0x1000000) % 0x100) as u8);
    out.push(((v / 0x1_0000_0000) % 0x100) as u8);
    out.push(((v / 0x100_0000_0000) % 0x100) as u8);
    out.push(((v / 0x1_0000_0000_0000) % 0x100) as u8);
    out.push(((v / 0x100_0000_0000_0000) % 0x100) as u8);
}

pub fn push_zeros(out: &mut Vec<u8>, n: usize)
    ensures
        final(out)@ =~= old(out)@ + spec_zeros(n as int),
{
    let mut k: usize = 0;
    while k < n
        invariant
            k <= n,
            out@ =~= old(out)@ + spec_zeros(k as int),
        decreases n - k,
    {
        out.push(0u8);
        k = k + 1;
    }
}

/// Pad the buffer with zeros until its length is a multiple of `a`.
pub fn pad_to_align(out: &mut Vec<u8>, a: u64)
    requires
        1 <= a,
        old(out)@.len() + a <= usize::MAX,
    ensures
        final(out)@ =~= old(out)@ + spec_zeros(spec_align_up(old(out)@.len() as int, a as int)
            - old(out)@.len()),
        final(out)@.len() == spec_align_up(old(out)@.len() as int, a as int),
{
    proof {
        lemma_align_up(out@.len() as int, a as int);
    }
    let len = out.len() as u64;
    let rem = len % a;
    let aligned = if rem == 0 {
        len
    } else {
        len + (a - rem)
    };
    assert(aligned == spec_align_up(len as int, a as int)) by (nonlinear_arith)
        requires
            1 <= a,
            len + a <= usize::MAX,
            aligned == if len % a == 0 {
                len as int
            } else {
                len + (a - len % a)
            },
    ;
    push_zeros(out, (aligned - len) as usize);
}

/// A copy of `src[a..b]` as a fresh vector.
pub fn copy_range(src: &[u8], a: usize, b: usize) -> (v: Vec<u8>)
    requires
        a <= b <= src@.len(),
    ensures
        v@ == src@.subrange(a as int, b as int),
{
    let mut v: Vec<u8> = Vec::new();
    let mut k: usize = a;
    while k < b
        invariant
            a <= k <= b <= src@.len(),
            v@ =~= src@.subrange(a as int, k as int),
        decreases b - k,
    {
        v.push(src[k]);
        assert(src@.subrange(a as int, k + 1 as int) =~= src@.subrange(a as int, k as int).push(
            src@[k as int],
        ));
        k = k + 1;
    }
    v
}

/// Copy all of `src` onto the end of `out`.
pub fn push_bytes(out: &mut Vec<u8>, src: &[u8])
    ensures
        final(out)@ =~= old(out)@ + src@,
{
    let n = src.len();
    let mut k: usize = 0;
    while k < n
        invariant
            k <= n,
            n == src@.len(),
            out@ =~= old(out)@ + src@.take(k as int),
        decreases n - k,
    {
        out.push(src[k]);
        assert(src@.take(k + 1 as int) =~= src@.take(k as int).push(src@[k as int]));
        k = k + 1;
    }
    assert(src@.take(n as int) =~= src@);
}

/// Whether two byte strings hold the same bytes.
pub fn bytes_eq(a: &[u8], b: &[u8]) -> (r: bool)
    ensures
        r == (a@ == b@),
{
    if a.len() != b.len() {
        proof {
            if a@ == b@ {
                assert(a@.len() == b@.len());
            }
        }
        return false;
    }
    let n = a.len();
    let mut i: usize = 0;
    while i < n
        invariant
            i <= n,
            n == a@.len(),
            n == b@.len(),
            forall|k: int| 0 <= k < i ==> a@[k] == b@[k],
        decreases n - i,
    {
        if a[i] != b[i] {
            proof {
                if a@ == b@ {
                    assert(a@[i as int] == b@[i as int]);
                }
            }
            return false;
        }
        i = i + 1;
    }
    proof {
        assert(a@ =~= b@);
    }
    true
}

} // verus!
