use vstd::prelude::*;

verus! {

// The 32-bit name hash used throughout the container: it identifies
// instances, verifies stored names, and builds structural type hashes.
// The input is consumed as little-endian 32-bit words, twelve bytes at a
// time; a final partial block is zero-padded.

/// Little-endian 32-bit word starting at byte `i`; bytes past the end count as zero.
pub open spec fn spec_word(s: Seq<u8>, i: int) -> u32 {
    (spec_byte_or_zero(s, i) + spec_byte_or_zero(s, i + 1) * 0x100 + spec_byte_or_zero(s, i + 2)
        * 0x10000 + spec_byte_or_zero(s, i + 3) * 0x1000000) as u32
}

pub open spec fn spec_byte_or_zero(s: Seq<u8>, i: int) -> u32 {
    if 0 <= i < s.len() {
        s[i] as u32
    } else {
        0
    }
}

/// One round of state mixing used while consuming twelve-byte blocks.
pub open spec fn spec_mix(a0: u32, b0: u32, c0: u32) -> (u32, u32, u32) {
    let a1 = (a0.wrapping_sub(c0)) ^ ((c0 << 4u32) | (c0 >> 28u32));
    let c1 = c0.wrapping_add(b0);
    let b1 = (b0.wrapping_sub(a1)) ^ ((a1 << 6u32) | (a1 >> 26u32));
    let a2 = a1.wrapping_add(c1);
    let c2 = (c1.wrapping_sub(b1)) ^ ((b1 << 8u32) | (b1 >> 24u32));
    let b2 = b1.wrapping_add(a2);
    let a3 = (a2.wrapping_sub(c2)) ^ ((c2 << 16u32) | (c2 >> 16u32));
    let c3 = c2.wrapping_add(b2);
    let b3 = (b2.wrapping_sub(a3)) ^ ((a3 << 19u32) | (a3 >> 13u32));
    let a4 = a3.wrapping_add(c3);
    let c4 = (c3.wrapping_sub(b3)) ^ ((b3 << 4u32) | (b3 >> 28u32));
    let b4 = b3.wrapping_add(a4);
    (a4, b4, c4)
}

/// The last mixing pass; only the `c` word is kept as the hash value.
pub open spec fn spec_final_c(a0: u32, b0: u32, c0: u32) -> u32 {
    let c1 = (c0 ^ b0).wrapping_sub((b0 << 14u32) | (b0 >> 18u32));
    let a1 = (a0 ^ c1).wrapping_sub((c1 << 11u32) | (c1 >> 21u32));
    let b1 = (b0 ^ a1).wrapping_sub((a1 << 25u32) | (a1 >> 7u32));
    let c2 = (c1 ^ b1).wrapping_sub((b1 << 16u32) | (b1 >> 16u32));
    let a2 = (a1 ^ c2).wrapping_sub((c2 << 4u32) | (c2 >> 28u32));
    let b2 = (b1 ^ a2).wrapping_sub((a2 << 14u32) | (a2 >> 18u32));
    (c2 ^ b2).wrapping_sub((b2 << 24u32) | (b2 >> 8u32))
}

/// Consume the bytes from `i` on: full blocks are mixed in, a trailing
/// partial block is zero-padded and finalized, and an empty remainder
/// yields the running `c` word unchanged.
pub open spec fn spec_hash_rounds(s: Seq<u8>, i: int, a: u32, b: u32, c: u32) -> u32
    decreases s.len() - i,
{
    if s.len() - i > 12 {
        let m = spec_mix(
            a.wrapping_add(spec_word(s, i)),
            b.wrapping_add(spec_word(s, i + 4)),
            c.wrapping_add(spec_word(s, i + 8)),
        );
        spec_hash_rounds(s, i + 12, m.0, m.1, m.2)
    } else if s.len() - i <= 0 {
        c
    } else {
        spec_final_c(
            a.wrapping_add(spec_word(s, i)),
            b.wrapping_add(spec_word(s, i + 4)),
            c.wrapping_add(spec_word(s, i + 8)),
        )
    }
}

pub open spec fn spec_len_word(n: nat) -> u32 {
    (n % 0x1_0000_0000) as u32
}

/// The 32-bit name hash of a byte string.
pub open spec fn spec_hash_little32(s: Seq<u8>) -> u32 {
    let init = 0xdeadbeefu32.wrapping_add(spec_len_word(s.len()));
    spec_hash_rounds(s, 0, init, init, init)
}

fn word_at(bytes: &[u8], i: usize, d: usize) -> (r: u32)
    requires
        i <= bytes.len(),
        d <= 8,
    ensures
        r == spec_word(bytes@, i + d),
{
    let n = bytes.len();
    let b0: u32 = if n - i > d {
        bytes[i + d] as u32
    } else {
        0
    };
    let b1: u32 = if n - i > d + 1 {
        bytes[i + d + 1] as u32
    } else {
        0
    };
    let b2: u32 = if n - i > d + 2 {
        bytes[i + d + 2] as u32
    } else {
        0
    };
    let b3: u32 = if n - i > d + 3 {
        bytes[i + d + 3] as u32
    } else {
        0
    };
    b0 + b1 * 0x100 + b2 * 0x10000 + b3 * 0x1000000
}

fn mix(a0: u32, b0: u32, c0: u32) -> (r: (u32, u32, u32))
    ensures
        r == spec_mix(a0, b0, c0),
{
    let a1 = (a0.wrapping_sub(c0)) ^ ((c0 << 4u32) | (c0 >> 28u32));
    let c1 = c0.wrapping_add(b0);
    let b1 = (b0.wrapping_sub(a1)) ^ ((a1 << 6u32) | (a1 >> 26u32));
    let a2 = a1.wrapping_add(c1);
    let c2 = (c1.wrapping_sub(b1)) ^ ((b1 << 8u32) | (b1 >> 24u32));
    let b2 = b1.wrapping_add(a2);
    let a3 = (a2.wrapping_sub(c2)) ^ ((c2 << 16u32) | (c2 >> 16u32));
    let c3 = c2.wrapping_add(b2);
    let b3 = (b2.wrapping_sub(a3)) ^ ((a3 << 19u32) | (a3 >> 13u32));
    let a4 = a3.wrapping_add(c3);
    let c4 = (c3.wrapping_sub(b3)) ^ ((b3 << 4u32) | (b3 >> 28u32));
    let b4 = b3.wrapping_add(a4);
    (a4, b4, c4)
}

fn final_c(a0: u32, b0: u32, c0: u32) -> (r: u32)
    ensures
        r == spec_final_c(a0, b0, c0),
{
    let c1 = (c0 ^ b0).wrapping_sub((b0 << 14u32) | (b0 >> 18u32));
    let a1 = (a0 ^ c1).wrapping_sub((c1 << 11u32) | (c1 >> 21u32));
    let b1 = (b0 ^ a1).wrapping_sub((a1 << 25u32) | (a1 >> 7u32));
    let c2 = (c1 ^ b1).wrapping_sub((b1 << 16u32) | (b1 >> 16u32));
    let a2 = (a1 ^ c2).wrapping_sub((c2 << 4u32) | (c2 >> 28u32));
    let b2 = (b1 ^ a2).wrapping_sub((a2 << 14u32) | (a2 >> 18u32));
    (c2 ^ b2).wrapping_sub((b2 << 24u32) | (b2 >> 8u32))
}

/// The 32-bit name hash of a byte string.
pub fn hash_little32(bytes: &[u8]) -> (r: u32)
    ensures
        r == spec_hash_little32(bytes@),
{
    let n = bytes.len();
    let init = 0xdeadbeefu32.wrapping_add(((n as u64) % 0x1_0000_0000u64) as u32);
    let mut a = init;
    let mut b = init;
    let mut c = init;
    let mut i: usize = 0;
    while n - i > 12
        invariant
            i <= n,
            n == bytes@.len(),
            spec_hash_rounds(bytes@, i as int, a, b, c) == spec_hash_rounds(
                bytes@,
                0,
                init,
                init,
                init,
            ),
        decreases n - i,
    {
        let m = mix(
            a.wrapping_add(word_at(bytes, i, 0)),
            b.wrapping_add(word_at(bytes, i, 4)),
            c.wrapping_add(word_at(bytes, i, 8)),
        );
        a = m.0;
        b = m.1;
        c = m.2;
        i = i + 12;
    }
    if n == i {
        c
    } else {
        final_c(
            a.wrapping_add(word_at(bytes, i, 0)),
            b.wrapping_add(word_at(bytes, i, 4)),
            c.wrapping_add(word_at(bytes, i, 8)),
        )
    }
}

} // verus!
