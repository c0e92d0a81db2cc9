//! Little-endian integers in byte sequences, and the FNV-1a checksum.

use vstd::arithmetic::div_mod::{lemma_mod_multiples_vanish, lemma_mul_mod_noop_left, lemma_small_mod};
use vstd::prelude::*;

verus! {

/// `x.to_le_bytes()` for `u32`.
pub open spec fn le32(x: u32) -> Seq<u8> {
    seq![
        (x & 0xff) as u8,
        ((x >> 8u32) & 0xff) as u8,
        ((x >> 16u32) & 0xff) as u8,
        ((x >> 24u32) & 0xff) as u8,
    ]
}

/// `u32::from_le_bytes` of the four bytes of `s` at `at`.
pub open spec fn read32(s: Seq<u8>, at: int) -> u32 {
    (s[at] as u32) | ((s[at + 1] as u32) << 8u32) | ((s[at + 2] as u32) << 16u32) | ((s[at + 3] as u32) << 24u32)
}

/// `x.to_le_bytes()` for `u64`.
pub open spec fn le64(x: u64) -> Seq<u8> {
    seq![
        (x & 0xff) as u8,
        ((x >> 8u64) & 0xff) as u8,
        ((x >> 16u64) & 0xff) as u8,
        ((x >> 24u64) & 0xff) as u8,
        ((x >> 32u64) & 0xff) as u8,
        ((x >> 40u64) & 0xff) as u8,
        ((x >> 48u64) & 0xff) as u8,
        ((x >> 56u64) & 0xff) as u8,
    ]
}

/// `u64::from_le_bytes` of the eight bytes of `s` at `at`.
pub open spec fn read64(s: Seq<u8>, at: int) -> u64 {
    (s[at] as u64) | ((s[at + 1] as u64) << 8u64) | ((s[at + 2] as u64) << 16u64) | ((s[at + 3] as u64)
        << 24u64) | ((s[at + 4] as u64) << 32u64) | ((s[at + 5] as u64) << 40u64) | ((s[at + 6] as u64)
        << 48u64) | ((s[at + 7] as u64) << 56u64)
}

/// Reading back the bytes of a `u32` gives the `u32`.
pub proof fn lemma_read32_le32(x: u32, s: Seq<u8>, at: int)
    requires
        0 <= at,
        at + 4 <= s.len(),
        s.subrange(at, at + 4) == le32(x),
    ensures
        read32(s, at) == x,
{
    assert(s[at] == le32(x)[0]);
    assert(s[at + 1] == le32(x)[1]);
    assert(s[at + 2] == le32(x)[2]);
    assert(s[at + 3] == le32(x)[3]);
    let b0 = (x & 0xff) as u8;
    let b1 = ((x >> 8u32) & 0xff) as u8;
    let b2 = ((x >> 16u32) & 0xff) as u8;
    let b3 = ((x >> 24u32) & 0xff) as u8;
    assert((b0 as u32) | ((b1 as u32) << 8u32) | ((b2 as u32) << 16u32) | ((b3 as u32) << 24u32) == x)
        by (bit_vector)
        requires
            b0 == (x & 0xff) as u8,
            b1 == ((x >> 8u32) & 0xff) as u8,
            b2 == ((x >> 16u32) & 0xff) as u8,
            b3 == ((x >> 24u32) & 0xff) as u8,
    ;
}

/// Reading back the bytes of a `u64` gives the `u64`.
pub proof fn lemma_read64_le64(x: u64, s: Seq<u8>, at: int)
    requires
        0 <= at,
        at + 8 <= s.len(),
        s.subrange(at, at + 8) == le64(x),
    ensures
        read64(s, at) == x,
{
    assert(s[at] == le64(x)[0]);
    assert(s[at + 1] == le64(x)[1]);
    assert(s[at + 2] == le64(x)[2]);
    assert(s[at + 3] == le64(x)[3]);
    assert(s[at + 4] == le64(x)[4]);
    assert(s[at + 5] == le64(x)[5]);
    assert(s[at + 6] == le64(x)[6]);
    assert(s[at + 7] == le64(x)[7]);
    let b0 = (x & 0xff) as u8;
    let b1 = ((x >> 8u64) & 0xff) as u8;
    let b2 = ((x >> 16u64) & 0xff) as u8;
    let b3 = ((x >> 24u64) & 0xff) as u8;
    let b4 = ((x >> 32u64) & 0xff) as u8;
    let b5 = ((x >> 40u64) & 0xff) as u8;
    let b6 = ((x >> 48u64) & 0xff) as u8;
    let b7 = ((x >> 56u64) & 0xff) as u8;
    assert((b0 as u64) | ((b1 as u64) << 8u64) | ((b2 as u64) << 16u64) | ((b3 as u64) << 24u64) | ((
    b4 as u64) << 32u64) | ((b5 as u64) << 40u64) | ((b6 as u64) << 48u64) | ((b7 as u64) << 56u64)
        == x) by (bit_vector)
        requires
            b0 == (x & 0xff) as u8,
            b1 == ((x >> 8u64) & 0xff) as u8,
            b2 == ((x >> 16u64) & 0xff) as u8,
            b3 == ((x >> 24u64) & 0xff) as u8,
            b4 == ((x >> 32u64) & 0xff) as u8,
            b5 == ((x >> 40u64) & 0xff) as u8,
            b6 == ((x >> 48u64) & 0xff) as u8,
            b7 == ((x >> 56u64) & 0xff) as u8,
    ;
}

/// Appends `x.to_le_bytes()`.
pub fn push_u32(out: &mut Vec<u8>, x: u32)
    ensures
        final(out)@ == old(out)@ + le32(x),
{
    let ghost before = out@;
    out.push((x & 0xff) as u8);
    out.push(((x >> 8u32) & 0xff) as u8);
    out.push(((x >> 16u32) & 0xff) as u8);
    out.push(((x >> 24u32) & 0xff) as u8);
    assert(out@ =~= before + le32(x));
}

/// Appends `x.to_le_bytes()`.
pub fn push_u64(out: &mut Vec<u8>, x: u64)
    ensures
        final(out)@ == old(out)@ + le64(x),
{
    let ghost before = out@;
    out.push((x & 0xff) as u8);
    out.push(((x >> 8u64) & 0xff) as u8);
    out.push(((x >> 16u64) & 0xff) as u8);
    out.push(((x >> 24u64) & 0xff) as u8);
    out.push(((x >> 32u64) & 0xff) as u8);
    out.push(((x >> 40u64) & 0xff) as u8);
    out.push(((x >> 48u64) & 0xff) as u8);
    out.push(((x >> 56u64) & 0xff) as u8);
    assert(out@ =~= before + le64(x));
}

/// `u32::from_le_bytes` of `bytes[at..at + 4]`.
pub fn read_u32(bytes: &[u8], at: usize) -> (x: u32)
    requires
        at + 4 <= bytes@.len(),
    ensures
        x == read32(bytes@, at as int),
{
    (bytes[at] as u32) | ((bytes[at + 1] as u32) << 8u32) | ((bytes[at + 2] as u32) << 16u32) | ((
    bytes[at + 3] as u32) << 24u32)
}

/// `u64::from_le_bytes` of `bytes[at..at + 8]`.
pub fn read_u64(bytes: &[u8], at: usize) -> (x: u64)
    requires
        at + 8 <= bytes@.len(),
    ensures
        x == read64(bytes@, at as int),
{
    (bytes[at] as u64) | ((bytes[at + 1] as u64) << 8u64) | ((bytes[at + 2] as u64) << 16u64) | ((
    bytes[at + 3] as u64) << 24u64) | ((bytes[at + 4] as u64) << 32u64) | ((bytes[at + 5] as u64)
        << 40u64) | ((bytes[at + 6] as u64) << 48u64) | ((bytes[at + 7] as u64) << 56u64)
}

pub const FNV_OFFSET: u64 = 0xcbf2_9ce4_8422_2325;

pub const FNV_PRIME: u64 = 0x0100_0000_01b3;

/// One FNV-1a step: xor in the byte, then multiply by the prime modulo 2^64.
pub open spec fn fnv_step(hash: u64, byte: u8) -> u64 {
    (((hash ^ (byte as u64)) as int * FNV_PRIME as int) % 0x1_0000_0000_0000_0000int) as u64
}

/// FNV-1a state after absorbing `bytes` from state `hash`.
pub open spec fn fnv_fold(hash: u64, bytes: Seq<u8>) -> u64
    decreases bytes.len(),
{
    if bytes.len() == 0 {
        hash
    } else {
        fnv_step(fnv_fold(hash, bytes.drop_last()), bytes.last())
    }
}

/// The 64-bit FNV-1a checksum of `bytes`.
pub open spec fn fnv1a(bytes: Seq<u8>) -> u64 {
    fnv_fold(FNV_OFFSET, bytes)
}

/// Absorbing bytes in pieces gives the same state as absorbing them at once.
pub proof fn lemma_fnv_fold_append(hash: u64, a: Seq<u8>, b: Seq<u8>)
    ensures
        fnv_fold(hash, a + b) == fnv_fold(fnv_fold(hash, a), b),
    decreases b.len(),
{
    if b.len() == 0 {
        assert(a + b =~= a);
    } else {
        lemma_fnv_fold_append(hash, a, b.drop_last());
        assert((a + b).drop_last() =~= a + b.drop_last());
        assert((a + b).last() == b.last());
    }
}

/// The inverse of [`FNV_PRIME`] modulo 2^64: the prime is odd, so one exists.
pub open spec fn fnv_prime_inverse() -> int {
    0xce96_5057_aff6_957b
}

/// Multiplying by the prime modulo 2^64 is undone by multiplying by its
/// inverse.
proof fn lemma_prime_product_undone(x: int)
    requires
        0 <= x < 0x1_0000_0000_0000_0000int,
    ensures
        ((x * FNV_PRIME as int) % 0x1_0000_0000_0000_0000int) * fnv_prime_inverse()
            % 0x1_0000_0000_0000_0000int == x,
{
    let m: int = 0x1_0000_0000_0000_0000int;
    lemma_mul_mod_noop_left(x * FNV_PRIME as int, fnv_prime_inverse(), m);
    assert((x * 0x0100_0000_01b3int) * 0xce96_5057_aff6_957bint == 0x1_0000_0000_0000_0000int * (x
        * 887285111055int) + x) by (nonlinear_arith);
    lemma_mod_multiples_vanish(x * 887285111055int, x, m);
    lemma_small_mod(x as nat, m as nat);
}

/// Two FNV-1a steps that end in the same state started from the same
/// mixed value: the multiplication loses nothing.
pub proof fn lemma_fnv_step_injective(h1: u64, b1: u8, h2: u64, b2: u8)
    requires
        fnv_step(h1, b1) == fnv_step(h2, b2),
    ensures
        h1 ^ (b1 as u64) == h2 ^ (b2 as u64),
{
    let x1 = h1 ^ (b1 as u64);
    let x2 = h2 ^ (b2 as u64);
    lemma_prime_product_undone(x1 as int);
    lemma_prime_product_undone(x2 as int);
}

/// Absorbing two sequences of one length that differ in exactly one byte
/// from the same state ends in different states.
pub proof fn lemma_fnv_fold_one_change(hash: u64, a: Seq<u8>, b: Seq<u8>, k: int)
    requires
        a.len() == b.len(),
        0 <= k < a.len(),
        a[k] != b[k],
        forall|j: int| 0 <= j < a.len() && j != k ==> a[j] == b[j],
    ensures
        fnv_fold(hash, a) != fnv_fold(hash, b),
    decreases a.len(),
{
    let n = a.len() as int;
    let x = a.last();
    let y = b.last();
    if k == n - 1 {
        assert(a.drop_last() =~= b.drop_last());
        let s = fnv_fold(hash, a.drop_last());
        if fnv_step(s, x) == fnv_step(s, y) {
            lemma_fnv_step_injective(s, x, s, y);
            assert(s ^ (x as u64) == s ^ (y as u64) ==> x == y) by (bit_vector);
        }
    } else {
        lemma_fnv_fold_one_change(hash, a.drop_last(), b.drop_last(), k);
        let s1 = fnv_fold(hash, a.drop_last());
        let s2 = fnv_fold(hash, b.drop_last());
        assert(x == y);
        if fnv_step(s1, x) == fnv_step(s2, x) {
            lemma_fnv_step_injective(s1, x, s2, x);
            assert(s1 ^ (x as u64) == s2 ^ (x as u64) ==> s1 == s2) by (bit_vector);
        }
    }
}

/// Changing any one byte changes the FNV-1a checksum.
pub proof fn lemma_fnv1a_detects_one_changed_byte(bytes: Seq<u8>, k: int, byte: u8)
    requires
        0 <= k < bytes.len(),
        byte != bytes[k],
    ensures
        fnv1a(bytes.update(k, byte)) != fnv1a(bytes),
{
    lemma_fnv_fold_one_change(FNV_OFFSET, bytes.update(k, byte), bytes, k);
}

/// A running 64-bit FNV-1a checksum.
pub struct Fnv64 {
    state: u64,
}

impl View for Fnv64 {
    type V = u64;

    closed spec fn view(&self) -> u64 {
        self.state
    }
}

impl Fnv64 {
    pub fn new() -> (hasher: Self)
        ensures
            hasher@ == FNV_OFFSET,
    {
        Fnv64 { state: FNV_OFFSET }
    }

    /// Absorbs `bytes`.
    pub fn update(&mut self, bytes: &[u8])
        ensures
            final(self)@ == fnv_fold(old(self)@, bytes@),
    {
        let ghost start = self.state;
        let mut i: usize = 0;
        while i < bytes.len()
            invariant
                i <= bytes@.len(),
                self.state == fnv_fold(start, bytes@.take(i as int)),
            decreases bytes.len() - i,
        {
            let mixed = self.state ^ (bytes[i] as u64);
            self.state = mixed.wrapping_mul(FNV_PRIME);
            proof {
                assert(bytes@.take(i + 1).drop_last() =~= bytes@.take(i as int));
            }
            i = i + 1;
        }
        proof {
            assert(bytes@.take(i as int) =~= bytes@);
        }
    }

    /// The checksum of everything absorbed so far.
    pub fn finish(&self) -> (hash: u64)
        ensures
            hash == self@,
    {
        self.state
    }
}

} // verus!
