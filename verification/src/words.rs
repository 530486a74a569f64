//! Machine words as byte strings.
//!
//! A payload is a run of machine words, each laid out in the byte order and
//! width of the target architecture.  Everything here is stated over
//! [`le_bytes32`] and [`le_bytes64`], the little-endian layouts, and over
//! [`le_value`], which reads such a layout back.

use vstd::prelude::*;

verus! {

/// Byte order of a machine word.
#[derive(Copy, Clone, Debug, PartialEq, Eq, Structural)]
pub enum Endian {
    Big,
    Little,
}

/// The four bytes of `word`, least significant first.
pub open spec fn le_bytes32(word: u32) -> Seq<u8> {
    seq![
        (word & 0xFF) as u8,
        ((word >> 8) & 0xFF) as u8,
        ((word >> 16) & 0xFF) as u8,
        ((word >> 24) & 0xFF) as u8,
    ]
}

/// The eight bytes of `word`, least significant first.
pub open spec fn le_bytes64(word: u64) -> Seq<u8> {
    le_bytes32((word & 0xFFFF_FFFF) as u32) + le_bytes32((word >> 32) as u32)
}

/// The number that a little-endian byte string stands for.
pub open spec fn le_value(bytes: Seq<u8>) -> nat
    decreases bytes.len(),
{
    if bytes.len() == 0 {
        0
    } else {
        bytes[0] as nat + 256 * le_value(bytes.drop_first())
    }
}

/// The little-endian layouts of `words`, one after the other.
pub open spec fn le_bytes32_seq(words: Seq<u32>) -> Seq<u8>
    decreases words.len(),
{
    if words.len() == 0 {
        Seq::empty()
    } else {
        le_bytes32_seq(words.drop_last()) + le_bytes32(words.last())
    }
}

/// The little-endian layouts of `words`, one after the other.
pub open spec fn le_bytes64_seq(words: Seq<u64>) -> Seq<u8>
    decreases words.len(),
{
    if words.len() == 0 {
        Seq::empty()
    } else {
        le_bytes64_seq(words.drop_last()) + le_bytes64(words.last())
    }
}

/// The layout of `word` in `size` bytes: the low `size` bytes of the word, in
/// the given byte order.  Meaningful for sizes 4 and 8.
pub open spec fn word_bytes(word: u64, size: usize, endian: Endian) -> Seq<u8> {
    let le = if size == 4 {
        le_bytes32((word & 0xFFFF_FFFF) as u32)
    } else {
        le_bytes64(word)
    };
    if endian == Endian::Big {
        le.reverse()
    } else {
        le
    }
}

pub fn pack_word32le(word: u32) -> (p: Vec<u8>)
    ensures
        p@ == le_bytes32(word),
{
    let mut p: Vec<u8> = Vec::new();
    assert((word & 0xFF00) >> 0x08 == (word >> 8) & 0xFF) by (bit_vector);
    assert((word & 0xFF0000) >> 0x10 == (word >> 16) & 0xFF) by (bit_vector);
    assert((word & 0xFF000000) >> 0x18 == (word >> 24) & 0xFF) by (bit_vector);
    assert(word & 0xFF < 256 && (word >> 8) & 0xFF < 256 && (word >> 16) & 0xFF < 256 && (word
        >> 24) & 0xFF < 256) by (bit_vector);
    p.push((word & 0xFF) as u8);
    p.push(((word & 0xFF00) >> 0x08) as u8);
    p.push(((word & 0xFF0000) >> 0x10) as u8);
    p.push(((word & 0xFF000000) >> 0x18) as u8);
    assert(p@ =~= le_bytes32(word));
    p
}

pub fn pack_word32le_vec(v: &[u32]) -> (p: Vec<u8>)
    ensures
        p@ == le_bytes32_seq(v@),
{
    let mut p: Vec<u8> = Vec::new();
    let mut i: usize = 0;
    while i < v.len()
        invariant
            i <= v.len(),
            p@ == le_bytes32_seq(v@.take(i as int)),
        decreases v.len() - i,
    {
        let mut w = pack_word32le(v[i]);
        p.append(&mut w);
        proof {
            assert(v@.take(i + 1).drop_last() =~= v@.take(i as int));
        }
        i += 1;
    }
    assert(v@.take(i as int) =~= v@);
    p
}

pub fn pack_word64le(word: u64) -> (p: Vec<u8>)
    ensures
        p@ == le_bytes64(word),
{
    assert((word & 0xFFFFFFFF00000000) >> 0x20 == word >> 32) by (bit_vector);
    assert(word >> 32 <= 0xFFFF_FFFF && word & 0xFFFF_FFFF <= 0xFFFF_FFFF) by (bit_vector);
    let hi: u32 = ((word & 0xFFFFFFFF00000000) >> 0x20) as u32;
    let lo: u32 = (word & 0xFFFFFFFF) as u32;
    let mut p = pack_word32le(lo);
    let mut q = pack_word32le(hi);
    p.append(&mut q);
    p
}

pub fn pack_word64le_vec(v: &[u64]) -> (p: Vec<u8>)
    ensures
        p@ == le_bytes64_seq(v@),
{
    let mut p: Vec<u8> = Vec::new();
    let mut i: usize = 0;
    while i < v.len()
        invariant
            i <= v.len(),
            p@ == le_bytes64_seq(v@.take(i as int)),
        decreases v.len() - i,
    {
        let mut w = pack_word64le(v[i]);
        p.append(&mut w);
        proof {
            assert(v@.take(i + 1).drop_last() =~= v@.take(i as int));
        }
        i += 1;
    }
    assert(v@.take(i as int) =~= v@);
    p
}

/// The bytes of `v` in the opposite order.
pub fn reversed(v: &Vec<u8>) -> (r: Vec<u8>)
    ensures
        r@ == v@.reverse(),
{
    let mut r: Vec<u8> = Vec::new();
    let mut i: usize = v.len();
    while i > 0
        invariant
            i <= v.len(),
            r@.len() == v.len() - i,
            forall|k: int| 0 <= k < r@.len() ==> r@[k] == v@[v.len() - 1 - k],
        decreases i,
    {
        i -= 1;
        r.push(v[i]);
    }
    assert(r@ =~= v@.reverse());
    r
}

/// Lays `word` out in `size` bytes, in the given byte order.
pub fn pack_word(word: u64, size: usize, endian: Endian) -> (p: Vec<u8>)
    requires
        size == 4 || size == 8,
    ensures
        p@ == word_bytes(word, size, endian),
        p@.len() == size,
{
    let p = if size == 4 {
        assert(word & 0xFFFF_FFFF <= 0xFFFF_FFFF) by (bit_vector);
        pack_word32le((word & 0xFFFF_FFFF) as u32)
    } else {
        pack_word64le(word)
    };
    match endian {
        Endian::Big => reversed(&p),
        Endian::Little => p,
    }
}

/// Reading a 32-bit layout back gives the word.
pub proof fn lemma_le_value32(word: u32)
    ensures
        le_value(le_bytes32(word)) == word,
{
    let b = le_bytes32(word);
    let b1 = b.drop_first();
    let b2 = b1.drop_first();
    let b3 = b2.drop_first();
    let b4 = b3.drop_first();
    assert(b4.len() == 0);
    assert(le_value(b4) == 0);
    assert(le_value(b3) == b3[0] as nat + 256 * le_value(b4));
    assert(le_value(b2) == b2[0] as nat + 256 * le_value(b3));
    assert(le_value(b1) == b1[0] as nat + 256 * le_value(b2));
    assert(le_value(b) == b[0] as nat + 256 * le_value(b1));
    assert(word == (word & 0xFF) + 256 * ((word >> 8) & 0xFF) + 65536 * ((word >> 16) & 0xFF)
        + 16777216 * ((word >> 24) & 0xFF)) by (bit_vector);
    assert(word & 0xFF < 256 && (word >> 8) & 0xFF < 256 && (word >> 16) & 0xFF < 256 && (word
        >> 24) & 0xFF < 256) by (bit_vector);
}

/// The value of two byte strings laid end to end.
pub proof fn lemma_le_value_concat(a: Seq<u8>, b: Seq<u8>)
    ensures
        le_value(a + b) == le_value(a) + vstd::arithmetic::power::pow(256, a.len()) * le_value(b),
    decreases a.len(),
{
    vstd::arithmetic::power::lemma_pow0(256);
    if a.len() == 0 {
        assert(a + b =~= b);
    } else {
        lemma_le_value_concat(a.drop_first(), b);
        assert((a + b).drop_first() =~= a.drop_first() + b);
        vstd::arithmetic::power::lemma_pow_adds(256, 1, (a.len() - 1) as nat);
        vstd::arithmetic::power::lemma_pow1(256);
        let p = vstd::arithmetic::power::pow(256, (a.len() - 1) as nat);
        let v = le_value(b) as int;
        assert(256 * (p * v) == (256 * p) * v) by (nonlinear_arith);
    }
}

/// Reading a 64-bit layout back gives the word.
pub proof fn lemma_le_value64(word: u64)
    ensures
        le_value(le_bytes64(word)) == word,
{
    let lo = (word & 0xFFFF_FFFF) as u32;
    let hi = (word >> 32) as u32;
    lemma_le_value32(lo);
    lemma_le_value32(hi);
    lemma_le_value_concat(le_bytes32(lo), le_bytes32(hi));
    assert(vstd::arithmetic::power::pow(256, 4) == 0x1_0000_0000) by {
        reveal_with_fuel(vstd::arithmetic::power::pow, 5);
    }
    assert(word == (word & 0xFFFF_FFFF) + 0x1_0000_0000 * (word >> 32)) by (bit_vector);
    assert(word >> 32 <= 0xFFFF_FFFF && word & 0xFFFF_FFFF <= 0xFFFF_FFFF) by (bit_vector);
}

} // verus!
