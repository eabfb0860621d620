//! Bit-level vocabulary shared by the whole crate: single-bit projections of
//! machine words, the unsigned value of an ordered bit sequence, and the
//! lemmas connecting the two views.

use vstd::arithmetic::power2::{lemma2_to64, lemma_pow2_strictly_increases, lemma_pow2_unfold, pow2};
use vstd::prelude::*;

verus! {

/// True iff bit `i` (bit 0 is least significant) of `x` is set.
pub open spec fn bit16(x: u16, i: u16) -> bool {
    (x >> i) & 1u16 == 1u16
}

/// True iff bit `i` (bit 0 is least significant) of `x` is set.
pub open spec fn bit8(x: u8, i: u8) -> bool {
    (x >> i) & 1u8 == 1u8
}

/// True iff bit `i` (bit 0 is least significant) of `x` is set.
pub open spec fn bit32(x: u32, i: u32) -> bool {
    (x >> i) & 1u32 == 1u32
}

/// Unsigned value of a bit sequence stored most-significant bit first.
pub open spec fn word_of(s: Seq<bool>) -> nat
    decreases s.len(),
{
    if s.len() == 0 {
        0
    } else {
        2 * word_of(s.drop_last()) + (if s.last() {
            1nat
        } else {
            0nat
        })
    }
}

/// The 16 bits of `v`, most significant first.
pub open spec fn bits16_of(v: u16) -> Seq<bool> {
    Seq::new(16, |i: int| bit16(v, (15 - i) as u16))
}

/// The 8 bits of `v`, most significant first.
pub open spec fn bits8_of(v: u8) -> Seq<bool> {
    Seq::new(8, |i: int| bit8(v, (7 - i) as u8))
}

/// The 32 bits of `v`, most significant first.
pub open spec fn bits32_of(v: u32) -> Seq<bool> {
    Seq::new(32, |i: int| bit32(v, (31 - i) as u32))
}

/// The low 3 bits of `v`, most significant first: an 8-way address.
pub open spec fn bits3_of(v: u8) -> Seq<bool> {
    seq![bit8(v, 2), bit8(v, 1), bit8(v, 0)]
}

pub proof fn lemma_u16_bitops(x: u16, y: u16, j: u16)
    by (bit_vector)
    requires
        j < 16,
    ensures
        bit16(x & y, j) == (bit16(x, j) && bit16(y, j)),
        bit16(x | y, j) == (bit16(x, j) || bit16(y, j)),
        bit16(!x, j) == !bit16(x, j),
{
}

pub proof fn lemma_u16_set_bit(x: u16, b: u16, i: u16, j: u16)
    by (bit_vector)
    requires
        i < 16,
        j < 16,
        b <= 1,
        !bit16(x, i),
    ensures
        bit16(x | (b << i), j) == (if j == i {
            b == 1
        } else {
            bit16(x, j)
        }),
{
}

pub proof fn lemma_u16_zero_bits(j: u16)
    by (bit_vector)
    requires
        j < 16,
    ensures
        !bit16(0u16, j),
{
}

/// Two 16-bit words with the same bits are the same word.
pub proof fn lemma_u16_eq_by_bits(a: u16, b: u16)
    requires
        forall|j: u16| j < 16 ==> bit16(a, j) == bit16(b, j),
    ensures
        a == b,
{
    assert(a == b) by (bit_vector)
        requires
            bit16(a, 0) == bit16(b, 0),
            bit16(a, 1) == bit16(b, 1),
            bit16(a, 2) == bit16(b, 2),
            bit16(a, 3) == bit16(b, 3),
            bit16(a, 4) == bit16(b, 4),
            bit16(a, 5) == bit16(b, 5),
            bit16(a, 6) == bit16(b, 6),
            bit16(a, 7) == bit16(b, 7),
            bit16(a, 8) == bit16(b, 8),
            bit16(a, 9) == bit16(b, 9),
            bit16(a, 10) == bit16(b, 10),
            bit16(a, 11) == bit16(b, 11),
            bit16(a, 12) == bit16(b, 12),
            bit16(a, 13) == bit16(b, 13),
            bit16(a, 14) == bit16(b, 14),
            bit16(a, 15) == bit16(b, 15),
    ;
}

/// A bit sequence of length `n` denotes a value below `2^n`.
pub proof fn lemma_word_of_bound(s: Seq<bool>)
    ensures
        word_of(s) < pow2(s.len()),
    decreases s.len(),
{
    if s.len() == 0 {
        lemma2_to64();
    } else {
        lemma_word_of_bound(s.drop_last());
        lemma_pow2_unfold(s.len());
    }
}

/// Equal-length bit sequences with the same value are equal: `word_of` is
/// injective at each width, so the integer/bit-vector conversions are bijective.
pub proof fn lemma_word_of_injective(s1: Seq<bool>, s2: Seq<bool>)
    requires
        s1.len() == s2.len(),
        word_of(s1) == word_of(s2),
    ensures
        s1 == s2,
    decreases s1.len(),
{
    if s1.len() == 0 {
        assert(s1 =~= s2);
    } else {
        assert(s1.last() == s2.last());
        lemma_word_of_injective(s1.drop_last(), s2.drop_last());
        assert forall|i: int| 0 <= i < s1.len() implies s1[i] == s2[i] by {
            if i < s1.len() - 1 {
                assert(s1.drop_last()[i] == s2.drop_last()[i]);
            }
        }
        assert(s1 =~= s2);
    }
}

proof fn lemma_word_of_bits16_step(v: u16, n: u16)
    by (bit_vector)
    requires
        n < 16,
    ensures
        (v >> ((15 - n) as u16)) == 2 * (v >> ((16 - n) as u16)) + (if bit16(v, (15 - n) as u16) {
            1int
        } else {
            0int
        }),
{
}

proof fn lemma_word_of_bits16_take(v: u16, n: u16)
    requires
        n <= 16,
    ensures
        word_of(bits16_of(v).take(n as int)) == (v >> ((16 - n) as u16)) as nat,
    decreases n,
{
    if n == 0 {
        assert(v >> 16u16 == 0) by (bit_vector);
    } else {
        let m = (n - 1) as u16;
        lemma_word_of_bits16_take(v, m);
        let s = bits16_of(v);
        assert(s.take(n as int).drop_last() =~= s.take(m as int));
        assert(s.take(n as int).last() == bit16(v, (15 - m) as u16));
        lemma_word_of_bits16_step(v, m);
    }
}

/// The value of the bits of `v`, most significant first, is `v` itself.
pub proof fn lemma_word_of_bits16(v: u16)
    ensures
        word_of(bits16_of(v)) == v,
{
    lemma_word_of_bits16_take(v, 16);
    assert(bits16_of(v).take(16) =~= bits16_of(v));
    assert(v >> 0u16 == v) by (bit_vector);
}

/// Converting a 16-place bit sequence to its value and back is the identity.
pub proof fn lemma_bits16_of_word(s: Seq<bool>)
    requires
        s.len() == 16,
    ensures
        word_of(s) < 0x10000,
        bits16_of(word_of(s) as u16) == s,
{
    lemma_word_of_bound(s);
    lemma2_to64();
    let v = word_of(s) as u16;
    lemma_word_of_bits16(v);
    lemma_word_of_injective(bits16_of(v), s);
}

proof fn lemma_word_of_bits8_step(v: u8, n: u8)
    by (bit_vector)
    requires
        n < 8,
    ensures
        (v >> ((7 - n) as u8)) == 2 * (v >> ((8 - n) as u8)) + (if bit8(v, (7 - n) as u8) {
            1int
        } else {
            0int
        }),
{
}

proof fn lemma_word_of_bits8_take(v: u8, n: u8)
    requires
        n <= 8,
    ensures
        word_of(bits8_of(v).take(n as int)) == (v >> ((8 - n) as u8)) as nat,
    decreases n,
{
    if n == 0 {
        assert(v >> 8u8 == 0) by (bit_vector);
    } else {
        let m = (n - 1) as u8;
        lemma_word_of_bits8_take(v, m);
        let s = bits8_of(v);
        assert(s.take(n as int).drop_last() =~= s.take(m as int));
        assert(s.take(n as int).last() == bit8(v, (7 - m) as u8));
        lemma_word_of_bits8_step(v, m);
    }
}

/// The value of the bits of `v`, most significant first, is `v` itself.
pub proof fn lemma_word_of_bits8(v: u8)
    ensures
        word_of(bits8_of(v)) == v,
{
    lemma_word_of_bits8_take(v, 8);
    assert(bits8_of(v).take(8) =~= bits8_of(v));
    assert(v >> 0u8 == v) by (bit_vector);
}

/// Converting an 8-place bit sequence to its value and back is the identity.
pub proof fn lemma_bits8_of_word(s: Seq<bool>)
    requires
        s.len() == 8,
    ensures
        word_of(s) < 0x100,
        bits8_of(word_of(s) as u8) == s,
{
    lemma_word_of_bound(s);
    lemma2_to64();
    let v = word_of(s) as u8;
    lemma_word_of_bits8(v);
    lemma_word_of_injective(bits8_of(v), s);
}

proof fn lemma_word_of_bits32_step(v: u32, n: u32)
    by (bit_vector)
    requires
        n < 32,
    ensures
        (v >> ((31 - n) as u32)) == 2 * (v >> ((32 - n) as u32)) + (if bit32(v, (31 - n) as u32) {
            1int
        } else {
            0int
        }),
{
}

proof fn lemma_word_of_bits32_take(v: u32, n: u32)
    requires
        n <= 32,
    ensures
        word_of(bits32_of(v).take(n as int)) == (v >> ((32 - n) as u32)) as nat,
    decreases n,
{
    if n == 0 {
        assert(v >> 32u32 == 0) by (bit_vector);
    } else {
        let m = (n - 1) as u32;
        lemma_word_of_bits32_take(v, m);
        let s = bits32_of(v);
        assert(s.take(n as int).drop_last() =~= s.take(m as int));
        assert(s.take(n as int).last() == bit32(v, (31 - m) as u32));
        lemma_word_of_bits32_step(v, m);
    }
}

/// The value of the bits of `v`, most significant first, is `v` itself.
pub proof fn lemma_word_of_bits32(v: u32)
    ensures
        word_of(bits32_of(v)) == v,
{
    lemma_word_of_bits32_take(v, 32);
    assert(bits32_of(v).take(32) =~= bits32_of(v));
    assert(v >> 0u32 == v) by (bit_vector);
}

/// Converting a 32-place bit sequence to its value and back is the identity.
pub proof fn lemma_bits32_of_word(s: Seq<bool>)
    requires
        s.len() == 32,
    ensures
        word_of(s) < 0x1_0000_0000,
        bits32_of(word_of(s) as u32) == s,
{
    lemma_word_of_bound(s);
    lemma2_to64();
    let v = word_of(s) as u32;
    lemma_word_of_bits32(v);
    lemma_word_of_injective(bits32_of(v), s);
}

/// Masking a 3-bit address with its own width changes nothing.
pub proof fn lemma_u8_low3(v: u8)
    by (bit_vector)
    requires
        v < 8,
    ensures
        v & 7 == v,
{
}

/// The value of a 3-bit address, most significant first, and back.
pub proof fn lemma_word_of_bits3(v: u8)
    requires
        v < 8,
    ensures
        word_of(bits3_of(v)) == v,
{
    let b2 = bit8(v, 2);
    let b1 = bit8(v, 1);
    let b0 = bit8(v, 0);
    let s = bits3_of(v);
    reveal_with_fuel(word_of, 4);
    assert(s.drop_last().len() == 2 && s.drop_last().last() == b1);
    assert(s.drop_last().drop_last().len() == 1 && s.drop_last().drop_last().last() == b2);
    assert(s.drop_last().drop_last().drop_last().len() == 0);
    assert(word_of(s) == 4 * (if b2 { 1nat } else { 0nat }) + 2 * (if b1 { 1nat } else { 0nat })
        + (if b0 { 1nat } else { 0nat }));
    assert(4 * (if bit8(v, 2) { 1int } else { 0int }) + 2 * (if bit8(v, 1) { 1int } else { 0int })
        + (if bit8(v, 0) { 1int } else { 0int }) == v) by (bit_vector)
        requires
            v < 8,
    ;
}

/// Converting a 3-place bit sequence to its value and back is the identity.
pub proof fn lemma_bits3_of_word(s: Seq<bool>)
    requires
        s.len() == 3,
    ensures
        word_of(s) < 8,
        bits3_of(word_of(s) as u8) == s,
{
    lemma_word_of_bound(s);
    lemma2_to64();
    let v = word_of(s) as u8;
    lemma_word_of_bits3(v);
    lemma_word_of_injective(bits3_of(v), s);
}

} // verus!
