//! Conversions between unsigned integers and their fixed-width bit-vector
//! representations, stored most-significant bit first. Together with the
//! lemmas in `bits`, each fixed-width pair of conversions is a bijection.

use crate::bits::{bit16, bit32, bit8, bits16_of, bits32_of, bits8_of, lemma_word_of_bits16,
    lemma_word_of_bits32, lemma_word_of_bits8, lemma_word_of_bound, word_of};
use vstd::arithmetic::power2::{lemma2_to64, lemma_pow2_strictly_increases};
use vstd::prelude::*;

verus! {

/// The 16 bits of `value`, most significant first.
pub fn u16_to_vec_bool(value: u16) -> (r: Vec<bool>)
    ensures
        r@ == bits16_of(value),
        r@.len() == 16,
        word_of(r@) == value,
{
    let mut res: Vec<bool> = Vec::new();
    let mut i: u16 = 0;
    while i < 16
        invariant
            i <= 16,
            res@.len() == i as int,
            forall|k: int| 0 <= k < i ==> res@[k] == bit16(value, (15 - k) as u16),
        decreases 16 - i,
    {
        let b = (value >> (15 - i)) & 1 == 1;
        res.push(b);
        i += 1;
    }
    proof {
        assert(res@ =~= bits16_of(value));
        lemma_word_of_bits16(value);
    }
    res
}

/// The value of a bit sequence of at most 16 places, most significant first.
pub fn vec_bool_to_u16(value: Vec<bool>) -> (r: u16)
    requires
        value@.len() <= 16,
    ensures
        r == word_of(value@),
{
    let n = value.len();
    let mut res: u16 = 0;
    let mut i: usize = 0;
    while i < n
        invariant
            i <= n,
            n == value@.len(),
            n <= 16,
            res == word_of(value@.take(i as int)),
        decreases n - i,
    {
        proof {
            lemma_word_of_bound(value@.take(i as int));
            if (i as nat) < 15 {
                lemma_pow2_strictly_increases(i as nat, 15);
            }
            lemma2_to64();
            assert(value@.take(i as int + 1).drop_last() =~= value@.take(i as int));
        }
        let b: u16 = if value[i] {
            1
        } else {
            0
        };
        res = res * 2 + b;
        i += 1;
    }
    proof {
        assert(value@.take(n as int) =~= value@);
    }
    res
}

/// The value of a bit sequence of at most 8 places, most significant first.
pub fn vec_bool_to_u8(value: Vec<bool>) -> (r: u8)
    requires
        value@.len() <= 8,
    ensures
        r == word_of(value@),
{
    let n = value.len();
    let mut res: u8 = 0;
    let mut i: usize = 0;
    while i < n
        invariant
            i <= n,
            n == value@.len(),
            n <= 8,
            res == word_of(value@.take(i as int)),
        decreases n - i,
    {
        proof {
            lemma_word_of_bound(value@.take(i as int));
            if (i as nat) < 7 {
                lemma_pow2_strictly_increases(i as nat, 7);
            }
            lemma2_to64();
            assert(value@.take(i as int + 1).drop_last() =~= value@.take(i as int));
        }
        let b: u8 = if value[i] {
            1
        } else {
            0
        };
        res = res * 2 + b;
        i += 1;
    }
    proof {
        assert(value@.take(n as int) =~= value@);
    }
    res
}

/// The 8 bits of `value`, most significant first.
pub fn u8_to_vec_bool(value: u8) -> (r: Vec<bool>)
    ensures
        r@ == bits8_of(value),
        r@.len() == 8,
        word_of(r@) == value,
{
    let mut res: Vec<bool> = Vec::new();
    let mut i: u8 = 0;
    while i < 8
        invariant
            i <= 8,
            res@.len() == i as int,
            forall|k: int| 0 <= k < i ==> res@[k] == bit8(value, (7 - k) as u8),
        decreases 8 - i,
    {
        let b = (value >> (7 - i)) & 1 == 1;
        res.push(b);
        i += 1;
    }
    proof {
        assert(res@ =~= bits8_of(value));
        lemma_word_of_bits8(value);
    }
    res
}

/// The 32 bits of `value`, most significant first.
pub fn u32_to_vec_bool(value: u32) -> (r: Vec<bool>)
    ensures
        r@ == bits32_of(value),
        r@.len() == 32,
        word_of(r@) == value,
{
    let mut res: Vec<bool> = Vec::new();
    let mut i: u32 = 0;
    while i < 32
        invariant
            i <= 32,
            res@.len() == i as int,
            forall|k: int| 0 <= k < i ==> res@[k] == bit32(value, (31 - k) as u32),
        decreases 32 - i,
    {
        let b = (value >> (31 - i)) & 1 == 1;
        res.push(b);
        i += 1;
    }
    proof {
        assert(res@ =~= bits32_of(value));
        lemma_word_of_bits32(value);
    }
    res
}

/// The value of a bit sequence of at most 32 places, most significant first.
pub fn vec_bool_to_u32(value: Vec<bool>) -> (r: u32)
    requires
        value@.len() <= 32,
    ensures
        r == word_of(value@),
{
    let n = value.len();
    let mut res: u32 = 0;
    let mut i: usize = 0;
    while i < n
        invariant
            i <= n,
            n == value@.len(),
            n <= 32,
            res == word_of(value@.take(i as int)),
        decreases n - i,
    {
        proof {
            lemma_word_of_bound(value@.take(i as int));
            if (i as nat) < 31 {
                lemma_pow2_strictly_increases(i as nat, 31);
            }
            lemma2_to64();
            assert(value@.take(i as int + 1).drop_last() =~= value@.take(i as int));
        }
        let b: u32 = if value[i] {
            1
        } else {
            0
        };
        res = res * 2 + b;
        i += 1;
    }
    proof {
        assert(value@.take(n as int) =~= value@);
    }
    res
}

} // verus!
