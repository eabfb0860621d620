//! The arithmetic unit: half- and full-adders chained into a ripple-carry
//! 16-bit adder, an incrementer, and the six-control-bit ALU with its
//! zero/negative status outputs.

use crate::bits::bit16;
use crate::gates::{and16_gate, and_gate, mux16_gate, not16_gate, not_gate, or8way_gate, or_gate,
    xor_gate};
use vstd::arithmetic::div_mod::{lemma_add_mod_noop, lemma_small_mod};
use vstd::prelude::*;

verus! {

/// Addition modulo 2^16: what the ripple-carry adder computes once the final
/// carry is dropped.
pub open spec fn sum16(a: u16, b: u16) -> u16 {
    ((a + b) % 0x10000) as u16
}

/// One operand-conditioning stage of the ALU: optionally zero the word, then
/// optionally negate it bitwise.
pub open spec fn alu_operand(v: u16, zero: bool, negate: bool) -> u16 {
    let z = if zero {
        0u16
    } else {
        v
    };
    if negate {
        !z
    } else {
        z
    }
}

/// The ALU's fixed pipeline: condition both operands, add or bitwise-AND
/// them, then optionally negate the result bitwise.
pub open spec fn alu_out(
    x: u16,
    y: u16,
    zx: bool,
    nx: bool,
    zy: bool,
    ny: bool,
    f: bool,
    no: bool,
) -> u16 {
    let xo = alu_operand(x, zx, nx);
    let yo = alu_operand(y, zy, ny);
    let fo = if f {
        sum16(xo, yo)
    } else {
        xo & yo
    };
    if no {
        !fo
    } else {
        fo
    }
}

pub fn half_adder(a: bool, b: bool) -> (r: (bool, bool))
    ensures
        r.0 == (a != b),
        r.1 == (a && b),
{
    let sum = xor_gate(a, b);
    let carry = and_gate(a, b);

    (sum, carry)
}

pub fn full_adder(a: bool, b: bool, c: bool) -> (r: (bool, bool))
    ensures
        r.0 == ((a != b) != c),
        r.1 == ((a && b) || ((a != b) && c)),
{
    let (sum_1, carry_1) = half_adder(a, b);
    let (sum, carry_2) = half_adder(sum_1, c);
    let carry = or_gate(carry_1, carry_2);

    (sum, carry)
}

/// The adder's loop invariant: `out` holds the low `i` bits of the true sum
/// and `c` is the carry into bit position `i`.
spec fn add_inv(a: u16, b: u16, out: u16, c: bool, i: u16) -> bool {
    &&& (out as u32) < (1u32 << i)
    &&& (out as u32) + (if c {
        1u32 << i
    } else {
        0u32
    }) == ((a as u32) & (((1u32 << i) - 1) as u32)) + ((b as u32) & (((1u32 << i) - 1) as u32))
}

/// Ripple-carry addition: bit 0 through a half-adder, bits 1..15 through
/// full-adders fed by the previous carry; the final carry out of bit 15 is
/// dropped, giving addition modulo 2^16.
pub fn add_16(a: u16, b: u16) -> (r: u16)
    ensures
        r == sum16(a, b),
{
    let a_bit = (a >> 0u16) & 1 == 1;
    let b_bit = (b >> 0u16) & 1 == 1;
    let (out_bool, carry0) = half_adder(a_bit, b_bit);
    let mut c = carry0;
    let mut out: u16 = if out_bool {
        1
    } else {
        0
    };
    proof {
        assert(add_inv(a, b, out, c, 1)) by (bit_vector)
            requires
                out == (if out_bool {
                    1u16
                } else {
                    0u16
                }),
                out_bool == (((a >> 0u16) & 1 == 1) != ((b >> 0u16) & 1 == 1)),
                c == (((a >> 0u16) & 1 == 1) && ((b >> 0u16) & 1 == 1)),
        ;
    }

    let mut i: u16 = 1;
    while i < 16
        invariant
            1 <= i <= 16,
            add_inv(a, b, out, c, i),
        decreases 16 - i,
    {
        let a_bit = (a >> i) & 1 == 1;
        let b_bit = (b >> i) & 1 == 1;

        let (s, c_t) = full_adder(a_bit, b_bit, c);
        let sv: u16 = if s {
            1
        } else {
            0
        };
        let new_out = out | (sv << i);
        proof {
            assert(add_inv(a, b, new_out, c_t, (i + 1) as u16)) by (bit_vector)
                requires
                    i < 16,
                    add_inv(a, b, out, c, i),
                    new_out == out | (sv << i),
                    sv == (if s {
                        1u16
                    } else {
                        0u16
                    }),
                    s == ((((a >> i) & 1 == 1) != ((b >> i) & 1 == 1)) != c),
                    c_t == ((((a >> i) & 1 == 1) && ((b >> i) & 1 == 1)) || ((((a >> i) & 1 == 1)
                        != ((b >> i) & 1 == 1)) && c)),
            ;
        }
        out = new_out;
        c = c_t;
        i += 1;
    }
    proof {
        assert(out == (a + b) % 0x10000) by (bit_vector)
            requires
                add_inv(a, b, out, c, 16),
        ;
    }
    out
}

/// Incrementing is adding the constant one.
pub fn inc_16(a: u16) -> (r: u16)
    ensures
        r == sum16(a, 1),
{
    add_16(a, 1)
}

/// Addition modulo 2^16 is commutative and associative, has 0 as identity,
/// and wraps the all-ones word plus one around to zero.
pub proof fn lemma_add16_algebra(a: u16, b: u16, c: u16)
    ensures
        sum16(a, b) == sum16(b, a),
        sum16(sum16(a, b), c) == sum16(a, sum16(b, c)),
        sum16(a, 0) == a,
        sum16(0xFFFF, 1) == 0,
{
    lemma_small_mod(a as nat, 0x10000);
    lemma_small_mod(b as nat, 0x10000);
    lemma_small_mod(c as nat, 0x10000);
    lemma_add_mod_noop((a + b) as int, c as int, 0x10000);
    lemma_add_mod_noop(a as int, (b + c) as int, 0x10000);
}

/// Subtraction modulo 2^16, the two's-complement difference.
pub open spec fn diff16(a: u16, b: u16) -> u16 {
    ((a + 0x10000 - b) % 0x10000) as u16
}

/// The eighteen documented ALU functions: for every operand pair, the named
/// control settings compute the two constants and minus one, the
/// passthroughs, the bitwise negations, the two's-complement negations, the
/// increments and decrements, the modular sums and differences, AND, and OR.
pub proof fn lemma_alu_named_functions(x: u16, y: u16)
    by (bit_vector)
    ensures
        alu_out(x, y, true, false, true, false, true, false) == 0,
        alu_out(x, y, true, true, true, true, true, true) == 1,
        alu_out(x, y, true, true, true, false, true, false) == 0xFFFF,
        alu_out(x, y, false, false, true, true, false, false) == x,
        alu_out(x, y, true, true, false, false, false, false) == y,
        alu_out(x, y, false, false, true, true, false, true) == !x,
        alu_out(x, y, true, true, false, false, false, true) == !y,
        alu_out(x, y, false, false, true, true, true, true) == diff16(0, x),
        alu_out(x, y, true, true, false, false, true, true) == diff16(0, y),
        alu_out(x, y, false, true, true, true, true, true) == sum16(x, 1),
        alu_out(x, y, true, true, false, true, true, true) == sum16(y, 1),
        alu_out(x, y, false, false, true, true, true, false) == diff16(x, 1),
        alu_out(x, y, true, true, false, false, true, false) == diff16(y, 1),
        alu_out(x, y, false, false, false, false, true, false) == sum16(x, y),
        alu_out(x, y, false, true, false, false, true, true) == diff16(x, y),
        alu_out(x, y, false, false, false, true, true, true) == diff16(y, x),
        alu_out(x, y, false, false, false, false, false, false) == (x & y),
        alu_out(x, y, false, true, false, true, false, true) == (x | y),
{
}

/// The ALU. Output `out` follows the fixed conditioning/compute/negate
/// pipeline for every one of the 64 control combinations; `zr` is set exactly
/// when `out` is zero and `ng` exactly when its sign bit (bit 15) is set.
pub fn alu(x: u16, y: u16, zx: bool, nx: bool, zy: bool, ny: bool, f: bool, no: bool) -> (r: (
    u16,
    bool,
    bool,
))
    ensures
        r.0 == alu_out(x, y, zx, nx, zy, ny, f, no),
        r.1 == (r.0 == 0),
        r.2 == bit16(r.0, 15),
{
    let zx_out = mux16_gate(x, 0, zx);
    let not_zx_out = not16_gate(zx_out);
    let xout_1 = mux16_gate(zx_out, not_zx_out, nx);

    let zy_out = mux16_gate(y, 0, zy);
    let not_zy_out = not16_gate(zy_out);
    let yout_1 = mux16_gate(zy_out, not_zy_out, ny);

    let xy_sum = add_16(xout_1, yout_1);
    let xy_and = and16_gate(xout_1, yout_1);
    let out_f = mux16_gate(xy_and, xy_sum, f);

    let not_out_f = not16_gate(out_f);
    let out = mux16_gate(out_f, not_out_f, no);
    let ng = (out >> 15u16) & 1 == 1;
    let tmp_out_1 = (out & 0x00FF) as u8;
    let tmp_out_2 = ((out & 0xFF00) >> 8u16) as u8;

    let tout_1 = or8way_gate(tmp_out_1);
    let tout_2 = or8way_gate(tmp_out_2);
    let tout = or_gate(tout_1, tout_2);
    let zr = not_gate(tout);

    proof {
        assert((((out & 0x00FF) as u8) != 0 || (((out & 0xFF00) >> 8u16) as u8) != 0) == (out != 0))
            by (bit_vector);
    }
    (out, zr, ng)
}

} // verus!
