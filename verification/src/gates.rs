//! The boolean gate library: single-bit gates derived from NAND, their
//! word-wide (16-bit) variants applied independently at every bit position,
//! and the N-way selection/routing gates.

use crate::bits::{bit16, bit8, lemma_u16_bitops, lemma_u16_eq_by_bits, lemma_u16_set_bit,
    lemma_u16_zero_bits};
use vstd::prelude::*;

verus! {

/// NAND, the primitive every other gate is derived from.
pub open spec fn spec_nand(x: bool, y: bool) -> bool {
    !(x && y)
}

/// A 2-way multiplexer: `x` when `sel` is false, `y` when `sel` is true.
pub open spec fn spec_mux(x: bool, y: bool, sel: bool) -> bool {
    if sel {
        y
    } else {
        x
    }
}

/// A 2-way demultiplexer: `x` appears on exactly one of the two outputs.
pub open spec fn spec_dmux(x: bool, sel: bool) -> (bool, bool) {
    (x && !sel, x && sel)
}

pub fn and_gate(x: bool, y: bool) -> (r: bool)
    ensures
        r == (x && y),
{
    x && y
}

pub fn or_gate(x: bool, y: bool) -> (r: bool)
    ensures
        r == (x || y),
{
    x || y
}

pub fn not_gate(x: bool) -> (r: bool)
    ensures
        r == !x,
{
    !x
}

pub fn nand_gate(x: bool, y: bool) -> (r: bool)
    ensures
        r == spec_nand(x, y),
{
    not_gate(and_gate(x, y))
}

pub fn xor_gate(x: bool, y: bool) -> (r: bool)
    ensures
        r == (x != y),
{
    let out1 = nand_gate(x, x);
    let out2 = nand_gate(y, y);
    let out3 = nand_gate(out1, y);
    let out4 = nand_gate(out2, x);
    nand_gate(out3, out4)
}

pub fn mux(x: bool, y: bool, sel: bool) -> (r: bool)
    ensures
        r == spec_mux(x, y, sel),
{
    let out2 = not_gate(sel);
    let out3 = and_gate(x, out2);
    let out4 = and_gate(y, sel);
    or_gate(out3, out4)
}

pub fn dmux_gate(x: bool, sel: bool) -> (r: (bool, bool))
    ensures
        r == spec_dmux(x, sel),
{
    let out1 = not_gate(sel);
    (and_gate(x, out1), and_gate(x, sel))
}

/// NAND is universal: AND, OR, NOT, XOR, MUX and DMUX, written purely as
/// repeated NAND applications, agree with their direct definitions on every
/// input combination; and XOR is the negation of equality.
pub proof fn lemma_nand_universal(a: bool, b: bool, sel: bool)
    ensures
        spec_nand(a, a) == !a,
        spec_nand(spec_nand(a, b), spec_nand(a, b)) == (a && b),
        spec_nand(spec_nand(a, a), spec_nand(b, b)) == (a || b),
        spec_nand(spec_nand(spec_nand(a, a), b), spec_nand(spec_nand(b, b), a)) == (a != b),
        (a != b) == !(a == b),
        spec_nand(spec_nand(a, spec_nand(sel, sel)), spec_nand(b, sel)) == spec_mux(a, b, sel),
        ({
            let keep = spec_nand(a, spec_nand(sel, sel));
            let first = spec_nand(keep, keep);
            let pass = spec_nand(a, sel);
            let second = spec_nand(pass, pass);
            (first, second) == spec_dmux(a, sel)
        }),
{
}

/// Demultiplexing and then re-combining through a multiplexer with the same
/// selector reconstructs the routed bit.
pub proof fn lemma_dmux_mux_round_trip(x: bool, sel: bool)
    ensures
        spec_mux(spec_dmux(x, sel).0, spec_dmux(x, sel).1, sel) == x,
{
}

pub fn not16_gate(x: u16) -> (r: u16)
    ensures
        r == !x,
{
    let mut result: u16 = 0;
    let mut i: u16 = 0;
    proof {
        assert forall|j: u16| j < 16 implies !(#[trigger] bit16(0u16, j)) by {
            lemma_u16_zero_bits(j);
        }
    }
    while i < 16
        invariant
            i <= 16,
            forall|j: u16| j < i ==> (#[trigger] bit16(result, j)) == bit16(!x, j),
            forall|j: u16| i <= j < 16 ==> !(#[trigger] bit16(result, j)),
        decreases 16 - i,
    {
        let bit = (x >> i) & 1 == 1;
        let res = not_gate(bit);
        let b: u16 = if res {
            1
        } else {
            0
        };
        proof {
            assert forall|j: u16| j < 16 implies (#[trigger] bit16(result | (b << i), j)) == (if j
                == i {
                b == 1
            } else {
                bit16(result, j)
            }) by {
                lemma_u16_set_bit(result, b, i, j);
            }
            lemma_u16_bitops(x, x, i);
        }
        result = result | (b << i);
        i += 1;
    }
    proof {
        lemma_u16_eq_by_bits(result, !x);
    }
    result
}

pub fn and16_gate(x: u16, y: u16) -> (r: u16)
    ensures
        r == (x & y),
{
    let mut result: u16 = 0;
    let mut i: u16 = 0;
    proof {
        assert forall|j: u16| j < 16 implies !(#[trigger] bit16(0u16, j)) by {
            lemma_u16_zero_bits(j);
        }
    }
    while i < 16
        invariant
            i <= 16,
            forall|j: u16| j < i ==> (#[trigger] bit16(result, j)) == bit16(x & y, j),
            forall|j: u16| i <= j < 16 ==> !(#[trigger] bit16(result, j)),
        decreases 16 - i,
    {
        let x_bit = (x >> i) & 1 == 1;
        let y_bit = (y >> i) & 1 == 1;
        let res = and_gate(x_bit, y_bit);
        let b: u16 = if res {
            1
        } else {
            0
        };
        proof {
            assert forall|j: u16| j < 16 implies (#[trigger] bit16(result | (b << i), j)) == (if j
                == i {
                b == 1
            } else {
                bit16(result, j)
            }) by {
                lemma_u16_set_bit(result, b, i, j);
            }
            lemma_u16_bitops(x, y, i);
        }
        result = result | (b << i);
        i += 1;
    }
    proof {
        lemma_u16_eq_by_bits(result, x & y);
    }
    result
}

pub fn or16_gate(x: u16, y: u16) -> (r: u16)
    ensures
        r == (x | y),
{
    let mut result: u16 = 0;
    let mut i: u16 = 0;
    proof {
        assert forall|j: u16| j < 16 implies !(#[trigger] bit16(0u16, j)) by {
            lemma_u16_zero_bits(j);
        }
    }
    while i < 16
        invariant
            i <= 16,
            forall|j: u16| j < i ==> (#[trigger] bit16(result, j)) == bit16(x | y, j),
            forall|j: u16| i <= j < 16 ==> !(#[trigger] bit16(result, j)),
        decreases 16 - i,
    {
        let x_bit = (x >> i) & 1 == 1;
        let y_bit = (y >> i) & 1 == 1;
        let res = or_gate(x_bit, y_bit);
        let b: u16 = if res {
            1
        } else {
            0
        };
        proof {
            assert forall|j: u16| j < 16 implies (#[trigger] bit16(result | (b << i), j)) == (if j
                == i {
                b == 1
            } else {
                bit16(result, j)
            }) by {
                lemma_u16_set_bit(result, b, i, j);
            }
            lemma_u16_bitops(x, y, i);
        }
        result = result | (b << i);
        i += 1;
    }
    proof {
        lemma_u16_eq_by_bits(result, x | y);
    }
    result
}

/// Word-wide multiplexer: every bit position selects between the two operands
/// with the same selector, so the whole word is `x` or `y`.
pub fn mux16_gate(x: u16, y: u16, sel: bool) -> (r: u16)
    ensures
        r == (if sel {
            y
        } else {
            x
        }),
{
    let z = if sel {
        y
    } else {
        x
    };
    let mut result: u16 = 0;
    let mut i: u16 = 0;
    proof {
        assert forall|j: u16| j < 16 implies !(#[trigger] bit16(0u16, j)) by {
            lemma_u16_zero_bits(j);
        }
    }
    while i < 16
        invariant
            z == (if sel {
                y
            } else {
                x
            }),
            i <= 16,
            forall|j: u16| j < i ==> (#[trigger] bit16(result, j)) == bit16(z, j),
            forall|j: u16| i <= j < 16 ==> !(#[trigger] bit16(result, j)),
        decreases 16 - i,
    {
        let x_bit = (x >> i) & 1 == 1;
        let y_bit = (y >> i) & 1 == 1;
        let res = mux(x_bit, y_bit, sel);
        let b: u16 = if res {
            1
        } else {
            0
        };
        proof {
            assert forall|j: u16| j < 16 implies (#[trigger] bit16(result | (b << i), j)) == (if j
                == i {
                b == 1
            } else {
                bit16(result, j)
            }) by {
                lemma_u16_set_bit(result, b, i, j);
            }
        }
        result = result | (b << i);
        i += 1;
    }
    proof {
        lemma_u16_eq_by_bits(result, z);
    }
    result
}

/// 8-way fan-in OR through a balanced reduction tree (4, then 2, then 1),
/// bounding gate depth logarithmically.
pub fn or8way_gate(x: u8) -> (r: bool)
    ensures
        r == (x != 0),
{
    let b0 = (x >> 0u8) & 1 == 1;
    let b1 = (x >> 1u8) & 1 == 1;
    let b2 = (x >> 2u8) & 1 == 1;
    let b3 = (x >> 3u8) & 1 == 1;
    let b4 = (x >> 4u8) & 1 == 1;
    let b5 = (x >> 5u8) & 1 == 1;
    let b6 = (x >> 6u8) & 1 == 1;
    let b7 = (x >> 7u8) & 1 == 1;

    let o01 = or_gate(b0, b1);
    let o23 = or_gate(b2, b3);
    let o45 = or_gate(b4, b5);
    let o67 = or_gate(b6, b7);

    let o0123 = or_gate(o01, o23);
    let o4567 = or_gate(o45, o67);

    let r = or_gate(o0123, o4567);
    proof {
        assert((x != 0) == (bit8(x, 0) || bit8(x, 1) || bit8(x, 2) || bit8(x, 3) || bit8(x, 4)
            || bit8(x, 5) || bit8(x, 6) || bit8(x, 7))) by (bit_vector);
    }
    r
}

proof fn lemma_sel2_cases(sel: u8)
    by (bit_vector)
    ensures
        ((sel & 3) == 0) == ((sel & 1) == 0 && ((sel >> 1u8) & 1) == 0),
        ((sel & 3) == 1) == ((sel & 1) != 0 && ((sel >> 1u8) & 1) == 0),
        ((sel & 3) == 2) == ((sel & 1) == 0 && ((sel >> 1u8) & 1) != 0),
        ((sel & 3) == 3) == ((sel & 1) != 0 && ((sel >> 1u8) & 1) != 0),
{
}

proof fn lemma_sel3_cases(sel: u8)
    by (bit_vector)
    ensures
        ((sel & 7) == 0) == ((sel & 1) == 0 && ((sel >> 1u8) & 1) == 0 && ((sel >> 2u8) & 1) == 0),
        ((sel & 7) == 1) == ((sel & 1) != 0 && ((sel >> 1u8) & 1) == 0 && ((sel >> 2u8) & 1) == 0),
        ((sel & 7) == 2) == ((sel & 1) == 0 && ((sel >> 1u8) & 1) != 0 && ((sel >> 2u8) & 1) == 0),
        ((sel & 7) == 3) == ((sel & 1) != 0 && ((sel >> 1u8) & 1) != 0 && ((sel >> 2u8) & 1) == 0),
        ((sel & 7) == 4) == ((sel & 1) == 0 && ((sel >> 1u8) & 1) == 0 && ((sel >> 2u8) & 1) != 0),
        ((sel & 7) == 5) == ((sel & 1) != 0 && ((sel >> 1u8) & 1) == 0 && ((sel >> 2u8) & 1) != 0),
        ((sel & 7) == 6) == ((sel & 1) == 0 && ((sel >> 1u8) & 1) != 0 && ((sel >> 2u8) & 1) != 0),
        ((sel & 7) == 7) == ((sel & 1) != 0 && ((sel >> 1u8) & 1) != 0 && ((sel >> 2u8) & 1) != 0),
{
}

/// 4-way word multiplexer keyed by the low 2 bits of `sel`; selector bit 0
/// resolves the innermost pairing.
pub fn mux4way16_gate(a: u16, b: u16, c: u16, d: u16, sel: u8) -> (r: u16)
    ensures
        r == (if sel & 3 == 0 {
            a
        } else if sel & 3 == 1 {
            b
        } else if sel & 3 == 2 {
            c
        } else {
            d
        }),
{
    let sel_1 = sel & 1;
    let sel_2 = (sel >> 1u8) & 1;
    let out_1 = mux16_gate(a, b, sel_1 != 0);
    let out_2 = mux16_gate(c, d, sel_1 != 0);
    proof {
        lemma_sel2_cases(sel);
    }
    mux16_gate(out_1, out_2, sel_2 != 0)
}

/// 8-way word multiplexer keyed by the low 3 bits of `sel`.
pub fn mux8way16_gate(
    a: u16,
    b: u16,
    c: u16,
    d: u16,
    e: u16,
    f: u16,
    g: u16,
    h: u16,
    sel: u8,
) -> (r: u16)
    ensures
        r == (if sel & 7 == 0 {
            a
        } else if sel & 7 == 1 {
            b
        } else if sel & 7 == 2 {
            c
        } else if sel & 7 == 3 {
            d
        } else if sel & 7 == 4 {
            e
        } else if sel & 7 == 5 {
            f
        } else if sel & 7 == 6 {
            g
        } else {
            h
        }),
{
    let sel_1 = sel & 1;
    let sel_2 = (sel >> 1u8) & 1;
    let sel_3 = (sel >> 2u8) & 1;

    let out_1 = mux16_gate(a, b, sel_1 != 0);
    let out_2 = mux16_gate(c, d, sel_1 != 0);
    let out_3 = mux16_gate(e, f, sel_1 != 0);
    let out_4 = mux16_gate(g, h, sel_1 != 0);

    let out_5 = mux16_gate(out_1, out_2, sel_2 != 0);
    let out_6 = mux16_gate(out_3, out_4, sel_2 != 0);

    proof {
        lemma_sel3_cases(sel);
    }
    mux16_gate(out_5, out_6, sel_3 != 0)
}

/// 4-way demultiplexer: the input bit appears on exactly the output selected
/// by the low 2 bits of `sel`.
pub fn dmux4way_gate(inp: bool, sel: u8) -> (r: (bool, bool, bool, bool))
    ensures
        r.0 == (inp && sel & 3 == 0),
        r.1 == (inp && sel & 3 == 1),
        r.2 == (inp && sel & 3 == 2),
        r.3 == (inp && sel & 3 == 3),
{
    let sel_1 = sel & 1;
    let sel_2 = (sel >> 1u8) & 1;

    let (out_1, out_2) = dmux_gate(inp, sel_1 != 0);
    let (a, b) = dmux_gate(out_1, sel_2 != 0);
    let (c, d) = dmux_gate(out_2, sel_2 != 0);

    proof {
        lemma_sel2_cases(sel);
    }
    (a, c, b, d)
}

/// 8-way demultiplexer: routes `inp` to one of 8 one-hot outputs packed into
/// a byte, with address 0 on bit 7 down to address 7 on bit 0.
pub fn dmux8way_gate(inp: bool, sel: u8) -> (r: u8)
    ensures
        forall|j: u8| j < 8 ==> (#[trigger] bit8(r, j)) == (inp && sel & 7 == 7 - j),
{
    let sel_1 = sel & 1;
    let sel_2 = (sel >> 1u8) & 1;
    let sel_3 = (sel >> 2u8) & 1;

    let (out_1, out_2) = dmux_gate(inp, sel_3 != 0);

    let (out_3, out_4) = dmux_gate(out_1, sel_2 != 0);
    let (out_5, out_6) = dmux_gate(out_2, sel_2 != 0);

    let (a, b) = dmux_gate(out_3, sel_1 != 0);
    let (c, d) = dmux_gate(out_4, sel_1 != 0);
    let (e, f) = dmux_gate(out_5, sel_1 != 0);
    let (g, h) = dmux_gate(out_6, sel_1 != 0);

    let a_bit: u8 = if a {
        1
    } else {
        0
    };
    let b_bit: u8 = if b {
        1
    } else {
        0
    };
    let c_bit: u8 = if c {
        1
    } else {
        0
    };
    let d_bit: u8 = if d {
        1
    } else {
        0
    };
    let e_bit: u8 = if e {
        1
    } else {
        0
    };
    let f_bit: u8 = if f {
        1
    } else {
        0
    };
    let g_bit: u8 = if g {
        1
    } else {
        0
    };
    let h_bit: u8 = if h {
        1
    } else {
        0
    };

    let r = (a_bit << 7u8) | (b_bit << 6u8) | (c_bit << 5u8) | (d_bit << 4u8) | (e_bit << 3u8) | (
    f_bit << 2u8) | (g_bit << 1u8) | (h_bit << 0u8);
    proof {
        lemma_sel3_cases(sel);
        assert(bit8(r, 7) == (a_bit == 1) && bit8(r, 6) == (b_bit == 1) && bit8(r, 5) == (c_bit
            == 1) && bit8(r, 4) == (d_bit == 1) && bit8(r, 3) == (e_bit == 1) && bit8(r, 2) == (
        f_bit == 1) && bit8(r, 1) == (g_bit == 1) && bit8(r, 0) == (h_bit == 1)) by (bit_vector)
            requires
                a_bit <= 1,
                b_bit <= 1,
                c_bit <= 1,
                d_bit <= 1,
                e_bit <= 1,
                f_bit <= 1,
                g_bit <= 1,
                h_bit <= 1,
                r == (a_bit << 7u8) | (b_bit << 6u8) | (c_bit << 5u8) | (d_bit << 4u8) | (e_bit
                    << 3u8) | (f_bit << 2u8) | (g_bit << 1u8) | (h_bit << 0u8),
        ;
        assert forall|j: u8| j < 8 implies (#[trigger] bit8(r, j)) == (inp && sel & 7 == 7 - j) by {}
    }
    r
}

} // verus!
