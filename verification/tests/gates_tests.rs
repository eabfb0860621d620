use logicsim::gates::{and_gate, dmux4way_gate, dmux8way_gate, dmux_gate, mux, mux16_gate,
    mux4way16_gate, mux8way16_gate, not16_gate, and16_gate, or16_gate, or8way_gate, xor_gate};

#[test]
fn test_and() {
    let res = and_gate(false, false);
    assert_eq!(res, false);

    let res = and_gate(true, false);
    assert_eq!(res, false);

    let res = and_gate(false, true);
    assert_eq!(res, false);

    let res = and_gate(true, true);
    assert_eq!(res, true);
}

#[test]
fn test_xor() {
    let res = xor_gate(false, false);
    assert_eq!(res, false);

    let res = xor_gate(true, false);
    assert_eq!(res, true);

    let res = xor_gate(false, true);
    assert_eq!(res, true);

    let res = xor_gate(true, true);
    assert_eq!(res, false);
}

#[test]
fn test_mux() {
    let res = mux(false, false, false);
    assert_eq!(res, false);

    let res = mux(false, true, false);
    assert_eq!(res, false);

    let res = mux(false, true, true);
    assert_eq!(res, true);
}

#[test]
fn test_dmux() {
    let res = dmux_gate(false, false);
    assert_eq!(res, (false, false));

    let res = dmux_gate(false, true);
    assert_eq!(res, (false, false));

    let res = dmux_gate(true, false);
    assert_eq!(res, (true, false));

    let res = dmux_gate(true, true);
    assert_eq!(res, (false, true));
}

#[test]
fn test_not16() {
    let inp: u16 = 0b0000000000000001;
    let res = not16_gate(inp);
    assert_eq!(res, !inp);
}

#[test]
fn test_and16() {
    let x: u16 = 0b0000000000000001;
    let y: u16 = 0b0000000000000011;
    let res = and16_gate(x, y);
    assert_eq!(res, x & y);
}

#[test]
fn test_or16() {
    let x: u16 = 0b0000000000000001;
    let y: u16 = 0b0000000000000011;
    let res = or16_gate(x, y);
    assert_eq!(res, x | y);
}

#[test]
fn test_mux16() {
    let x: u16 = 0b1001100001110110;
    let y: u16 = 0b0000000000000000;
    let sel = false;
    let res = mux16_gate(x, y, sel);
    assert_eq!(res, 0b1001100001110110);
}

#[test]
fn test_or8way() {
    let x: u8 = 0b00010000;
    let res = or8way_gate(x);
    assert_eq!(res, true);

    let x: u8 = 0b00000000;
    let res = or8way_gate(x);
    assert_eq!(res, false);

    let x: u8 = 0b00000011;
    let res = or8way_gate(x);
    assert_eq!(res, true);
}

#[test]
fn test_mux4way16() {
    let a: u16 = 0b0001001000110100;
    let b: u16 = 0b1001100001110110;
    let c: u16 = 0b1010101010101010;
    let d: u16 = 0b0101010101010101;
    let sel: u8 = 0b00000000;
    let exp_out: u16 = 0b0001001000110100;

    let res = mux4way16_gate(a, b, c, d, sel);
    assert_eq!(res, exp_out);
}

#[test]
fn test_mux8way16() {
    let a: u16 = 0b0001001000110100;
    let b: u16 = 0b0010001101000101;
    let c: u16 = 0b0011010001010110;
    let d: u16 = 0b0100010101100111;
    let e: u16 = 0b0101011001111000;
    let f: u16 = 0b0110011110001001;
    let g: u16 = 0b0111100010011010;
    let h: u16 = 0b1000100110101011;
    let sel: u8 = 0b000;
    let exp_out: u16 = 0b0001001000110100;

    let res = mux8way16_gate(a, b, c, d, e, f, g, h, sel);
    assert_eq!(res, exp_out);
}

#[test]
fn test_dmux4way() {
    let inp = true;
    let sel: u8 = 0b00000000;
    let exp_out = (true, false, false, false);

    let res = dmux4way_gate(inp, sel);
    assert_eq!(res, exp_out);
}

#[test]
fn test_dmux8way() {
    let inp: bool = false;
    let sel: u8 = 0b00000111;
    let res = dmux8way_gate(inp, sel);
    assert_eq!(res, 0b00000000);

    let inp: bool = true;
    let sel: u8 = 0b00000101;
    let res = dmux8way_gate(inp, sel);
    assert_eq!(res, 0b00000100);
}

#[test]
fn test_and_gate() {
    assert_eq!(and_gate(true, true), true);
    assert_eq!(and_gate(true, false), false);
    assert_eq!(and_gate(false, true), false);
    assert_eq!(and_gate(false, false), false);
}
