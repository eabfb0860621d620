use logicsim::alu::{add_16, alu};
use logicsim::gates::{and_gate, dmux8way_gate, dmux_gate, mux, mux8way16_gate, nand_gate,
    not_gate, or8way_gate, or_gate, xor_gate};
use logicsim::sequential::{Bit, Clock, Component, Register, RAM8};
use logicsim::utils::{u16_to_vec_bool, u8_to_vec_bool, vec_bool_to_u16, vec_bool_to_u8};

/// Pack a memory-bank configuration (16 data bits, load, 3 address bits)
/// the way the bank's `set_state` expects them.
fn bank_inputs(value: u16, load: bool, addr: u8) -> Vec<bool> {
    let mut inp = u16_to_vec_bool(value);
    inp.push(load);
    let addr_bits = u8_to_vec_bool(addr);
    inp.extend(addr_bits[5..].iter().copied());
    inp
}

#[test]
fn nand_rederives_every_gate() {
    for a in [false, true] {
        for b in [false, true] {
            // NOT from NAND
            assert_eq!(nand_gate(a, a), not_gate(a));
            // AND from NAND
            assert_eq!(nand_gate(nand_gate(a, b), nand_gate(a, b)), and_gate(a, b));
            // OR from NAND
            assert_eq!(nand_gate(nand_gate(a, a), nand_gate(b, b)), or_gate(a, b));
            // XOR from NAND, and XOR as negated equality
            let x = nand_gate(nand_gate(nand_gate(a, a), b), nand_gate(nand_gate(b, b), a));
            assert_eq!(x, xor_gate(a, b));
            assert_eq!(x, !(a == b));
            for sel in [false, true] {
                // MUX from NAND
                let m = nand_gate(nand_gate(a, nand_gate(sel, sel)), nand_gate(b, sel));
                assert_eq!(m, mux(a, b, sel));
                // DMUX from NAND
                let keep = nand_gate(a, nand_gate(sel, sel));
                let pass = nand_gate(a, sel);
                assert_eq!((nand_gate(keep, keep), nand_gate(pass, pass)), dmux_gate(a, sel));
            }
        }
    }
}

#[test]
fn dmux_then_mux_reconstructs() {
    for x in [false, true] {
        for sel in [false, true] {
            let (a, b) = dmux_gate(x, sel);
            assert_eq!(mux(a, b, sel), x);
        }
    }
}

#[test]
fn add16_is_commutative_and_associative() {
    let samples: [(u16, u16, u16); 4] = [
        (0x0000, 0xFFFF, 0x0001),
        (0x1234, 0x9876, 0xABCD),
        (0x8000, 0x8000, 0xFFFF),
        (0x0101, 0x7F7F, 0x00FF),
    ];
    for (a, b, c) in samples {
        assert_eq!(add_16(a, b), add_16(b, a));
        assert_eq!(add_16(add_16(a, b), c), add_16(a, add_16(b, c)));
        assert_eq!(add_16(a, 0), a);
    }
    assert_eq!(add_16(0xFFFF, 1), 0);
}

#[test]
fn alu_flags_match_output() {
    // the eighteen canonical control settings, as (zx, nx, zy, ny, f, no)
    let controls: [(bool, bool, bool, bool, bool, bool); 18] = [
        (true, false, true, false, true, false),
        (true, true, true, true, true, true),
        (true, true, true, false, true, false),
        (false, false, true, true, false, false),
        (true, true, false, false, false, false),
        (false, false, true, true, false, true),
        (true, true, false, false, false, true),
        (false, false, true, true, true, true),
        (true, true, false, false, true, true),
        (false, true, true, true, true, true),
        (true, true, false, true, true, true),
        (false, false, true, true, true, false),
        (true, true, false, false, true, false),
        (false, false, false, false, true, false),
        (false, true, false, false, true, true),
        (false, false, false, true, true, true),
        (false, false, false, false, false, false),
        (false, true, false, true, false, true),
    ];
    let operands: [(u16, u16); 3] = [(0, 0xFFFF), (0x5BA0, 0x1ED2), (0, 0)];
    for (x, y) in operands {
        for (zx, nx, zy, ny, f, no) in controls {
            let (out, zr, ng) = alu(x, y, zx, nx, zy, ny, f, no);
            assert_eq!(zr, out == 0);
            assert_eq!(ng, (out >> 15) & 1 == 1);
        }
    }
}

#[test]
fn or8way_sees_high_bits() {
    // every one-hot byte, including bits 5..7, must be reported as non-zero
    for i in 0..8 {
        assert_eq!(or8way_gate(1u8 << i), true);
    }
    assert_eq!(or8way_gate(0b11100000), true);
    assert_eq!(or8way_gate(0), false);
}

#[test]
fn dmux8way_is_one_hot() {
    for addr in 0u8..8 {
        let routed = dmux8way_gate(true, addr);
        assert_eq!(routed, 0b10000000 >> addr);
        assert_eq!(dmux8way_gate(false, addr), 0);
    }
}

#[test]
fn mux8way16_selects_each_word() {
    let words: [u16; 8] = [10, 20, 30, 40, 50, 60, 70, 80];
    for sel in 0u8..8 {
        let r = mux8way16_gate(
            words[0], words[1], words[2], words[3], words[4], words[5], words[6], words[7], sel,
        );
        assert_eq!(r, words[sel as usize]);
    }
}

#[test]
fn conversions_round_trip() {
    assert_eq!(vec_bool_to_u16(Vec::new()), 0);
    assert_eq!(vec_bool_to_u8(Vec::new()), 0);
    for v in [0u16, 1, 0x8000, 0xFFFF, 0xA5A5, 0x0F0F] {
        assert_eq!(vec_bool_to_u16(u16_to_vec_bool(v)), v);
    }
    for v in [0u8, 1, 0x80, 0xFF, 0x5A] {
        assert_eq!(vec_bool_to_u8(u8_to_vec_bool(v)), v);
    }
}

#[test]
fn storage_cell_two_slot_scenario() {
    let mut clock = Clock::new();
    clock.register(Component::StorageCell(logicsim::sequential::DFF::new()));

    clock.set_state_of_component(0, vec![true]);
    // before the tick the pre-configure value is still visible
    assert_eq!(clock.get_state_of_component(0), vec![false]);
    clock.tick();
    // after exactly one tick the configured value is visible
    assert_eq!(clock.get_state_of_component(0), vec![true]);
}

#[test]
fn loadable_register_ignores_value_without_load() {
    let mut clock = Clock::new();
    clock.register(Component::LoadableRegister(Bit::new()));

    clock.set_state_of_component(0, vec![true, true]);
    clock.tick();
    assert_eq!(clock.get_state_of_component(0), vec![true]);

    // load deasserted: repeated ticks never change the value
    clock.set_state_of_component(0, vec![false, false]);
    for _ in 0..5 {
        clock.tick();
        assert_eq!(clock.get_state_of_component(0), vec![true]);
    }
}

#[test]
fn register16_round_trips_and_holds() {
    let mut clock = Clock::new();
    clock.register(Component::Register16(Register::new()));

    let pattern: u16 = 0b0110_1001_1100_0011;
    let mut inp = u16_to_vec_bool(pattern);
    inp.push(true);
    clock.set_state_of_component(0, inp);
    clock.tick();
    assert_eq!(vec_bool_to_u16(clock.get_state_of_component(0)), pattern);

    let mut inp2 = u16_to_vec_bool(0xFFFF);
    inp2.push(false);
    clock.set_state_of_component(0, inp2);
    clock.tick();
    assert_eq!(vec_bool_to_u16(clock.get_state_of_component(0)), pattern);
}

#[test]
fn bank_isolates_writes_across_addresses() {
    let mut clock = Clock::new();
    clock.register(Component::MemoryBank8(RAM8::new()));

    let v1: u16 = 0xBEEF;
    let v2: u16 = 0x1234;
    clock.set_state_of_component(0, bank_inputs(v1, true, 3));
    clock.tick();
    clock.set_state_of_component(0, bank_inputs(v2, true, 6));
    clock.tick();

    // both writes landed, each at its own address
    clock.set_state_of_component(0, bank_inputs(0, false, 3));
    assert_eq!(vec_bool_to_u16(clock.get_state_of_component(0)), v1);
    clock.set_state_of_component(0, bank_inputs(0, false, 6));
    assert_eq!(vec_bool_to_u16(clock.get_state_of_component(0)), v2);

    // a never-written address still reads zero
    clock.set_state_of_component(0, bank_inputs(0, false, 0));
    assert_eq!(vec_bool_to_u16(clock.get_state_of_component(0)), 0);
}

#[test]
fn bank_end_to_end_scenario() {
    let mut clock = Clock::new();
    let index = clock.register(Component::MemoryBank8(RAM8::new()));

    let value: u16 = 0b1000000011111111;
    clock.set_state_of_component(index, bank_inputs(value, true, 0b101));
    clock.tick();
    assert_eq!(vec_bool_to_u16(clock.get_state_of_component(index)), value);

    // value persists when load is deasserted
    clock.set_state_of_component(index, bank_inputs(0, false, 0b101));
    clock.tick();
    assert_eq!(vec_bool_to_u16(clock.get_state_of_component(index)), value);

    // the untouched neighbouring address reads zero
    clock.set_state_of_component(index, bank_inputs(0, false, 0b100));
    clock.tick();
    assert_eq!(vec_bool_to_u16(clock.get_state_of_component(index)), 0);
}
