//! The clocked sequential layer: a storage cell, a loadable 1-bit register,
//! a 16-bit register, an 8-word memory bank, and the Clock that owns and
//! drives a registry of such elements.
//!
//! Every element follows the same two-slot discipline: `set_state` only
//! latches pending inputs (last write wins), and the committed, observable
//! state moves only on a tick. The memory bank is the one element whose
//! *read* side is combinational: the address latched by `set_state` selects
//! the word reported by `get_state` immediately, while the written data
//! becomes visible only after the next tick.

use crate::bits::{bit8, bits3_of, lemma_bits16_of_word, lemma_bits3_of_word, lemma_u8_low3,
    lemma_word_of_bits3, lemma_word_of_bound, word_of};
use crate::gates::{dmux8way_gate, mux, mux8way16_gate};
use crate::utils::{u16_to_vec_bool, u8_to_vec_bool, vec_bool_to_u16, vec_bool_to_u8};
use vstd::arithmetic::power2::lemma2_to64;
use vstd::prelude::*;

verus! {

/// The all-false word of width `n`: the reset state of every element.
pub open spec fn zeros(n: nat) -> Seq<bool> {
    Seq::new(n, |i: int| false)
}

/// Storage cell transition: the pending bit becomes the committed bit.
pub open spec fn dff_next_of(cur: Seq<bool>, pend: Seq<bool>) -> Seq<bool> {
    pend
}

/// Loadable 1-bit register transition: pending is `[value, load]`; the value
/// is committed only when the load flag is asserted.
pub open spec fn bit_next_of(cur: Seq<bool>, pend: Seq<bool>) -> Seq<bool> {
    if pend[1] {
        seq![pend[0]]
    } else {
        cur
    }
}

/// 16-bit register transition: pending is 16 data bits then one shared load
/// flag; the whole word is committed only when the load flag is asserted.
pub open spec fn reg_next_of(cur: Seq<bool>, pend: Seq<bool>) -> Seq<bool> {
    if pend[16] {
        pend.take(16)
    } else {
        cur
    }
}

/// The address selected by a memory bank's pending inputs (16 data bits,
/// one load flag, then a 3-bit address, most significant bit first).
pub open spec fn bank_addr_of(pend: Seq<bool>) -> int {
    word_of(pend.subrange(17, 20)) as int
}

/// Word `a` of a memory bank's committed state (8 words of 16 bits).
pub open spec fn bank_word(cur: Seq<bool>, a: int) -> Seq<bool> {
    cur.subrange(16 * a, 16 * a + 16)
}

/// Memory bank transition: when the load flag is asserted, exactly the
/// addressed word is replaced by the pending data; every other word keeps
/// its committed value.
pub open spec fn bank_next_of(cur: Seq<bool>, pend: Seq<bool>) -> Seq<bool> {
    if pend[16] {
        let a = bank_addr_of(pend);
        cur.subrange(0, 16 * a) + pend.take(16) + cur.subrange(16 * a + 16, 128)
    } else {
        cur
    }
}

/// Memory bank read: the latched address selects a committed word
/// combinationally, before any tick.
pub open spec fn bank_read_of(cur: Seq<bool>, pend: Seq<bool>) -> Seq<bool> {
    bank_word(cur, bank_addr_of(pend))
}

/// The capability shared by every sequential element: latch inputs, commit
/// them on a tick, and report the observable state.
pub trait Tick: Sized {
    /// Structural well-formedness; established by construction and preserved
    /// by every operation.
    spec fn wf(&self) -> bool;

    /// How many input bits `set_state` expects.
    spec fn arity(&self) -> nat;

    /// The committed state; it changes only on a tick.
    spec fn current(&self) -> Seq<bool>;

    /// The latched pending inputs, exactly as last configured.
    spec fn pending(&self) -> Seq<bool>;

    /// The committed state one tick from now.
    spec fn next(&self) -> Seq<bool>;

    /// What `get_state` reports: the committed state, combined with the
    /// latched address for elements that read combinationally.
    spec fn read(&self) -> Seq<bool>;

    /// Commit the pending inputs: the committed state advances one step and
    /// the pending inputs stay latched.
    fn tick(&mut self)
        requires
            old(self).wf(),
        ensures
            final(self).wf(),
            final(self).arity() == old(self).arity(),
            final(self).current() == old(self).next(),
            final(self).pending() == old(self).pending(),
    ;

    /// Report the observable state; reading never mutates.
    fn get_state(&self) -> (r: Vec<bool>)
        requires
            self.wf(),
        ensures
            r@ == self.read(),
    ;

    /// Latch new pending inputs without touching the committed state;
    /// any earlier pending inputs are overwritten (last write wins).
    fn set_state(&mut self, inputs: Vec<bool>)
        requires
            old(self).wf(),
            inputs@.len() == old(self).arity(),
        ensures
            final(self).wf(),
            final(self).arity() == old(self).arity(),
            final(self).current() == old(self).current(),
            final(self).pending() == inputs@,
    ;
}

/// The storage cell: the only primitive with genuine memory. Its committed
/// bit is replaced by the pending bit on every tick, unconditionally.
pub struct DFF {
    pub state: bool,
    pub next_state: bool,
}

impl DFF {
    pub fn new() -> (r: DFF)
        ensures
            r.wf(),
            r.current() == zeros(1),
            r.pending() == zeros(1),
    {
        let r = DFF { state: false, next_state: false };
        proof {
            assert(r.current() =~= zeros(1));
            assert(r.pending() =~= zeros(1));
        }
        r
    }

    /// Commit the pending bit into the observable slot.
    pub fn update_state(&mut self)
        ensures
            final(self).state == old(self).next_state,
            final(self).next_state == old(self).next_state,
    {
        self.state = self.next_state;
    }
}

impl Tick for DFF {
    open spec fn wf(&self) -> bool {
        true
    }

    open spec fn arity(&self) -> nat {
        1
    }

    open spec fn current(&self) -> Seq<bool> {
        seq![self.state]
    }

    open spec fn pending(&self) -> Seq<bool> {
        seq![self.next_state]
    }

    open spec fn next(&self) -> Seq<bool> {
        dff_next_of(self.current(), self.pending())
    }

    open spec fn read(&self) -> Seq<bool> {
        self.current()
    }

    fn tick(&mut self) {
        self.update_state();
        proof {
            assert(self.current() =~= old(self).next());
            assert(self.pending() =~= old(self).pending());
        }
    }

    fn get_state(&self) -> (r: Vec<bool>) {
        let mut r: Vec<bool> = Vec::new();
        r.push(self.state);
        proof {
            assert(r@ =~= self.read());
        }
        r
    }

    fn set_state(&mut self, inputs: Vec<bool>) {
        self.next_state = inputs[0];
        proof {
            assert(self.pending() =~= inputs@);
        }
    }
}

/// The loadable 1-bit register: keeps its committed bit across ticks unless
/// the load flag was asserted, in which case the pending value is committed.
pub struct Bit {
    pub dff: DFF,
    pub value: bool,
    pub load: bool,
}

impl Bit {
    pub fn new() -> (r: Bit)
        ensures
            r.wf(),
            r.current() == zeros(1),
            r.pending() == zeros(2),
    {
        let r = Bit { dff: DFF::new(), value: false, load: false };
        proof {
            assert(r.current() =~= zeros(1));
            assert(r.pending() =~= zeros(2));
        }
        r
    }
}

impl Tick for Bit {
    open spec fn wf(&self) -> bool {
        true
    }

    open spec fn arity(&self) -> nat {
        2
    }

    open spec fn current(&self) -> Seq<bool> {
        seq![self.dff.state]
    }

    open spec fn pending(&self) -> Seq<bool> {
        seq![self.value, self.load]
    }

    open spec fn next(&self) -> Seq<bool> {
        bit_next_of(self.current(), self.pending())
    }

    open spec fn read(&self) -> Seq<bool> {
        self.current()
    }

    fn tick(&mut self) {
        let dff_out = self.dff.get_state();
        let out_mux = mux(dff_out[0], self.value, self.load);
        let mut next_in: Vec<bool> = Vec::new();
        next_in.push(out_mux);
        self.dff.set_state(next_in);
        self.dff.tick();
        proof {
            assert(self.current() =~= old(self).next());
            assert(self.pending() =~= old(self).pending());
        }
    }

    fn get_state(&self) -> (r: Vec<bool>) {
        let r = self.dff.get_state();
        proof {
            assert(r@ =~= self.read());
        }
        r
    }

    fn set_state(&mut self, inputs: Vec<bool>) {
        self.value = inputs[0];
        self.load = inputs[1];
        proof {
            assert(self.pending() =~= inputs@);
        }
    }
}

/// The 16-bit register: sixteen loadable 1-bit registers sharing one load
/// flag, configured and read in the same bit order.
pub struct Register {
    pub bits: Vec<Bit>,
}

impl Register {
    pub fn new() -> (r: Register)
        ensures
            r.wf(),
            r.current() == zeros(16),
            r.pending() == zeros(17),
    {
        let mut cells: Vec<Bit> = Vec::new();
        let mut i: usize = 0;
        while i < 16
            invariant
                i <= 16,
                cells@.len() == i as int,
                forall|j: int|
                    0 <= j < i ==> {
                        &&& !(#[trigger] cells@[j]).dff.state
                        &&& !cells@[j].value
                        &&& !cells@[j].load
                    },
            decreases 16 - i,
        {
            let cell = Bit::new();
            proof {
                assert(cell.dff.state == cell.current()[0]);
                assert(cell.value == cell.pending()[0]);
                assert(cell.load == cell.pending()[1]);
            }
            cells.push(cell);
            i += 1;
        }
        let r = Register { bits: cells };
        proof {
            assert(r.current() =~= zeros(16));
            assert(r.pending() =~= zeros(17));
        }
        r
    }
}

impl Tick for Register {
    open spec fn wf(&self) -> bool {
        &&& self.bits@.len() == 16
        &&& forall|i: int| 0 <= i < 16 ==> (#[trigger] self.bits@[i]).load == self.bits@[0].load
    }

    open spec fn arity(&self) -> nat {
        17
    }

    open spec fn current(&self) -> Seq<bool> {
        Seq::new(16, |i: int| self.bits@[i].dff.state)
    }

    open spec fn pending(&self) -> Seq<bool> {
        Seq::new(16, |i: int| self.bits@[i].value).push(self.bits@[0].load)
    }

    open spec fn next(&self) -> Seq<bool> {
        reg_next_of(self.current(), self.pending())
    }

    open spec fn read(&self) -> Seq<bool> {
        self.current()
    }

    fn tick(&mut self) {
        let mut i: usize = 0;
        while i < 16
            invariant
                old(self).wf(),
                self.bits@.len() == 16,
                i <= 16,
                forall|j: int|
                    0 <= j < 16 ==> {
                        &&& (#[trigger] self.bits@[j]).value == old(self).bits@[j].value
                        &&& self.bits@[j].load == old(self).bits@[j].load
                    },
                forall|j: int|
                    0 <= j < i ==> (#[trigger] self.bits@[j]).dff.state == old(
                        self,
                    ).bits@[j].next()[0],
                forall|j: int|
                    i <= j < 16 ==> (#[trigger] self.bits@[j]).dff.state == old(
                        self,
                    ).bits@[j].dff.state,
            decreases 16 - i,
        {
            self.bits[i].tick();
            i += 1;
        }
        proof {
            let pend = old(self).pending();
            if pend[16] {
                assert(self.current() =~= pend.take(16));
            } else {
                assert(self.current() =~= old(self).current());
            }
            assert(self.pending() =~= old(self).pending());
        }
    }

    fn get_state(&self) -> (r: Vec<bool>) {
        let mut r: Vec<bool> = Vec::new();
        let mut i: usize = 0;
        while i < 16
            invariant
                self.wf(),
                i <= 16,
                r@.len() == i as int,
                forall|j: int| 0 <= j < i ==> r@[j] == self.current()[j],
            decreases 16 - i,
        {
            let cell_out = self.bits[i].get_state();
            r.push(cell_out[0]);
            i += 1;
        }
        proof {
            assert(r@ =~= self.read());
        }
        r
    }

    fn set_state(&mut self, inputs: Vec<bool>) {
        let load = inputs[16];
        let mut i: usize = 0;
        while i < 16
            invariant
                old(self).wf(),
                inputs@.len() == 17,
                load == inputs@[16],
                self.bits@.len() == 16,
                i <= 16,
                forall|j: int|
                    0 <= j < 16 ==> (#[trigger] self.bits@[j]).dff.state == old(
                        self,
                    ).bits@[j].dff.state,
                forall|j: int|
                    0 <= j < i ==> {
                        &&& (#[trigger] self.bits@[j]).value == inputs@[j]
                        &&& self.bits@[j].load == inputs@[16]
                    },
                forall|j: int|
                    i <= j < 16 ==> {
                        &&& (#[trigger] self.bits@[j]).value == old(self).bits@[j].value
                        &&& self.bits@[j].load == old(self).bits@[j].load
                    },
            decreases 16 - i,
        {
            let mut cell_in: Vec<bool> = Vec::new();
            cell_in.push(inputs[i]);
            cell_in.push(load);
            self.bits[i].set_state(cell_in);
            i += 1;
        }
        proof {
            assert(self.current() =~= old(self).current());
            assert(self.pending() =~= inputs@);
        }
    }
}

/// The 8-word memory bank: eight 16-bit registers and one latched 3-bit
/// address. Writes are synchronous (committed by the next tick, through the
/// load flag demultiplexed to exactly one register); reads are combinational
/// on the latched address.
pub struct RAM8 {
    pub registers: Vec<Register>,
    pub addr: u8,
}

impl RAM8 {
    pub fn new() -> (r: RAM8)
        ensures
            r.wf(),
            r.current() == zeros(128),
            r.pending() == zeros(20),
    {
        let mut regs: Vec<Register> = Vec::new();
        let mut i: usize = 0;
        while i < 8
            invariant
                i <= 8,
                regs@.len() == i as int,
                forall|j: int|
                    0 <= j < i ==> {
                        &&& (#[trigger] regs@[j]).wf()
                        &&& regs@[j].current() == zeros(16)
                        &&& regs@[j].pending() == zeros(17)
                    },
            decreases 8 - i,
        {
            regs.push(Register::new());
            i += 1;
        }
        let r = RAM8 { registers: regs, addr: 0 };
        proof {
            assert(!bit8(0u8, 0) && !bit8(0u8, 1) && !bit8(0u8, 2)) by (bit_vector);
            assert(forall|j: int|
                0 <= j < 8 ==> (#[trigger] r.registers@[j]).pending().take(16)
                    =~= r.registers@[0].pending().take(16));
            assert(r.current() =~= zeros(128));
            assert(r.pending() =~= zeros(20));
        }
        r
    }
}

impl Tick for RAM8 {
    open spec fn wf(&self) -> bool {
        &&& self.registers@.len() == 8
        &&& self.addr < 8
        &&& forall|i: int| 0 <= i < 8 ==> (#[trigger] self.registers@[i]).wf()
        &&& forall|i: int|
            0 <= i < 8 ==> (#[trigger] self.registers@[i]).pending().take(16)
                == self.registers@[0].pending().take(16)
        &&& forall|i: int|
            0 <= i < 8 && i != self.addr ==> (#[trigger] self.registers@[i]).pending()[16] == false
    }

    open spec fn arity(&self) -> nat {
        20
    }

    open spec fn current(&self) -> Seq<bool> {
        Seq::new(128, |i: int| self.registers@[i / 16].current()[i % 16])
    }

    open spec fn pending(&self) -> Seq<bool> {
        self.registers@[0].pending().take(16) + seq![
            self.registers@[self.addr as int].pending()[16],
        ] + bits3_of(self.addr)
    }

    open spec fn next(&self) -> Seq<bool> {
        bank_next_of(self.current(), self.pending())
    }

    open spec fn read(&self) -> Seq<bool> {
        bank_read_of(self.current(), self.pending())
    }

    fn tick(&mut self) {
        let mut i: usize = 0;
        while i < 8
            invariant
                old(self).wf(),
                self.registers@.len() == 8,
                self.addr == old(self).addr,
                i <= 8,
                forall|j: int|
                    0 <= j < i ==> {
                        &&& (#[trigger] self.registers@[j]).wf()
                        &&& self.registers@[j].current() == old(self).registers@[j].next()
                        &&& self.registers@[j].pending() == old(self).registers@[j].pending()
                    },
                forall|j: int|
                    i <= j < 8 ==> (#[trigger] self.registers@[j]) == old(self).registers@[j],
            decreases 8 - i,
        {
            self.registers[i].tick();
            i += 1;
        }
        proof {
            lemma_word_of_bits3(old(self).addr);
            let pend = old(self).pending();
            assert(pend.subrange(17, 20) =~= bits3_of(old(self).addr));
            let a = bank_addr_of(pend);
            assert(a == old(self).addr as int);
            assert(self.pending() =~= old(self).pending());
            if pend[16] {
                let nxt = old(self).next();
                assert forall|k: int| 0 <= k < 128 implies self.current()[k] == nxt[k] by {
                    let j = k / 16;
                    assert(0 <= j < 8);
                    assert(k == 16 * j + (k % 16));
                    if j == a {
                        assert(old(self).registers@[j].pending()[16]);
                        assert(self.current()[k] == old(self).registers@[j].pending().take(
                            16,
                        )[k % 16]);
                        assert(nxt[k] == pend.take(16)[k - 16 * a]);
                        assert(pend.take(16)[k - 16 * a] == old(self).registers@[0].pending().take(
                            16,
                        )[k % 16]);
                    } else {
                        assert(old(self).registers@[j].pending()[16] == false);
                        assert(self.current()[k] == old(self).registers@[j].current()[k % 16]);
                        if k < 16 * a {
                            assert(nxt[k] == old(self).current().subrange(0, 16 * a)[k]);
                        } else {
                            assert(nxt[k] == old(self).current().subrange(16 * a + 16, 128)[k - (16
                                * a + 16)]);
                        }
                    }
                }
                assert(self.current() =~= old(self).next());
            } else {
                assert forall|k: int| 0 <= k < 128 implies self.current()[k] == old(
                    self,
                ).current()[k] by {
                    let j = k / 16;
                    assert(0 <= j < 8);
                    assert(old(self).registers@[j].pending()[16] == false);
                }
                assert(self.current() =~= old(self).next());
            }
        }
    }

    fn get_state(&self) -> (r: Vec<bool>) {
        let w0 = vec_bool_to_u16(self.registers[0].get_state());
        let w1 = vec_bool_to_u16(self.registers[1].get_state());
        let w2 = vec_bool_to_u16(self.registers[2].get_state());
        let w3 = vec_bool_to_u16(self.registers[3].get_state());
        let w4 = vec_bool_to_u16(self.registers[4].get_state());
        let w5 = vec_bool_to_u16(self.registers[5].get_state());
        let w6 = vec_bool_to_u16(self.registers[6].get_state());
        let w7 = vec_bool_to_u16(self.registers[7].get_state());
        let res = mux8way16_gate(w0, w1, w2, w3, w4, w5, w6, w7, self.addr);
        proof {
            lemma_u8_low3(self.addr);
            lemma_word_of_bits3(self.addr);
            assert(self.pending().subrange(17, 20) =~= bits3_of(self.addr));
            let a = self.addr as int;
            assert(bank_addr_of(self.pending()) == a);
            assert(res as nat == word_of(self.registers@[a].read()));
            lemma_bits16_of_word(self.registers@[a].read());
            assert(self.registers@[a].read() == self.registers@[a].current());
            assert(bank_word(self.current(), a) =~= self.registers@[a].current());
        }
        u16_to_vec_bool(res)
    }

    fn set_state(&mut self, inputs: Vec<bool>) {
        let load = inputs[16];
        let mut addr_vec: Vec<bool> = Vec::new();
        addr_vec.push(inputs[17]);
        addr_vec.push(inputs[18]);
        addr_vec.push(inputs[19]);
        proof {
            assert(addr_vec@ =~= inputs@.subrange(17, 20));
            lemma_word_of_bound(addr_vec@);
            lemma2_to64();
        }
        let addr_u8 = vec_bool_to_u8(addr_vec);
        self.addr = addr_u8;

        let dmux_out_u8 = dmux8way_gate(load, addr_u8);
        let dmux_out = u8_to_vec_bool(dmux_out_u8);
        proof {
            lemma_u8_low3(addr_u8);
            assert(forall|j: int|
                0 <= j < 8 ==> dmux_out@[j] == bit8(dmux_out_u8, (7 - j) as u8));
            assert(forall|j: int|
                0 <= j < 8 ==> dmux_out@[j] == (load && addr_u8 == j));
        }

        let mut i: usize = 0;
        while i < 8
            invariant
                old(self).wf(),
                inputs@.len() == 20,
                load == inputs@[16],
                self.registers@.len() == 8,
                self.addr == addr_u8,
                addr_u8 < 8,
                dmux_out@.len() == 8,
                forall|j: int| 0 <= j < 8 ==> dmux_out@[j] == (load && addr_u8 == j),
                i <= 8,
                forall|j: int|
                    0 <= j < i ==> {
                        &&& (#[trigger] self.registers@[j]).wf()
                        &&& self.registers@[j].current() == old(self).registers@[j].current()
                        &&& self.registers@[j].pending() == inputs@.take(16).push(
                            load && addr_u8 == j,
                        )
                    },
                forall|j: int|
                    i <= j < 8 ==> (#[trigger] self.registers@[j]) == old(self).registers@[j],
            decreases 8 - i,
        {
            let mut reg_in: Vec<bool> = Vec::new();
            let mut j: usize = 0;
            while j < 16
                invariant
                    inputs@.len() == 20,
                    j <= 16,
                    reg_in@.len() == j as int,
                    forall|k: int| 0 <= k < j ==> reg_in@[k] == inputs@[k],
                decreases 16 - j,
            {
                reg_in.push(inputs[j]);
                j += 1;
            }
            reg_in.push(dmux_out[i]);
            proof {
                assert(reg_in@ =~= inputs@.take(16).push(load && addr_u8 == i as int));
            }
            self.registers[i].set_state(reg_in);
            i += 1;
        }
        proof {
            assert forall|j: int| 0 <= j < 8 implies (#[trigger] self.registers@[j]).pending().take(
                16,
            ) =~= inputs@.take(16) by {}
            assert(self.registers@[0].pending().take(16) == inputs@.take(16));
            assert(self.registers@[addr_u8 as int].pending()[16] == load);
            lemma_bits3_of_word(inputs@.subrange(17, 20));
            assert(bits3_of(addr_u8) == inputs@.subrange(17, 20));
            assert(self.current() =~= old(self).current());
            assert(self.pending() =~= inputs@);
        }
    }
}

/// The closed set of sequential elements a Clock can drive, dispatched as
/// tagged variants.
pub enum Component {
    StorageCell(DFF),
    LoadableRegister(Bit),
    Register16(Register),
    MemoryBank8(RAM8),
}

impl Component {
    pub open spec fn wf(&self) -> bool {
        match self {
            Component::StorageCell(d) => d.wf(),
            Component::LoadableRegister(b) => b.wf(),
            Component::Register16(r) => r.wf(),
            Component::MemoryBank8(m) => m.wf(),
        }
    }

    pub open spec fn arity(&self) -> nat {
        match self {
            Component::StorageCell(d) => d.arity(),
            Component::LoadableRegister(b) => b.arity(),
            Component::Register16(r) => r.arity(),
            Component::MemoryBank8(m) => m.arity(),
        }
    }

    pub open spec fn current(&self) -> Seq<bool> {
        match self {
            Component::StorageCell(d) => d.current(),
            Component::LoadableRegister(b) => b.current(),
            Component::Register16(r) => r.current(),
            Component::MemoryBank8(m) => m.current(),
        }
    }

    pub open spec fn pending(&self) -> Seq<bool> {
        match self {
            Component::StorageCell(d) => d.pending(),
            Component::LoadableRegister(b) => b.pending(),
            Component::Register16(r) => r.pending(),
            Component::MemoryBank8(m) => m.pending(),
        }
    }

    pub open spec fn next(&self) -> Seq<bool> {
        match self {
            Component::StorageCell(d) => d.next(),
            Component::LoadableRegister(b) => b.next(),
            Component::Register16(r) => r.next(),
            Component::MemoryBank8(m) => m.next(),
        }
    }

    pub open spec fn read(&self) -> Seq<bool> {
        match self {
            Component::StorageCell(d) => d.read(),
            Component::LoadableRegister(b) => b.read(),
            Component::Register16(r) => r.read(),
            Component::MemoryBank8(m) => m.read(),
        }
    }

    /// Both values carry the same variant tag.
    pub open spec fn same_kind(&self, other: &Component) -> bool {
        match (self, other) {
            (Component::StorageCell(_), Component::StorageCell(_)) => true,
            (Component::LoadableRegister(_), Component::LoadableRegister(_)) => true,
            (Component::Register16(_), Component::Register16(_)) => true,
            (Component::MemoryBank8(_), Component::MemoryBank8(_)) => true,
            _ => false,
        }
    }
}

impl Component {
    /// Commit the pending inputs of the wrapped element; the variant tag is
    /// stable.
    pub fn tick(&mut self)
        requires
            old(self).wf(),
        ensures
            final(self).wf(),
            final(self).same_kind(old(self)),
            final(self).arity() == old(self).arity(),
            final(self).current() == old(self).next(),
            final(self).pending() == old(self).pending(),
    {
        match self {
            Component::StorageCell(d) => d.tick(),
            Component::LoadableRegister(b) => b.tick(),
            Component::Register16(r) => r.tick(),
            Component::MemoryBank8(m) => m.tick(),
        }
    }

    /// Report the wrapped element's observable state.
    pub fn get_state(&self) -> (r: Vec<bool>)
        requires
            self.wf(),
        ensures
            r@ == self.read(),
    {
        match self {
            Component::StorageCell(d) => d.get_state(),
            Component::LoadableRegister(b) => b.get_state(),
            Component::Register16(r) => r.get_state(),
            Component::MemoryBank8(m) => m.get_state(),
        }
    }

    /// Latch new pending inputs of the wrapped element; the variant tag and
    /// the committed state are stable.
    pub fn set_state(&mut self, inputs: Vec<bool>)
        requires
            old(self).wf(),
            inputs@.len() == old(self).arity(),
        ensures
            final(self).wf(),
            final(self).same_kind(old(self)),
            final(self).arity() == old(self).arity(),
            final(self).current() == old(self).current(),
            final(self).pending() == inputs@,
    {
        match self {
            Component::StorageCell(d) => d.set_state(inputs),
            Component::LoadableRegister(b) => b.set_state(inputs),
            Component::Register16(r) => r.set_state(inputs),
            Component::MemoryBank8(m) => m.set_state(inputs),
        }
    }
}

/// The scheduler: owns an insertion-ordered registry of sequential elements,
/// each addressed by the stable index handed out at registration, and
/// advances them all on each tick. No element's transition reads another
/// element's state, so one tick is logically simultaneous across the
/// registry.
pub struct Clock {
    pub is_tick: bool,
    pub components: Vec<Component>,
}

impl Clock {
    pub open spec fn wf(&self) -> bool {
        forall|i: int|
            0 <= i < self.components@.len() ==> (#[trigger] self.components@[i]).wf()
    }

    pub fn new() -> (r: Clock)
        ensures
            r.wf(),
            r.components@.len() == 0,
            !r.is_tick,
    {
        Clock { is_tick: false, components: Vec::new() }
    }

    /// Append a component to the registry and hand out its stable index.
    pub fn register(&mut self, component: Component) -> (idx: usize)
        requires
            old(self).wf(),
            component.wf(),
        ensures
            final(self).wf(),
            final(self).components@ == old(self).components@.push(component),
            idx == old(self).components@.len(),
            final(self).is_tick == old(self).is_tick,
    {
        let idx = self.components.len();
        self.components.push(component);
        idx
    }

    /// Advance every registered component by exactly one synchronous step,
    /// in registration order; each transition consumes only that component's
    /// own committed and pending state, never another component's output.
    pub fn tick(&mut self)
        requires
            old(self).wf(),
        ensures
            final(self).wf(),
            final(self).is_tick == !old(self).is_tick,
            final(self).components@.len() == old(self).components@.len(),
            forall|i: int|
                0 <= i < old(self).components@.len() ==> {
                    &&& (#[trigger] final(self).components@[i]).same_kind(
                        &old(self).components@[i],
                    )
                    &&& final(self).components@[i].arity() == old(self).components@[i].arity()
                    &&& final(self).components@[i].current() == old(self).components@[i].next()
                    &&& final(self).components@[i].pending() == old(self).components@[i].pending()
                },
    {
        let n = self.components.len();
        let mut i: usize = 0;
        while i < n
            invariant
                old(self).wf(),
                n == old(self).components@.len(),
                self.components@.len() == n,
                self.is_tick == old(self).is_tick,
                i <= n,
                forall|j: int|
                    0 <= j < i ==> {
                        &&& (#[trigger] self.components@[j]).wf()
                        &&& self.components@[j].same_kind(&old(self).components@[j])
                        &&& self.components@[j].arity() == old(self).components@[j].arity()
                        &&& self.components@[j].current() == old(self).components@[j].next()
                        &&& self.components@[j].pending() == old(self).components@[j].pending()
                    },
                forall|j: int|
                    i <= j < n ==> (#[trigger] self.components@[j]) == old(self).components@[j],
            decreases n - i,
        {
            self.components[i].tick();
            i += 1;
        }
        self.is_tick = !self.is_tick;
    }

    /// Read the observable state of the component at `index`; the index must
    /// come from `register`.
    pub fn get_state_of_component(&self, index: usize) -> (r: Vec<bool>)
        requires
            self.wf(),
            index < self.components@.len(),
        ensures
            r@ == self.components@[index as int].read(),
    {
        let component = &self.components[index];
        component.get_state()
    }

    /// Latch new pending inputs on the component at `index`, leaving every
    /// other component untouched; the input arity must match the component.
    pub fn set_state_of_component(&mut self, index: usize, inputs: Vec<bool>)
        requires
            old(self).wf(),
            index < old(self).components@.len(),
            inputs@.len() == old(self).components@[index as int].arity(),
        ensures
            final(self).wf(),
            final(self).is_tick == old(self).is_tick,
            final(self).components@.len() == old(self).components@.len(),
            final(self).components@[index as int].same_kind(&old(self).components@[index as int]),
            final(self).components@[index as int].arity() == old(self).components@[
                index as int
            ].arity(),
            final(self).components@[index as int].current() == old(self).components@[
                index as int
            ].current(),
            final(self).components@[index as int].pending() == inputs@,
            forall|j: int|
                0 <= j < old(self).components@.len() && j != index
                    ==> (#[trigger] final(self).components@[j]) == old(self).components@[j],
    {
        self.components[index].set_state(inputs);
    }
}

/// Each component variant reads and ticks by its own transition function
/// over the two-slot state: reads are the committed state, except that the
/// memory bank reads through its latched address; ticks follow the matching
/// `*_next_of` transition.
pub proof fn lemma_component_semantics(c: Component)
    ensures
        c matches Component::StorageCell(_) ==> c.read() == c.current() && c.next() == dff_next_of(
            c.current(),
            c.pending(),
        ),
        c matches Component::LoadableRegister(_) ==> c.read() == c.current() && c.next()
            == bit_next_of(c.current(), c.pending()),
        c matches Component::Register16(_) ==> c.read() == c.current() && c.next() == reg_next_of(
            c.current(),
            c.pending(),
        ),
        c matches Component::MemoryBank8(_) ==> c.read() == bank_read_of(c.current(), c.pending())
            && c.next() == bank_next_of(c.current(), c.pending()),
{
}

/// The committed bit of a loadable register after `n` ticks with the same
/// pending inputs latched throughout.
pub open spec fn bit_after_ticks(cur: Seq<bool>, pend: Seq<bool>, n: nat) -> Seq<bool>
    decreases n,
{
    if n == 0 {
        cur
    } else {
        bit_next_of(bit_after_ticks(cur, pend, (n - 1) as nat), pend)
    }
}

/// Storage cell two-slot law: configuring a bit only fills the pending slot,
/// so a read before the next tick still returns the previously committed
/// bit; after exactly one tick the configured bit is what is read.
pub proof fn lemma_storage_cell_two_slot(d: DFF, b: bool)
    ensures
        ({
            let configured = DFF { state: d.state, next_state: b };
            &&& configured.read() == d.read()
            &&& configured.next() == seq![b]
        }),
{
}

/// Loadable register law: with load deasserted, any number of ticks leaves
/// the committed bit unchanged regardless of the pending value; with load
/// asserted, a single tick makes the pending value visible.
pub proof fn lemma_loadable_register_load(cur: Seq<bool>, v: bool, ld: bool, n: nat)
    ensures
        !ld ==> bit_after_ticks(cur, seq![v, ld], n) == cur,
        ld ==> bit_next_of(cur, seq![v, ld]) == seq![v],
    decreases n,
{
    if n > 0 {
        lemma_loadable_register_load(cur, v, ld, (n - 1) as nat);
    }
}

/// 16-bit register round trip: one tick with load asserted installs an
/// arbitrary 16-bit word, and a later tick with load deasserted preserves it
/// whatever data came with the deasserted load.
pub proof fn lemma_register16_round_trip(cur: Seq<bool>, w: Seq<bool>, w2: Seq<bool>)
    requires
        w.len() == 16,
        w2.len() == 16,
    ensures
        reg_next_of(cur, w.push(true)) == w,
        reg_next_of(w, w2.push(false)) == w,
{
    assert(w.push(true).take(16) =~= w);
}

/// Memory bank write isolation: committing a write with the load flag
/// asserted replaces exactly the addressed word with the pending data and
/// leaves the word at every other address untouched.
pub proof fn lemma_bank_write_isolation(cur: Seq<bool>, pend: Seq<bool>, other: int)
    requires
        cur.len() == 128,
        pend.len() == 20,
        pend[16],
        0 <= other < 8,
        other != bank_addr_of(pend),
    ensures
        0 <= bank_addr_of(pend) < 8,
        bank_word(bank_next_of(cur, pend), bank_addr_of(pend)) == pend.take(16),
        bank_word(bank_next_of(cur, pend), other) == bank_word(cur, other),
{
    lemma_word_of_bound(pend.subrange(17, 20));
    lemma2_to64();
    let a = bank_addr_of(pend);
    assert(bank_word(bank_next_of(cur, pend), a) =~= pend.take(16));
    assert(bank_word(bank_next_of(cur, pend), other) =~= bank_word(cur, other));
}

/// A freshly constructed memory bank reads zero at every address: the word
/// at an address that was never written is all-zero.
pub proof fn lemma_bank_reset_reads_zero(pend: Seq<bool>)
    requires
        pend.len() == 20,
    ensures
        bank_read_of(zeros(128), pend) == zeros(16),
{
    lemma_word_of_bound(pend.subrange(17, 20));
    lemma2_to64();
    assert(bank_read_of(zeros(128), pend) =~= zeros(16));
}

} // verus!
