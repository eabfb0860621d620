//! A gate-level simulator of a small digital computer.
//!
//! Pure combinational logic (boolean gates, word-wide gates, a ripple-carry
//! adder and an ALU) is built up from NAND-equivalent primitives, and clocked
//! sequential elements (a storage cell, loadable registers and a small memory
//! bank) are driven synchronously by a scheduler that owns them.

pub mod alu;
pub mod bits;
pub mod gates;
pub mod sequential;
pub mod utils;
