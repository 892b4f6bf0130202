//! A minimal register-machine virtual CPU.
//!
//! The machine has an 8-bit register file, a 16-bit fixed-width instruction
//! encoding, a line-oriented assembler that compiles mnemonic source text
//! into instruction words, and a fetch-decode-execute engine that runs a
//! word stream against the machine state.

pub mod assembler;
pub mod cpu;
pub mod isa;
