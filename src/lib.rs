//! A small stack-based bytecode virtual machine: a decoder for its one-byte
//! instruction set, a verified dispatch loop with a recursive calling
//! convention, and a loader for the line-oriented program text.

pub mod bytecode;
pub mod laws;
pub mod loader;
pub mod numeral;
pub mod program;
pub mod vm;
