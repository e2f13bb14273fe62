//! A toolchain for a 16-bit register machine: an assembler that turns
//! mnemonic text into machine words, an execution core that runs those words
//! against a register file and a memory-mapped console peripheral, and a
//! compiler for a small function-oriented source language ("SCC") that lowers
//! to the assembly language.

pub mod compiler;
pub mod isa;
pub mod machine;
pub mod scc;
pub mod text;
