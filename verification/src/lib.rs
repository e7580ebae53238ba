//! A virtual machine for a 16-bit instruction set: 32768 words of memory,
//! eight registers, an unbounded stack and byte-oriented input and output.
//!
//! [`vm::VM`] is the machine. One call of [`vm::VM::step`] runs one
//! instruction and tells the caller what to do next: write a byte, supply
//! input, or stop. What a step does is defined by [`machine::Machine`], the
//! mathematical model of the machine's state, and every function of the
//! machine is proved against that model. [`laws`] holds what follows for
//! every program.
//!
//! Beside the machine stand tools for working with its programs: the debug
//! commands of [`command`], the snapshots of [`snapshot`], and solvers for
//! two puzzles that a well-known program for this machine poses, in
//! [`teleporter`] and [`vault`].

pub mod alu;
pub mod command;
pub mod fault;
pub mod laws;
pub mod machine;
pub mod memory;
pub mod operand;
pub mod snapshot;
pub mod teleporter;
pub mod vault;
pub mod vm;
