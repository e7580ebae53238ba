//! The fatal conditions of the machine.

use vstd::prelude::*;

verus! {

/// A condition that ends a run. None of them changes the machine, so the
/// program counter still names the instruction that failed.
#[derive(Clone, Copy, Debug, PartialEq, Eq, Structural)]
pub enum Fault {
    /// An access at an address beyond the 32768 words of memory.
    OutOfBounds { addr: u16 },
    /// An operand word above every register reference (32776 or more).
    InvalidWord { word: u16 },
    /// A literal where the instruction needs a register reference.
    TypeMismatch { word: u16 },
    /// `pop` on an empty stack.
    StackUnderflow,
    /// An instruction word that is none of the 22 opcodes.
    UnknownOpcode { word: u16 },
    /// `mod` with a divisor of zero.
    DivisionByZero,
}

} // verus!
