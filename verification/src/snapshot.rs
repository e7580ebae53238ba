//! The whole state of a machine as plain values, for saving a session and
//! taking it up again.

use vstd::prelude::*;
use crate::machine::Machine;
use crate::memory::{words_of, zero_extended};

verus! {

/// Everything a machine holds. A snapshot taken from a machine and restored
/// gives a machine in the same state.
pub struct Snapshot {
    /// The memory image: each word as its low byte followed by its high
    /// byte. An image shorter than 65536 bytes stands for one followed by
    /// zero bytes.
    pub ram: Vec<u8>,
    /// The eight registers.
    pub registers: [u16; 8],
    /// The program counter.
    pub addr: u16,
    /// The stack, its top last.
    pub stack: Vec<u16>,
    /// False once the machine has halted.
    pub running: bool,
    /// Calls that have not returned.
    pub level: usize,
    /// Input bytes waiting to be read, the next one first.
    pub input_buffer: Vec<u8>,
}

impl Snapshot {
    /// Whether a machine can be restored from this snapshot: its memory
    /// image must fit the address space.
    pub open spec fn restorable(&self) -> bool {
        self.ram@.len() <= 65536
    }

    /// The machine state that this snapshot describes.
    pub open spec fn model(&self) -> Machine {
        Machine {
            memory: words_of(zero_extended(self.ram@, 65536)),
            registers: self.registers@,
            pc: self.addr,
            stack: self.stack@,
            running: self.running,
            depth: self.level,
            input: self.input_buffer@,
        }
    }
}

} // verus!
