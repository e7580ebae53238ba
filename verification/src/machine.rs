//! The mathematical model of the machine: its state and the effect of one
//! instruction on it.

use vstd::prelude::*;
use crate::alu::{
    complement, conjunction, disjunction, equal_flag, greater_flag, product, remainder, sum,
};
use crate::command::Request;
use crate::fault::Fault;
use crate::operand::{classified, ValueType};

verus! {

/// The 22 instructions.
#[derive(Clone, Copy, Debug, PartialEq, Eq, Structural)]
pub enum Opcode {
    /// stop the machine
    Halt,
    /// `set a b`: register a := b
    Store,
    /// `push a`
    Push,
    /// `pop a`
    Pop,
    /// `eq a b c`: a := 1 if b == c, else 0
    Equal,
    /// `gt a b c`: a := 1 if b > c, else 0
    Greater,
    /// `jmp a`
    Jump,
    /// `jt a b`: jump to b if a is not zero
    JumpIfTrue,
    /// `jf a b`: jump to b if a is zero
    JumpIfFalse,
    /// `add a b c`
    Add,
    /// `mult a b c`
    Multiply,
    /// `mod a b c`
    Modulo,
    /// `and a b c`
    And,
    /// `or a b c`
    Or,
    /// `not a b`
    Not,
    /// `rmem a b`: a := memory at b
    ReadMemory,
    /// `wmem a b`: memory at a := b
    WriteMemory,
    /// `call a`
    Call,
    /// `ret`
    Return,
    /// `out a`
    Output,
    /// `in a`
    Input,
    /// `noop`
    NoOp,
}

/// What an operand slot of an instruction must hold.
#[derive(Clone, Copy, Debug, PartialEq, Eq, Structural)]
pub enum Slot {
    /// A register reference: the instruction writes that register.
    Register,
    /// A literal or a register reference: the instruction uses its value.
    Value,
}

/// What one step asks of whoever drives the machine.
#[derive(Clone, Copy, Debug, PartialEq, Eq, Structural)]
pub enum Signal {
    /// The instruction ran; there is nothing to do.
    Continue,
    /// The machine has stopped, now or earlier.
    Halt,
    /// `out` ran: this byte goes to the output sink.
    Output(u8),
    /// `in` ran and took this byte from the front of the input buffer.
    Input(u8),
    /// `in` found the input buffer empty. Nothing has changed: the same
    /// instruction runs again at the next step.
    AwaitInput,
}

/// The instruction that an instruction word encodes, if any.
pub open spec fn opcode_of(word: u16) -> Option<Opcode> {
    if word == 0 {
        Some(Opcode::Halt)
    } else if word == 1 {
        Some(Opcode::Store)
    } else if word == 2 {
        Some(Opcode::Push)
    } else if word == 3 {
        Some(Opcode::Pop)
    } else if word == 4 {
        Some(Opcode::Equal)
    } else if word == 5 {
        Some(Opcode::Greater)
    } else if word == 6 {
        Some(Opcode::Jump)
    } else if word == 7 {
        Some(Opcode::JumpIfTrue)
    } else if word == 8 {
        Some(Opcode::JumpIfFalse)
    } else if word == 9 {
        Some(Opcode::Add)
    } else if word == 10 {
        Some(Opcode::Multiply)
    } else if word == 11 {
        Some(Opcode::Modulo)
    } else if word == 12 {
        Some(Opcode::And)
    } else if word == 13 {
        Some(Opcode::Or)
    } else if word == 14 {
        Some(Opcode::Not)
    } else if word == 15 {
        Some(Opcode::ReadMemory)
    } else if word == 16 {
        Some(Opcode::WriteMemory)
    } else if word == 17 {
        Some(Opcode::Call)
    } else if word == 18 {
        Some(Opcode::Return)
    } else if word == 19 {
        Some(Opcode::Output)
    } else if word == 20 {
        Some(Opcode::Input)
    } else if word == 21 {
        Some(Opcode::NoOp)
    } else {
        None
    }
}

/// The operand slots of an instruction, in the order in which they follow
/// the instruction word in memory.
pub open spec fn shape(op: Opcode) -> Seq<Slot> {
    match op {
        Opcode::Halt | Opcode::Return | Opcode::NoOp => seq![],
        Opcode::Push | Opcode::Jump | Opcode::Call | Opcode::Output => seq![Slot::Value],
        Opcode::Pop | Opcode::Input => seq![Slot::Register],
        Opcode::JumpIfTrue | Opcode::JumpIfFalse | Opcode::WriteMemory => seq![Slot::Value, Slot::Value],
        Opcode::Store | Opcode::Not | Opcode::ReadMemory => seq![Slot::Register, Slot::Value],
        Opcode::Equal
        | Opcode::Greater
        | Opcode::Add
        | Opcode::Multiply
        | Opcode::Modulo
        | Opcode::And
        | Opcode::Or => seq![Slot::Register, Slot::Value, Slot::Value],
    }
}

/// The number of words that an instruction occupies: its instruction word
/// and its operands.
pub open spec fn length(op: Opcode) -> int {
    1 + shape(op).len() as int
}

/// The number of operand words that follow an instruction word; none
/// follow a word that is no instruction.
pub open spec fn operand_count(word: u16) -> int {
    match opcode_of(word) {
        Some(op) => shape(op).len() as int,
        None => 0,
    }
}

impl Opcode {
    /// The instruction that an instruction word encodes, if any.
    pub fn decode(word: u16) -> (r: Option<Opcode>)
        ensures
            r == opcode_of(word),
    {
        match word {
            0 => Some(Opcode::Halt),
            1 => Some(Opcode::Store),
            2 => Some(Opcode::Push),
            3 => Some(Opcode::Pop),
            4 => Some(Opcode::Equal),
            5 => Some(Opcode::Greater),
            6 => Some(Opcode::Jump),
            7 => Some(Opcode::JumpIfTrue),
            8 => Some(Opcode::JumpIfFalse),
            9 => Some(Opcode::Add),
            10 => Some(Opcode::Multiply),
            11 => Some(Opcode::Modulo),
            12 => Some(Opcode::And),
            13 => Some(Opcode::Or),
            14 => Some(Opcode::Not),
            15 => Some(Opcode::ReadMemory),
            16 => Some(Opcode::WriteMemory),
            17 => Some(Opcode::Call),
            18 => Some(Opcode::Return),
            19 => Some(Opcode::Output),
            20 => Some(Opcode::Input),
            21 => Some(Opcode::NoOp),
            _ => None,
        }
    }

    /// The number of operand words of this instruction.
    pub fn operands(self) -> (n: u16)
        ensures
            n == shape(self).len(),
            n <= 3,
    {
        match self {
            Opcode::Halt | Opcode::Return | Opcode::NoOp => 0,
            Opcode::Push | Opcode::Jump | Opcode::Call | Opcode::Output => 1,
            Opcode::Pop | Opcode::Input => 1,
            Opcode::JumpIfTrue | Opcode::JumpIfFalse | Opcode::WriteMemory => 2,
            Opcode::Store | Opcode::Not | Opcode::ReadMemory => 2,
            Opcode::Equal
            | Opcode::Greater
            | Opcode::Add
            | Opcode::Multiply
            | Opcode::Modulo
            | Opcode::And
            | Opcode::Or => 3,
        }
    }
}

/// One instruction as it stands in memory: its instruction word and the
/// raw operand words behind it.
pub struct Instruction {
    /// The instruction word.
    pub word: u16,
    /// The instruction that the word encodes, if any.
    pub opcode: Option<Opcode>,
    /// The operand words, unresolved: a word of 32768 to 32775 names a
    /// register.
    pub operands: Vec<u16>,
}

/// The state of a machine.
pub struct Machine {
    /// The 32768 words of the address space.
    pub memory: Seq<u16>,
    /// The eight registers.
    pub registers: Seq<u16>,
    /// Address of the next instruction word.
    pub pc: u16,
    /// The stack, its top last.
    pub stack: Seq<u16>,
    /// False once the machine has halted.
    pub running: bool,
    /// Calls that have not returned; kept for diagnostics only.
    pub depth: usize,
    /// Input bytes waiting to be read, the next one first.
    pub input: Seq<u8>,
}

impl Machine {
    /// The shape that every machine state has.
    pub open spec fn well_formed(self) -> bool {
        &&& self.memory.len() == 32768
        &&& self.registers.len() == 8
    }

    /// The state in which a machine starts on the given memory.
    pub open spec fn boot(memory: Seq<u16>) -> Machine {
        Machine {
            memory,
            registers: Seq::new(8, |i: int| 0u16),
            pc: 0,
            stack: Seq::empty(),
            running: true,
            depth: 0,
            input: Seq::empty(),
        }
    }

    /// The word at an address.
    pub open spec fn read(self, addr: u16) -> Result<u16, Fault> {
        if addr < 32768 {
            Ok(self.memory[addr as int])
        } else {
            Err(Fault::OutOfBounds { addr })
        }
    }

    /// The operand word at an address, classified.
    pub open spec fn operand(self, addr: u16) -> Result<ValueType, Fault> {
        match self.read(addr) {
            Ok(raw) => classified(raw),
            Err(fault) => Err(fault),
        }
    }

    /// The index of the register that the operand word at an address names.
    pub open spec fn register_at(self, addr: u16) -> Result<u16, Fault> {
        match self.operand(addr) {
            Ok(ValueType::Register(n)) => Ok(n),
            Ok(ValueType::Literal(n)) => Err(Fault::TypeMismatch { word: n }),
            Err(fault) => Err(fault),
        }
    }

    /// The value of the operand word at an address: a literal stands for
    /// itself, a register reference for what the register holds.
    pub open spec fn value_at(self, addr: u16) -> Result<u16, Fault> {
        match self.operand(addr) {
            Ok(ValueType::Register(n)) => Ok(self.registers[n as int]),
            Ok(ValueType::Literal(n)) => Ok(n),
            Err(fault) => Err(fault),
        }
    }

    /// What the operand slot at distance `k` behind the program counter
    /// yields: a register index or a value, as the slot demands.
    pub open spec fn slot(self, kind: Slot, k: int) -> Result<u16, Fault> {
        match kind {
            Slot::Register => self.register_at((self.pc + k) as u16),
            Slot::Value => self.value_at((self.pc + k) as u16),
        }
    }

    /// The operands of the instruction at the program counter, resolved one
    /// after the other; the first that fails decides the fault.
    pub open spec fn operands(self, op: Opcode) -> Result<Seq<u16>, Fault> {
        let slots = shape(op);
        if slots.len() == 0 {
            Ok(seq![])
        } else {
            match self.slot(slots[0], 1) {
                Err(fault) => Err(fault),
                Ok(a) => if slots.len() == 1 {
                    Ok(seq![a])
                } else {
                    match self.slot(slots[1], 2) {
                        Err(fault) => Err(fault),
                        Ok(b) => if slots.len() == 2 {
                            Ok(seq![a, b])
                        } else {
                            match self.slot(slots[2], 3) {
                                Err(fault) => Err(fault),
                                Ok(c) => Ok(seq![a, b, c]),
                            }
                        },
                    }
                },
            }
        }
    }

    /// The instruction word at `addr` and the raw operand words behind it,
    /// read without running anything. An instruction that does not end
    /// within memory is out of bounds at the first address behind memory.
    pub open spec fn listed(self, addr: u16) -> Result<(u16, Seq<u16>), Fault> {
        match self.read(addr) {
            Err(fault) => Err(fault),
            Ok(word) => if addr + operand_count(word) < 32768 {
                Ok((word, self.memory.subrange(addr + 1, addr + 1 + operand_count(word))))
            } else {
                Err(Fault::OutOfBounds { addr: 32768 })
            },
        }
    }

    /// This state with one register replaced.
    pub open spec fn with_register(self, n: u16, value: u16) -> Machine {
        Machine { registers: self.registers.update(n as int, value), ..self }
    }

    /// This state with the program counter moved to `target`.
    pub open spec fn at(self, target: u16) -> Machine {
        Machine { pc: target, ..self }
    }

    /// This state with the program counter moved past an instruction of
    /// `len` words.
    pub open spec fn advanced(self, len: int) -> Machine {
        Machine { pc: (self.pc + len) as u16, ..self }
    }

    /// This state with `value` on top of the stack.
    pub open spec fn pushed(self, value: u16) -> Machine {
        Machine { stack: self.stack.push(value), ..self }
    }

    /// This state without the top of the stack.
    pub open spec fn popped(self) -> Machine
        recommends
            self.stack.len() > 0,
    {
        Machine { stack: self.stack.drop_last(), ..self }
    }

    /// This state with `value` stored at `addr`, or `OutOfBounds` for an
    /// address beyond memory.
    pub open spec fn written(self, addr: u16, value: u16) -> Result<Machine, Fault> {
        if addr < 32768 {
            Ok(Machine { memory: self.memory.update(addr as int, value), ..self })
        } else {
            Err(Fault::OutOfBounds { addr })
        }
    }

    /// This state with its pending input replaced.
    pub open spec fn with_input(self, input: Seq<u8>) -> Machine {
        Machine { input, ..self }
    }

    /// This state after a debug command: `set` overwrites its register,
    /// and the other commands change nothing.
    pub open spec fn commanded(self, request: Request) -> Machine {
        match request {
            Request::SetRegister { register, value } => self.with_register(register, value),
            _ => self,
        }
    }

    /// This state, halted.
    pub open spec fn stopped(self) -> Machine {
        Machine { running: false, ..self }
    }

    /// The effect of the instruction `op` with resolved operands `args` in a
    /// running machine whose program counter is at the instruction word.
    pub open spec fn apply(self, op: Opcode, args: Seq<u16>) -> Result<(Machine, Signal), Fault> {
        let len = length(op);
        match op {
            Opcode::Halt => Ok((self.stopped(), Signal::Halt)),
            Opcode::Store => Ok((self.with_register(args[0], args[1]).advanced(len), Signal::Continue)),
            Opcode::Push => Ok((self.pushed(args[0]).advanced(len), Signal::Continue)),
            Opcode::Pop => if self.stack.len() == 0 {
                Err(Fault::StackUnderflow)
            } else {
                Ok(
                    (
                        self.popped().with_register(args[0], self.stack.last()).advanced(len),
                        Signal::Continue,
                    ),
                )
            },
            Opcode::Equal => Ok(
                (
                    self.with_register(args[0], equal_flag(args[1], args[2])).advanced(len),
                    Signal::Continue,
                ),
            ),
            Opcode::Greater => Ok(
                (
                    self.with_register(args[0], greater_flag(args[1], args[2])).advanced(len),
                    Signal::Continue,
                ),
            ),
            Opcode::Jump => Ok((self.at(args[0]), Signal::Continue)),
            Opcode::JumpIfTrue => if args[0] != 0 {
                Ok((self.at(args[1]), Signal::Continue))
            } else {
                Ok((self.advanced(len), Signal::Continue))
            },
            Opcode::JumpIfFalse => if args[0] == 0 {
                Ok((self.at(args[1]), Signal::Continue))
            } else {
                Ok((self.advanced(len), Signal::Continue))
            },
            Opcode::Add => Ok(
                (
                    self.with_register(args[0], sum(args[1], args[2])).advanced(len),
                    Signal::Continue,
                ),
            ),
            Opcode::Multiply => Ok(
                (
                    self.with_register(args[0], product(args[1], args[2])).advanced(len),
                    Signal::Continue,
                ),
            ),
            Opcode::Modulo => if args[2] == 0 {
                Err(Fault::DivisionByZero)
            } else {
                Ok(
                    (
                        self.with_register(args[0], remainder(args[1], args[2])).advanced(len),
                        Signal::Continue,
                    ),
                )
            },
            Opcode::And => Ok(
                (
                    self.with_register(args[0], conjunction(args[1], args[2])).advanced(len),
                    Signal::Continue,
                ),
            ),
            Opcode::Or => Ok(
                (
                    self.with_register(args[0], disjunction(args[1], args[2])).advanced(len),
                    Signal::Continue,
                ),
            ),
            Opcode::Not => Ok(
                (self.with_register(args[0], complement(args[1])).advanced(len), Signal::Continue),
            ),
            Opcode::ReadMemory => match self.read(args[1]) {
                Err(fault) => Err(fault),
                Ok(word) => Ok((self.with_register(args[0], word).advanced(len), Signal::Continue)),
            },
            Opcode::WriteMemory => match self.written(args[0], args[1]) {
                Err(fault) => Err(fault),
                Ok(after) => Ok((after.advanced(len), Signal::Continue)),
            },
            Opcode::Call => Ok(
                (
                    Machine {
                        depth: if self.depth < usize::MAX {
                            (self.depth + 1) as usize
                        } else {
                            self.depth
                        },
                        ..self.pushed((self.pc + len) as u16).at(args[0])
                    },
                    Signal::Continue,
                ),
            ),
            Opcode::Return => if self.stack.len() == 0 {
                Ok((self.stopped(), Signal::Halt))
            } else {
                Ok(
                    (
                        Machine {
                            depth: if self.depth > 0 {
                                (self.depth - 1) as usize
                            } else {
                                self.depth
                            },
                            ..self.popped().at(self.stack.last())
                        },
                        Signal::Continue,
                    ),
                )
            },
            Opcode::Output => Ok((self.advanced(len), Signal::Output((args[0] % 256) as u8))),
            Opcode::Input => if self.input.len() == 0 {
                Ok((self, Signal::AwaitInput))
            } else {
                Ok(
                    (
                        self.with_input(self.input.drop_first()).with_register(
                            args[0],
                            self.input[0] as u16,
                        ).advanced(len),
                        Signal::Input(self.input[0]),
                    ),
                )
            },
            Opcode::NoOp => Ok((self.advanced(len), Signal::Continue)),
        }
    }

    /// One step of the machine: the state that follows this one and the
    /// signal given, or the fault that stops the run. A halted machine stays
    /// as it is.
    pub open spec fn next(self) -> Result<(Machine, Signal), Fault> {
        if !self.running {
            Ok((self, Signal::Halt))
        } else {
            match self.read(self.pc) {
                Err(fault) => Err(fault),
                Ok(word) => match opcode_of(word) {
                    None => Err(Fault::UnknownOpcode { word }),
                    Some(op) => match self.operands(op) {
                        Err(fault) => Err(fault),
                        Ok(args) => self.apply(op, args),
                    },
                },
            }
        }
    }
}

} // verus!
