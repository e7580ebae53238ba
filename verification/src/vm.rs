//! The executable machine.

use vstd::prelude::*;
use crate::alu::{word_add, word_and, word_eq, word_gt, word_mod, word_mult, word_not, word_or};
use crate::command::{parse_command, parsed, Command, CommandError};
use crate::fault::Fault;
use crate::machine::{operand_count, opcode_of, Instruction, Machine, Opcode, Signal};
use crate::memory::{
    image_of, lemma_words_of_image, words_of, zero_extended, AddressSpace, IMAGE_BYTES,
};
use crate::operand::{classify, ValueType};
use crate::snapshot::Snapshot;

verus! {

/// A machine: its memory image, registers, program counter, stack and
/// pending input.
pub struct VM {
    ram: AddressSpace,
    registers: [u16; 8],
    addr: u16,
    stack: Vec<u16>,
    running: bool,
    level: usize,
    input_buffer: Vec<u8>,
}

impl View for VM {
    type V = Machine;

    closed spec fn view(&self) -> Machine {
        Machine {
            memory: self.ram@,
            registers: self.registers@,
            pc: self.addr,
            stack: self.stack@,
            running: self.running,
            depth: self.level,
            input: self.input_buffer@,
        }
    }
}

impl VM {
    /// Every machine has 32768 words of memory and eight registers.
    pub proof fn lemma_well_formed(&self)
        ensures
            self@.well_formed(),
    {
        self.ram.lemma_len();
    }

    /// A machine that starts at address 0 on the given program image, with
    /// the rest of memory zero, all registers zero, and nothing on the stack
    /// or in the input buffer.
    pub fn new(rom: Vec<u8>) -> (vm: VM)
        requires
            rom@.len() <= 65536,
        ensures
            vm@ == Machine::boot(words_of(zero_extended(rom@, 65536))),
            vm@.well_formed(),
    {
        let ram = AddressSpace::load(rom);
        let vm = VM {
            ram,
            registers: [0u16; 8],
            addr: 0,
            stack: Vec::new(),
            running: true,
            level: 0,
            input_buffer: Vec::new(),
        };
        proof {
            assert(vm.registers@ =~= Seq::new(8, |i: int| 0u16));
            vm.lemma_well_formed();
        }
        vm
    }

    /// The machine that a snapshot describes, or `None` for a snapshot
    /// whose memory image is longer than the address space.
    pub fn restore(snapshot: Snapshot) -> (r: Option<VM>)
        ensures
            r.is_some() <==> snapshot.restorable(),
            r matches Some(vm) ==> vm@ == snapshot.model(),
    {
        if snapshot.ram.len() > IMAGE_BYTES {
            return None;
        }
        let vm = VM {
            ram: AddressSpace::load(snapshot.ram),
            registers: snapshot.registers,
            addr: snapshot.addr,
            stack: snapshot.stack,
            running: snapshot.running,
            level: snapshot.level,
            input_buffer: snapshot.input_buffer,
        };
        Some(vm)
    }

    /// The whole state of the machine as a snapshot. The snapshot holds
    /// the full memory image, so it is restorable, and restoring it gives a
    /// machine in this state.
    pub fn export(&self) -> (snapshot: Snapshot)
        ensures
            snapshot.model() == self@,
            snapshot.ram@ == image_of(self@.memory),
            snapshot.restorable(),
    {
        let image = self.ram.image();
        let ram = image.clone();
        let stack = self.stack.clone();
        let input_buffer = self.input_buffer.clone();
        proof {
            self.lemma_well_formed();
            assert(ram@ =~= image@);
            assert(stack@ =~= self.stack@);
            assert(input_buffer@ =~= self.input_buffer@);
            assert(zero_extended(ram@, 65536) =~= ram@);
            lemma_words_of_image(self@.memory);
        }
        Snapshot {
            ram,
            registers: self.registers,
            addr: self.addr,
            stack,
            running: self.running,
            level: self.level,
            input_buffer,
        }
    }

    /// The whole memory as 65536 bytes, each word as its low byte followed
    /// by its high byte.
    pub fn ram(&self) -> (image: &Vec<u8>)
        ensures
            image@ == image_of(self@.memory),
    {
        self.ram.image()
    }

    /// The eight registers.
    pub fn registers(&self) -> (registers: [u16; 8])
        ensures
            registers@ == self@.registers,
    {
        self.registers
    }

    /// The program counter.
    pub fn addr(&self) -> (addr: u16)
        ensures
            addr == self@.pc,
    {
        self.addr
    }

    /// The stack, its top last.
    pub fn stack(&self) -> (stack: &Vec<u16>)
        ensures
            stack@ == self@.stack,
    {
        &self.stack
    }

    /// The number of calls that have not returned.
    pub fn level(&self) -> (level: usize)
        ensures
            level == self@.depth,
    {
        self.level
    }

    /// The input bytes that wait to be read, the next one first.
    pub fn input_buffer(&self) -> (input: &Vec<u8>)
        ensures
            input@ == self@.input,
    {
        &self.input_buffer
    }

    /// Replaces the pending input.
    pub fn set_input_buffer(&mut self, input: Vec<u8>)
        ensures
            final(self)@ == old(self)@.with_input(input@),
    {
        self.input_buffer = input;
    }

    /// Appends one byte to the pending input.
    pub fn push_input(&mut self, byte: u8)
        ensures
            final(self)@ == old(self)@.with_input(old(self)@.input.push(byte)),
    {
        self.input_buffer.push(byte);
    }

    /// Whether the machine has stopped.
    pub fn is_halted(&self) -> (halted: bool)
        ensures
            halted == !self@.running,
    {
        !self.running
    }

    /// Puts `value` on top of the stack.
    pub fn push_stack(&mut self, value: u16)
        ensures
            final(self)@ == old(self)@.pushed(value),
    {
        self.stack.push(value);
    }

    /// Takes the top of the stack, if there is one.
    pub fn pop_stack(&mut self) -> (top: Option<u16>)
        ensures
            old(self)@.stack.len() == 0 ==> top.is_none() && final(self)@ == old(self)@,
            old(self)@.stack.len() > 0 ==> top == Some(old(self)@.stack.last()) && final(self)@
                == old(self)@.popped(),
    {
        self.stack.pop()
    }

    /// The word at an address.
    pub fn get_ram(&self, addr: u16) -> (r: Result<u16, Fault>)
        ensures
            r == self@.read(addr),
    {
        self.ram.read(addr)
    }

    /// The operand word at an address, classified as a literal or a
    /// register reference.
    pub fn get_ram_value(&self, addr: u16) -> (r: Result<ValueType, Fault>)
        ensures
            r == self@.operand(addr),
            r matches Ok(ValueType::Register(n)) ==> n < 8,
    {
        let num = self.get_ram(addr)?;
        classify(num)
    }

    /// The index of the register that the operand word at an address names.
    pub fn get_register(&self, addr: u16) -> (r: Result<u16, Fault>)
        ensures
            r == self@.register_at(addr),
            r matches Ok(n) ==> n < 8,
    {
        match self.get_ram_value(addr)? {
            ValueType::Register(n) => Ok(n),
            ValueType::Literal(n) => Err(Fault::TypeMismatch { word: n }),
        }
    }

    /// The value of the operand word at an address: the literal itself, or
    /// what the register that it names holds.
    pub fn get_value(&self, addr: u16) -> (r: Result<u16, Fault>)
        ensures
            r == self@.value_at(addr),
    {
        match self.get_ram_value(addr)? {
            ValueType::Register(r) => Ok(self.registers[r as usize]),
            ValueType::Literal(n) => Ok(n),
        }
    }

    /// Stores `value` at an address; for an address beyond memory this is
    /// `OutOfBounds` and nothing changes.
    pub fn set_ram(&mut self, addr: u16, value: u16) -> (r: Result<(), Fault>)
        ensures
            match old(self)@.written(addr, value) {
                Ok(after) => r.is_ok() && final(self)@ == after,
                Err(fault) => r == Err::<(), Fault>(fault) && final(self)@ == old(self)@,
            },
    {
        self.ram.write(addr, value)
    }

    /// Takes the next byte of the pending input, if there is one.
    pub fn read_input_byte(&mut self) -> (byte: Option<u8>)
        ensures
            old(self)@.input.len() == 0 ==> byte.is_none() && final(self)@ == old(self)@,
            old(self)@.input.len() > 0 ==> byte == Some(old(self)@.input[0]) && final(self)@ == old(
                self,
            )@.with_input(old(self)@.input.drop_first()),
    {
        if self.input_buffer.len() == 0 {
            None
        } else {
            let byte = self.input_buffer.remove(0);
            assert(self.input_buffer@ =~= old(self)@.input.drop_first());
            Some(byte)
        }
    }

    /// Overwrites a register.
    pub fn set_register(&mut self, register: u16, value: u16)
        requires
            register < 8,
        ensures
            final(self)@ == old(self)@.with_register(register, value),
    {
        self.registers[register as usize] = value;
    }

    /// Runs one instruction, or reports that the machine has halted or
    /// waits for input. A fault leaves the machine as it was.
    pub fn step(&mut self) -> (r: Result<Signal, Fault>)
        ensures
            match old(self)@.next() {
                Ok((after, signal)) => final(self)@ == after && r == Ok::<Signal, Fault>(signal),
                Err(fault) => final(self)@ == old(self)@ && r == Err::<Signal, Fault>(fault),
            },
    {
        if !self.running {
            return Ok(Signal::Halt);
        }
        // grab the instruction to process
        let instruction = self.get_ram(self.addr)?;

        match instruction {
            0 => {
                // halt: stop execution
                self.running = false;
                Ok(Signal::Halt)
            },
            1 => {
                // set: 1 a b
                let a = self.get_register(self.addr + 1)?;
                let b = self.get_value(self.addr + 2)?;
                self.set_register(a, b);
                self.addr += 3;
                Ok(Signal::Continue)
            },
            2 => {
                // push: 2 a
                let a = self.get_value(self.addr + 1)?;
                self.push_stack(a);
                self.addr += 2;
                Ok(Signal::Continue)
            },
            3 => {
                // pop: 3 a
                let a = self.get_register(self.addr + 1)?;
                match self.pop_stack() {
                    None => Err(Fault::StackUnderflow),
                    Some(elem) => {
                        self.set_register(a, elem);
                        self.addr += 2;
                        Ok(Signal::Continue)
                    },
                }
            },
            4 => {
                // eq: 4 a b c
                let a = self.get_register(self.addr + 1)?;
                let b = self.get_value(self.addr + 2)?;
                let c = self.get_value(self.addr + 3)?;
                self.set_register(a, word_eq(b, c));
                self.addr += 4;
                Ok(Signal::Continue)
            },
            5 => {
                // gt: 5 a b c
                let a = self.get_register(self.addr + 1)?;
                let b = self.get_value(self.addr + 2)?;
                let c = self.get_value(self.addr + 3)?;
                self.set_register(a, word_gt(b, c));
                self.addr += 4;
                Ok(Signal::Continue)
            },
            6 => {
                // jmp: 6 a
                let a = self.get_value(self.addr + 1)?;
                self.jump(a);
                Ok(Signal::Continue)
            },
            7 => {
                // jt: 7 a b
                let a = self.get_value(self.addr + 1)?;
                let b = self.get_value(self.addr + 2)?;
                if a != 0 {
                    self.jump(b);
                } else {
                    self.addr += 3;
                }
                Ok(Signal::Continue)
            },
            8 => {
                // jf: 8 a b
                let a = self.get_value(self.addr + 1)?;
                let b = self.get_value(self.addr + 2)?;
                if a == 0 {
                    self.jump(b);
                } else {
                    self.addr += 3;
                }
                Ok(Signal::Continue)
            },
            9 => {
                // add: 9 a b c
                let a = self.get_register(self.addr + 1)?;
                let b = self.get_value(self.addr + 2)?;
                let c = self.get_value(self.addr + 3)?;
                self.set_register(a, word_add(b, c));
                self.addr += 4;
                Ok(Signal::Continue)
            },
            10 => {
                // mult: 10 a b c
                let a = self.get_register(self.addr + 1)?;
                let b = self.get_value(self.addr + 2)?;
                let c = self.get_value(self.addr + 3)?;
                self.set_register(a, word_mult(b, c));
                self.addr += 4;
                Ok(Signal::Continue)
            },
            11 => {
                // mod: 11 a b c
                let a = self.get_register(self.addr + 1)?;
                let b = self.get_value(self.addr + 2)?;
                let c = self.get_value(self.addr + 3)?;
                if c == 0 {
                    return Err(Fault::DivisionByZero);
                }
                self.set_register(a, word_mod(b, c));
                self.addr += 4;
                Ok(Signal::Continue)
            },
            12 => {
                // and: 12 a b c
                let a = self.get_register(self.addr + 1)?;
                let b = self.get_value(self.addr + 2)?;
                let c = self.get_value(self.addr + 3)?;
                self.set_register(a, word_and(b, c));
                self.addr += 4;
                Ok(Signal::Continue)
            },
            13 => {
                // or: 13 a b c
                let a = self.get_register(self.addr + 1)?;
                let b = self.get_value(self.addr + 2)?;
                let c = self.get_value(self.addr + 3)?;
                self.set_register(a, word_or(b, c));
                self.addr += 4;
                Ok(Signal::Continue)
            },
            14 => {
                // not: 14 a b
                let a = self.get_register(self.addr + 1)?;
                let b = self.get_value(self.addr + 2)?;
                self.set_register(a, word_not(b));
                self.addr += 3;
                Ok(Signal::Continue)
            },
            15 => {
                // rmem: 15 a b
                let a = self.get_register(self.addr + 1)?;
                let b = self.get_value(self.addr + 2)?;
                let num = self.get_ram(b)?;
                self.set_register(a, num);
                self.addr += 3;
                Ok(Signal::Continue)
            },
            16 => {
                // wmem: 16 a b
                let a = self.get_value(self.addr + 1)?;
                let b = self.get_value(self.addr + 2)?;
                self.set_ram(a, b)?;
                self.addr += 3;
                Ok(Signal::Continue)
            },
            17 => {
                // call: 17 a
                let a = self.get_value(self.addr + 1)?;
                self.push_stack(self.addr + 2);
                if self.level < usize::MAX {
                    self.level += 1;
                }
                self.jump(a);
                Ok(Signal::Continue)
            },
            18 => {
                // ret: 18
                match self.pop_stack() {
                    None => {
                        // empty stack = halt
                        self.running = false;
                        Ok(Signal::Halt)
                    },
                    Some(addr) => {
                        if self.level > 0 {
                            self.level -= 1;
                        }
                        self.jump(addr);
                        Ok(Signal::Continue)
                    },
                }
            },
            19 => {
                // out: 19 a
                let a = self.get_value(self.addr + 1)?;
                self.addr += 2;
                Ok(Signal::Output((a % 256) as u8))
            },
            20 => {
                // in: 20 a
                let a = self.get_register(self.addr + 1)?;
                // read a single character from the input buffer; the caller
                // fills the buffer when it is empty
                match self.read_input_byte() {
                    None => Ok(Signal::AwaitInput),
                    Some(c) => {
                        self.set_register(a, c as u16);
                        self.addr += 2;
                        Ok(Signal::Input(c))
                    },
                }
            },
            21 => {
                // no-op
                self.addr += 1;
                Ok(Signal::Continue)
            },
            n => Err(Fault::UnknownOpcode { word: n }),
        }
    }

    /// The instruction at `addr` as it stands in memory, for a listing:
    /// nothing is resolved and nothing runs.
    pub fn disassemble(&self, addr: u16) -> (r: Result<Instruction, Fault>)
        ensures
            match self@.listed(addr) {
                Ok((word, operands)) => r matches Ok(ins) && ins.word == word && ins.opcode
                    == opcode_of(word) && ins.operands@ == operands,
                Err(fault) => r matches Err(f) && f == fault,
            },
    {
        proof {
            self.lemma_well_formed();
        }
        let word = self.get_ram(addr)?;
        let opcode = Opcode::decode(word);
        let count: u16 = match opcode {
            Some(op) => op.operands(),
            None => 0,
        };
        let mut operands: Vec<u16> = Vec::new();
        let mut k: u16 = 0;
        while k < count
            invariant
                addr < 32768,
                count <= 3,
                count == operand_count(word),
                k <= count,
                self@.memory.len() == 32768,
                addr + k < 32768,
                self@.read(addr) == Ok::<u16, Fault>(word),
                opcode == opcode_of(word),
                operands@ == self@.memory.subrange(addr + 1, addr + 1 + k),
            decreases count - k,
        {
            let raw = self.get_ram(addr + 1 + k)?;
            operands.push(raw);
            k += 1;
            assert(operands@ =~= self@.memory.subrange(addr + 1, addr + 1 + k));
        }
        Ok(Instruction { word, opcode, operands })
    }

    /// Reads a line as a debug command and carries out what it asks of the
    /// machine itself: `set` overwrites its register. The command is handed
    /// back, so that the caller can do what `dump`, `save` and `export` ask
    /// for. A line that is no command changes nothing.
    pub fn process_internal_command(&mut self, s: &[u8]) -> (r: Result<Command, CommandError>)
        ensures
            match parsed(s@) {
                Ok(request) => r matches Ok(command) && command@ == request && final(self)@ == old(
                    self,
                )@.commanded(request),
                Err(error) => r matches Err(e) && e == error && final(self)@ == old(self)@,
            },
    {
        let command = parse_command(s)?;
        match command {
            Command::SetRegister { register, value } => {
                self.set_register(register, value);
            },
            _ => {},
        }
        Ok(command)
    }

    /// Moves the program counter to `addr`.
    pub fn jump(&mut self, addr: u16)
        ensures
            final(self)@ == old(self)@.at(addr),
    {
        self.addr = addr;
    }
}

} // verus!
