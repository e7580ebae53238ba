use synacor::fault::Fault;
use synacor::machine::{Opcode, Signal};
use synacor::operand::{classify, ValueType};
use synacor::snapshot::Snapshot;
use synacor::vm::VM;

/// The byte image of a program given as words.
fn image(words: &[u16]) -> Vec<u8> {
    let mut bytes = Vec::new();
    for w in words {
        bytes.push((w % 256) as u8);
        bytes.push((w >> 8) as u8);
    }
    bytes
}

fn machine(words: &[u16]) -> VM {
    VM::new(image(words))
}

const R0: u16 = 32768;
const R1: u16 = 32769;
const R2: u16 = 32770;
const R7: u16 = 32775;

#[test]
fn new_machine_starts_clean() {
    let vm = machine(&[21, 21]);
    assert_eq!(vm.addr(), 0);
    assert_eq!(vm.registers(), [0u16; 8]);
    assert!(vm.stack().is_empty());
    assert!(vm.input_buffer().is_empty());
    assert!(!vm.is_halted());
    assert_eq!(vm.level(), 0);
    assert_eq!(vm.ram().len(), 65536);
}

#[test]
fn image_is_zero_extended() {
    let vm = VM::new(vec![7, 1, 9]);
    assert_eq!(vm.get_ram(0), Ok(263));
    assert_eq!(vm.get_ram(1), Ok(9));
    assert_eq!(vm.get_ram(2), Ok(0));
    assert_eq!(vm.get_ram(32767), Ok(0));
    assert_eq!(&vm.ram()[..4], &[7, 1, 9, 0]);
}

#[test]
fn read_is_little_endian() {
    let vm = VM::new(vec![0x34, 0x12, 0xff, 0x7f]);
    assert_eq!(vm.get_ram(0), Ok(0x1234));
    assert_eq!(vm.get_ram(1), Ok(32767));
}

#[test]
fn read_beyond_memory_is_out_of_bounds() {
    let vm = machine(&[0]);
    assert_eq!(vm.get_ram(32768), Err(Fault::OutOfBounds { addr: 32768 }));
    assert_eq!(vm.get_ram(65535), Err(Fault::OutOfBounds { addr: 65535 }));
}

#[test]
fn classify_tells_literals_from_registers() {
    assert_eq!(classify(0), Ok(ValueType::Literal(0)));
    assert_eq!(classify(32767), Ok(ValueType::Literal(32767)));
    assert_eq!(classify(32768), Ok(ValueType::Register(0)));
    assert_eq!(classify(32775), Ok(ValueType::Register(7)));
    assert_eq!(classify(32776), Err(Fault::InvalidWord { word: 32776 }));
    assert_eq!(classify(65535), Err(Fault::InvalidWord { word: 65535 }));
}

#[test]
fn operand_resolution() {
    let mut vm = machine(&[5, R2, 40000]);
    vm.set_register(2, 77);
    assert_eq!(vm.get_ram_value(0), Ok(ValueType::Literal(5)));
    assert_eq!(vm.get_ram_value(1), Ok(ValueType::Register(2)));
    assert_eq!(vm.get_ram_value(2), Err(Fault::InvalidWord { word: 40000 }));
    assert_eq!(vm.get_value(0), Ok(5));
    assert_eq!(vm.get_value(1), Ok(77));
    assert_eq!(vm.get_value(2), Err(Fault::InvalidWord { word: 40000 }));
    assert_eq!(vm.get_register(1), Ok(2));
    assert_eq!(vm.get_register(0), Err(Fault::TypeMismatch { word: 5 }));
    assert_eq!(vm.get_register(2), Err(Fault::InvalidWord { word: 40000 }));
    assert_eq!(vm.get_register(40000), Err(Fault::OutOfBounds { addr: 40000 }));
}

#[test]
fn set_then_out_example() {
    let mut vm = machine(&[1, 32768, 5, 19, 32768, 0]);
    assert_eq!(vm.step(), Ok(Signal::Continue));
    assert_eq!(vm.addr(), 3);
    assert_eq!(vm.registers()[0], 5);
    assert_eq!(vm.step(), Ok(Signal::Output(5)));
    assert_eq!(vm.addr(), 5);
    assert_eq!(vm.step(), Ok(Signal::Halt));
    assert!(vm.is_halted());
}

#[test]
fn halt_stops_and_stays_stopped() {
    let mut vm = machine(&[0, 19, 65]);
    assert_eq!(vm.step(), Ok(Signal::Halt));
    assert!(vm.is_halted());
    assert_eq!(vm.addr(), 0);
    assert_eq!(vm.step(), Ok(Signal::Halt));
    assert_eq!(vm.addr(), 0);
}

#[test]
fn add_is_modulo_32768() {
    let mut vm = machine(&[9, R0, 32758, 15, 9, R1, R0, R0, 9, R2, 32767, 32767]);
    assert_eq!(vm.step(), Ok(Signal::Continue));
    assert_eq!(vm.registers()[0], 5);
    assert_eq!(vm.addr(), 4);
    assert_eq!(vm.step(), Ok(Signal::Continue));
    assert_eq!(vm.registers()[1], 10);
    assert_eq!(vm.step(), Ok(Signal::Continue));
    assert_eq!(vm.registers()[2], 32766);
    assert_eq!(vm.addr(), 12);
}

#[test]
fn mult_is_modulo_32768_beyond_16_bits() {
    let mut vm = machine(&[10, R0, 32767, 32767, 10, R1, 300, 300, 10, R2, 6, 7]);
    assert_eq!(vm.step(), Ok(Signal::Continue));
    // 32767 * 32767 = 1073676289 = 32766 * 32768 + 1
    assert_eq!(vm.registers()[0], 1);
    assert_eq!(vm.step(), Ok(Signal::Continue));
    // 90000 - 2 * 32768
    assert_eq!(vm.registers()[1], 24464);
    assert_eq!(vm.step(), Ok(Signal::Continue));
    assert_eq!(vm.registers()[2], 42);
}

#[test]
fn mod_and_or() {
    let mut vm = machine(&[11, R0, 17, 5, 12, R1, 0b1100, 0b1010, 13, R2, 0b1100, 0b1010]);
    assert_eq!(vm.step(), Ok(Signal::Continue));
    assert_eq!(vm.registers()[0], 2);
    assert_eq!(vm.step(), Ok(Signal::Continue));
    assert_eq!(vm.registers()[1], 0b1000);
    assert_eq!(vm.step(), Ok(Signal::Continue));
    assert_eq!(vm.registers()[2], 0b1110);
    assert_eq!(vm.addr(), 12);
}

#[test]
fn mod_by_zero_is_a_fault() {
    let mut vm = machine(&[11, R0, 17, 0]);
    assert_eq!(vm.step(), Err(Fault::DivisionByZero));
    assert_eq!(vm.addr(), 0);
    assert_eq!(vm.registers(), [0u16; 8]);
    assert!(!vm.is_halted());
}

#[test]
fn not_is_a_15_bit_complement() {
    let mut vm = machine(&[14, R0, 0, 14, R1, 32767, 14, R2, 0b101, 14, R2, R2]);
    assert_eq!(vm.step(), Ok(Signal::Continue));
    assert_eq!(vm.registers()[0], 32767);
    assert_eq!(vm.step(), Ok(Signal::Continue));
    assert_eq!(vm.registers()[1], 0);
    assert_eq!(vm.step(), Ok(Signal::Continue));
    assert_eq!(vm.registers()[2], 32762);
    assert_eq!(vm.step(), Ok(Signal::Continue));
    assert_eq!(vm.registers()[2], 5);
    assert_eq!(vm.addr(), 12);
}

#[test]
fn not_twice_is_identity_on_samples() {
    for x in [0u16, 1, 2, 1234, 16384, 32766, 32767] {
        let mut vm = machine(&[14, R0, x, 14, R0, R0]);
        assert_eq!(vm.step(), Ok(Signal::Continue));
        assert_eq!(vm.registers()[0], 32767 - x);
        assert_eq!(vm.step(), Ok(Signal::Continue));
        assert_eq!(vm.registers()[0], x);
    }
}

#[test]
fn eq_and_gt_store_zero_or_one() {
    let mut vm = machine(&[4, R0, 7, 7, 4, R1, 7, 8, 5, R2, 8, 7, 5, R7, 7, 7]);
    vm.set_register(1, 999);
    vm.set_register(7, 999);
    assert_eq!(vm.step(), Ok(Signal::Continue));
    assert_eq!(vm.registers()[0], 1);
    assert_eq!(vm.step(), Ok(Signal::Continue));
    assert_eq!(vm.registers()[1], 0);
    assert_eq!(vm.step(), Ok(Signal::Continue));
    assert_eq!(vm.registers()[2], 1);
    assert_eq!(vm.step(), Ok(Signal::Continue));
    assert_eq!(vm.registers()[7], 0);
    assert_eq!(vm.addr(), 16);
}

#[test]
fn stack_round_trip() {
    let mut vm = machine(&[2, 11, 2, 22, 2, 33, 3, R0, 3, R1, 3, R2]);
    for _ in 0..3 {
        assert_eq!(vm.step(), Ok(Signal::Continue));
    }
    assert_eq!(vm.stack(), &vec![11, 22, 33]);
    for _ in 0..3 {
        assert_eq!(vm.step(), Ok(Signal::Continue));
    }
    assert_eq!(&vm.registers()[..3], &[33, 22, 11]);
    assert!(vm.stack().is_empty());
    assert_eq!(vm.addr(), 12);
}

#[test]
fn push_and_pop_directly() {
    let mut vm = machine(&[0]);
    vm.push_stack(1);
    vm.push_stack(2);
    vm.push_stack(3);
    assert_eq!(vm.pop_stack(), Some(3));
    assert_eq!(vm.pop_stack(), Some(2));
    assert_eq!(vm.pop_stack(), Some(1));
    assert_eq!(vm.pop_stack(), None);
}

#[test]
fn pop_on_empty_stack_is_underflow() {
    let mut vm = machine(&[3, R0]);
    assert_eq!(vm.step(), Err(Fault::StackUnderflow));
    assert_eq!(vm.addr(), 0);
    assert!(!vm.is_halted());
}

#[test]
fn pop_wants_a_register() {
    let mut vm = machine(&[3, 5]);
    vm.push_stack(9);
    assert_eq!(vm.step(), Err(Fault::TypeMismatch { word: 5 }));
    assert_eq!(vm.stack(), &vec![9]);
    assert_eq!(vm.addr(), 0);
}

#[test]
fn jumps() {
    // 0: jmp 3; 2: halt; 3: jt 0 2; 6: jt 1 9; 9: jf 1 2; 12: jf 0 2
    let mut vm = machine(&[6, 3, 0, 7, 0, 2, 7, 1, 9, 8, 1, 2, 8, 0, 2]);
    assert_eq!(vm.step(), Ok(Signal::Continue));
    assert_eq!(vm.addr(), 3);
    assert_eq!(vm.step(), Ok(Signal::Continue));
    assert_eq!(vm.addr(), 6);
    assert_eq!(vm.step(), Ok(Signal::Continue));
    assert_eq!(vm.addr(), 9);
    assert_eq!(vm.step(), Ok(Signal::Continue));
    assert_eq!(vm.addr(), 12);
    assert_eq!(vm.step(), Ok(Signal::Continue));
    assert_eq!(vm.addr(), 2);
    assert_eq!(vm.step(), Ok(Signal::Halt));
}

#[test]
fn call_and_return_round_trip() {
    // 0: noop; 1: call 5; 3: halt; 4: halt; 5: push 1; 7: pop r0; 9: ret
    let mut vm = machine(&[21, 17, 5, 0, 0, 2, 1, 3, R0, 18]);
    assert_eq!(vm.step(), Ok(Signal::Continue));
    assert_eq!(vm.step(), Ok(Signal::Continue));
    assert_eq!(vm.addr(), 5);
    assert_eq!(vm.stack(), &vec![3]);
    assert_eq!(vm.level(), 1);
    assert_eq!(vm.step(), Ok(Signal::Continue));
    assert_eq!(vm.step(), Ok(Signal::Continue));
    assert_eq!(vm.step(), Ok(Signal::Continue));
    assert_eq!(vm.addr(), 3);
    assert!(vm.stack().is_empty());
    assert_eq!(vm.level(), 0);
    assert_eq!(vm.step(), Ok(Signal::Halt));
}

#[test]
fn call_through_a_register() {
    let mut vm = machine(&[17, R1]);
    vm.set_register(1, 1000);
    assert_eq!(vm.step(), Ok(Signal::Continue));
    assert_eq!(vm.addr(), 1000);
    assert_eq!(vm.stack(), &vec![2]);
}

#[test]
fn ret_on_empty_stack_halts() {
    let mut vm = machine(&[18]);
    assert_eq!(vm.step(), Ok(Signal::Halt));
    assert!(vm.is_halted());
    assert_eq!(vm.level(), 0);
    assert_eq!(vm.addr(), 0);
}

#[test]
fn ret_after_push_jumps_and_keeps_level_at_zero() {
    let mut vm = machine(&[2, 7, 18]);
    assert_eq!(vm.step(), Ok(Signal::Continue));
    assert_eq!(vm.step(), Ok(Signal::Continue));
    assert_eq!(vm.addr(), 7);
    assert_eq!(vm.level(), 0);
}

#[test]
fn write_then_read_memory() {
    // wmem 100 12345; rmem r2 100
    let mut vm = machine(&[16, 100, 12345, 15, R2, 100]);
    assert_eq!(vm.step(), Ok(Signal::Continue));
    assert_eq!(vm.get_ram(100), Ok(12345));
    assert_eq!(vm.ram()[200], (12345u16 % 256) as u8);
    assert_eq!(vm.ram()[201], (12345u16 >> 8) as u8);
    assert_eq!(vm.step(), Ok(Signal::Continue));
    assert_eq!(vm.registers()[2], 12345);
    assert_eq!(vm.addr(), 6);
}

#[test]
fn write_leaves_other_words_alone() {
    let mut vm = machine(&[16, 7, 0x7abc, 0, 0, 0, 0x1111, 0, 0x2222]);
    assert_eq!(vm.step(), Ok(Signal::Continue));
    assert_eq!(vm.get_ram(6), Ok(0x1111));
    assert_eq!(vm.get_ram(7), Ok(0x7abc));
    assert_eq!(vm.get_ram(8), Ok(0x2222));
}

#[test]
fn memory_access_beyond_memory_is_out_of_bounds() {
    let mut vm = machine(&[16, R0, 1, 15, R1, R0]);
    vm.set_register(0, 32768);
    assert_eq!(vm.step(), Err(Fault::OutOfBounds { addr: 32768 }));
    assert_eq!(vm.addr(), 0);
    vm.jump(3);
    assert_eq!(vm.step(), Err(Fault::OutOfBounds { addr: 32768 }));
    assert_eq!(vm.addr(), 3);
    assert_eq!(vm.registers()[1], 0);
}

#[test]
fn running_off_the_end_is_out_of_bounds() {
    let mut vm = machine(&[6, 32767]);
    assert_eq!(vm.step(), Ok(Signal::Continue));
    assert_eq!(vm.addr(), 32767);
    // memory there is zero: halt would stop, so plant a noop
    let mut vm = machine(&[16, 32767, 21, 6, 32767]);
    assert_eq!(vm.step(), Ok(Signal::Continue));
    assert_eq!(vm.step(), Ok(Signal::Continue));
    assert_eq!(vm.step(), Ok(Signal::Continue));
    assert_eq!(vm.addr(), 32768);
    assert_eq!(vm.step(), Err(Fault::OutOfBounds { addr: 32768 }));
}

#[test]
fn operand_beyond_memory_is_out_of_bounds() {
    let mut vm = machine(&[16, 32767, 19, 6, 32767]);
    assert_eq!(vm.step(), Ok(Signal::Continue));
    assert_eq!(vm.step(), Ok(Signal::Continue));
    assert_eq!(vm.step(), Err(Fault::OutOfBounds { addr: 32768 }));
    assert_eq!(vm.addr(), 32767);
}

#[test]
fn unknown_opcode_is_a_fault() {
    let mut vm = machine(&[22]);
    assert_eq!(vm.step(), Err(Fault::UnknownOpcode { word: 22 }));
    let mut vm = machine(&[32768]);
    assert_eq!(vm.step(), Err(Fault::UnknownOpcode { word: 32768 }));
    assert_eq!(vm.addr(), 0);
    assert!(!vm.is_halted());
}

#[test]
fn invalid_operand_is_a_fault() {
    let mut vm = machine(&[2, 32776]);
    assert_eq!(vm.step(), Err(Fault::InvalidWord { word: 32776 }));
    assert!(vm.stack().is_empty());
}

#[test]
fn first_bad_operand_decides_the_fault() {
    let mut vm = machine(&[9, 3, 40000, 50000]);
    assert_eq!(vm.step(), Err(Fault::TypeMismatch { word: 3 }));
    let mut vm = machine(&[9, R0, 40000, 50000]);
    assert_eq!(vm.step(), Err(Fault::InvalidWord { word: 40000 }));
    let mut vm = machine(&[9, R0, 4, 50000]);
    assert_eq!(vm.step(), Err(Fault::InvalidWord { word: 50000 }));
}

#[test]
fn out_emits_the_low_byte() {
    let mut vm = machine(&[19, 65, 19, 321, 19, R0]);
    vm.set_register(0, 10);
    assert_eq!(vm.step(), Ok(Signal::Output(65)));
    assert_eq!(vm.step(), Ok(Signal::Output(65)));
    assert_eq!(vm.step(), Ok(Signal::Output(10)));
    assert_eq!(vm.addr(), 6);
}

#[test]
fn in_reads_the_buffer_in_order() {
    let mut vm = machine(&[20, R0, 20, R1, 20, R2]);
    vm.set_input_buffer(vec![b'h', b'i']);
    assert_eq!(vm.step(), Ok(Signal::Input(b'h')));
    assert_eq!(vm.registers()[0], 104);
    assert_eq!(vm.input_buffer(), &vec![b'i']);
    assert_eq!(vm.step(), Ok(Signal::Input(b'i')));
    assert_eq!(vm.registers()[1], 105);
    assert_eq!(vm.addr(), 4);
    assert_eq!(vm.step(), Ok(Signal::AwaitInput));
    assert_eq!(vm.addr(), 4);
    vm.push_input(b'!');
    assert_eq!(vm.step(), Ok(Signal::Input(b'!')));
    assert_eq!(vm.registers()[2], 33);
    assert_eq!(vm.addr(), 6);
}

#[test]
fn in_wants_a_register() {
    let mut vm = machine(&[20, 4]);
    vm.set_input_buffer(vec![1]);
    assert_eq!(vm.step(), Err(Fault::TypeMismatch { word: 4 }));
    assert_eq!(vm.input_buffer(), &vec![1]);
}

#[test]
fn noop_only_advances() {
    let mut vm = machine(&[21, 21]);
    assert_eq!(vm.step(), Ok(Signal::Continue));
    assert_eq!(vm.addr(), 1);
    assert_eq!(vm.registers(), [0u16; 8]);
    assert!(vm.stack().is_empty());
}

#[test]
fn debug_set_while_waiting_for_input() {
    let mut vm = machine(&[20, R1, 19, R0]);
    assert_eq!(vm.step(), Ok(Signal::AwaitInput));
    let before_pc = vm.addr();
    let before_input = vm.input_buffer().clone();
    let r = vm.process_internal_command(b"set 0 42");
    assert!(r.is_ok());
    assert_eq!(vm.registers()[0], 42);
    assert_eq!(vm.addr(), before_pc);
    assert_eq!(vm.input_buffer(), &before_input);
    assert_eq!(vm.step(), Ok(Signal::AwaitInput));
    assert_eq!(vm.addr(), 0);
    vm.push_input(b'x');
    assert_eq!(vm.step(), Ok(Signal::Input(b'x')));
    assert_eq!(vm.step(), Ok(Signal::Output(42)));
}

#[test]
fn debug_set_keeps_pending_input() {
    let mut vm = machine(&[20, R1]);
    vm.set_input_buffer(vec![1, 2, 3]);
    assert!(vm.process_internal_command(b"set 7 65535").is_ok());
    assert_eq!(vm.registers()[7], 65535);
    assert_eq!(vm.input_buffer(), &vec![1, 2, 3]);
    assert_eq!(vm.addr(), 0);
}

/// Runs until the machine halts, faults or waits, and gives the output.
fn run(vm: &mut VM, limit: usize) -> Vec<u8> {
    let mut out = Vec::new();
    for _ in 0..limit {
        match vm.step() {
            Ok(Signal::Output(b)) => out.push(b),
            Ok(Signal::Continue) | Ok(Signal::Input(_)) => {}
            _ => break,
        }
    }
    out
}

/// Echoes its input in upper case until a newline.
fn echo_program() -> Vec<u16> {
    vec![
        20, R0, // 0: in r0
        4, R1, R0, 10, // 2: eq r1 r0 '\n'
        7, R1, 18, // 6: jt r1 18
        9, R0, R0, 32736, // 9: add r0 r0 -32
        19, R0, // 13: out r0
        6, 0, // 15: jmp 0
        21, // 17
        19, 33, // 18: out '!'
        0, // 20: halt
    ]
}

#[test]
fn snapshot_round_trip_resumes_identically() {
    let mut live = machine(&echo_program());
    live.set_input_buffer(b"hello\n".to_vec());
    let first = run(&mut live, 12);
    assert_eq!(first, b"HE".to_vec());

    let snapshot = live.export();
    assert_eq!(snapshot.ram.len(), 65536);
    assert_eq!(snapshot.addr, live.addr());
    assert_eq!(snapshot.input_buffer, b"llo\n".to_vec());
    let mut resumed = VM::restore(snapshot).expect("a snapshot of a machine is restorable");

    let rest_live = run(&mut live, 1000);
    let rest_resumed = run(&mut resumed, 1000);
    assert_eq!(rest_live, b"LLO!".to_vec());
    assert_eq!(rest_resumed, rest_live);
    assert!(live.is_halted());
    assert!(resumed.is_halted());
    assert_eq!(resumed.registers(), live.registers());
    assert_eq!(resumed.ram(), live.ram());
}

#[test]
fn snapshot_holds_the_whole_state() {
    let mut vm = machine(&[17, 4, 0, 0, 2, 9, 20, R3]);
    vm.set_input_buffer(vec![5, 6]);
    vm.set_register(3, 1);
    assert_eq!(vm.step(), Ok(Signal::Continue));
    assert_eq!(vm.step(), Ok(Signal::Continue));
    let s = vm.export();
    assert_eq!(s.registers, [0, 0, 0, 1, 0, 0, 0, 0]);
    assert_eq!(s.addr, 6);
    assert_eq!(s.stack, vec![2, 9]);
    assert!(s.running);
    assert_eq!(s.level, 1);
    assert_eq!(s.input_buffer, vec![5, 6]);
    assert_eq!(&s.ram[..4], &[17, 0, 4, 0]);
}

const R3: u16 = 32771;

#[test]
fn restore_rejects_an_oversized_image() {
    let snapshot = Snapshot {
        ram: vec![0; 65537],
        registers: [0; 8],
        addr: 0,
        stack: vec![],
        running: true,
        level: 0,
        input_buffer: vec![],
    };
    assert!(VM::restore(snapshot).is_none());
}

#[test]
fn restore_extends_a_short_image() {
    let snapshot = Snapshot {
        ram: vec![21, 0, 19, 0, 66, 0],
        registers: [1, 2, 3, 4, 5, 6, 7, 8],
        addr: 1,
        stack: vec![4],
        running: true,
        level: 3,
        input_buffer: vec![9],
    };
    let mut vm = VM::restore(snapshot).expect("a short image is restorable");
    assert_eq!(vm.ram().len(), 65536);
    assert_eq!(vm.registers(), [1, 2, 3, 4, 5, 6, 7, 8]);
    assert_eq!(vm.level(), 3);
    assert_eq!(vm.step(), Ok(Signal::Output(66)));
    assert_eq!(vm.addr(), 3);
}

#[test]
fn restored_halted_machine_stays_halted() {
    let mut vm = machine(&[0]);
    assert_eq!(vm.step(), Ok(Signal::Halt));
    let mut again = VM::restore(vm.export()).expect("restorable");
    assert!(again.is_halted());
    assert_eq!(again.step(), Ok(Signal::Halt));
}

#[test]
fn disassemble_lists_raw_words() {
    let vm = machine(&[1, R0, 5, 19, R0, 9, R1, R2, 7, 22, 0]);
    let ins = vm.disassemble(0).expect("in memory");
    assert_eq!(ins.word, 1);
    assert_eq!(ins.opcode, Some(Opcode::Store));
    assert_eq!(ins.operands, vec![R0, 5]);
    let ins = vm.disassemble(3).expect("in memory");
    assert_eq!(ins.opcode, Some(Opcode::Output));
    assert_eq!(ins.operands, vec![R0]);
    let ins = vm.disassemble(5).expect("in memory");
    assert_eq!(ins.opcode, Some(Opcode::Add));
    assert_eq!(ins.operands, vec![R1, R2, 7]);
    let ins = vm.disassemble(9).expect("in memory");
    assert_eq!(ins.word, 22);
    assert_eq!(ins.opcode, None);
    assert!(ins.operands.is_empty());
    let ins = vm.disassemble(10).expect("in memory");
    assert_eq!(ins.opcode, Some(Opcode::Halt));
    assert!(ins.operands.is_empty());
}

#[test]
fn disassemble_at_the_end_of_memory() {
    let mut vm = machine(&[16, 32766, 9, 16, 32767, 21]);
    assert_eq!(vm.step(), Ok(Signal::Continue));
    assert_eq!(vm.step(), Ok(Signal::Continue));
    assert!(matches!(vm.disassemble(32766), Err(Fault::OutOfBounds { addr: 32768 })));
    let ins = vm.disassemble(32767).expect("a noop fits");
    assert_eq!(ins.opcode, Some(Opcode::NoOp));
    assert!(matches!(vm.disassemble(32768), Err(Fault::OutOfBounds { addr: 32768 })));
}

#[test]
fn opcode_table() {
    let counts = [0u16, 2, 1, 1, 3, 3, 1, 2, 2, 3, 3, 3, 3, 3, 2, 2, 2, 1, 0, 1, 1, 0];
    for (word, count) in counts.iter().enumerate() {
        let op = Opcode::decode(word as u16).expect("an opcode");
        assert_eq!(op.operands(), *count);
    }
    assert_eq!(Opcode::decode(22), None);
    assert_eq!(Opcode::decode(65535), None);
}

#[test]
fn set_ram_stores_low_byte_first() {
    let mut vm = machine(&[0]);
    assert_eq!(vm.set_ram(3, 0x1234), Ok(()));
    assert_eq!(vm.get_ram(3), Ok(0x1234));
    assert_eq!(&vm.ram()[6..8], &[0x34, 0x12]);
    assert_eq!(vm.set_ram(32767, 65535), Ok(()));
    assert_eq!(vm.get_ram(32767), Ok(65535));
    assert_eq!(vm.set_ram(32768, 1), Err(Fault::OutOfBounds { addr: 32768 }));
    assert_eq!(vm.ram().len(), 65536);
}

#[test]
fn read_input_byte_takes_from_the_front() {
    let mut vm = machine(&[0]);
    assert_eq!(vm.read_input_byte(), None);
    vm.set_input_buffer(vec![7, 8]);
    vm.push_input(9);
    assert_eq!(vm.read_input_byte(), Some(7));
    assert_eq!(vm.read_input_byte(), Some(8));
    assert_eq!(vm.read_input_byte(), Some(9));
    assert_eq!(vm.read_input_byte(), None);
}

#[test]
fn level_counts_calls() {
    // 0: call 2; 2: call 4; 4: ret; then back at 4 again: ret
    let mut vm = machine(&[17, 2, 17, 4, 18]);
    assert_eq!(vm.step(), Ok(Signal::Continue));
    assert_eq!(vm.level(), 1);
    assert_eq!(vm.step(), Ok(Signal::Continue));
    assert_eq!(vm.level(), 2);
    assert_eq!(vm.stack(), &vec![2, 4]);
    assert_eq!(vm.step(), Ok(Signal::Continue));
    assert_eq!(vm.addr(), 4);
    assert_eq!(vm.level(), 1);
    assert_eq!(vm.step(), Ok(Signal::Continue));
    assert_eq!(vm.addr(), 2);
    assert_eq!(vm.level(), 0);
}
