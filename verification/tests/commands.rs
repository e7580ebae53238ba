use synacor::command::{parse_command, parse_number, tokenize, Command, CommandError};
use synacor::vm::VM;

#[test]
fn tokenize_splits_on_white_space() {
    assert_eq!(tokenize(b""), Vec::<Vec<u8>>::new());
    assert_eq!(tokenize(b"   \t\n"), Vec::<Vec<u8>>::new());
    assert_eq!(tokenize(b"dump"), vec![b"dump".to_vec()]);
    assert_eq!(
        tokenize(b"  set \t0   42\r\n"),
        vec![b"set".to_vec(), b"0".to_vec(), b"42".to_vec()]
    );
    assert_eq!(tokenize(b"a\x0bb\x0cc"), vec![b"a".to_vec(), b"b".to_vec(), b"c".to_vec()]);
    assert_eq!(tokenize(b"x "), vec![b"x".to_vec()]);
}

#[test]
fn numbers_are_decimal_and_fit_16_bits() {
    assert_eq!(parse_number(&b"0".to_vec()), Some(0));
    assert_eq!(parse_number(&b"42".to_vec()), Some(42));
    assert_eq!(parse_number(&b"+7".to_vec()), Some(7));
    assert_eq!(parse_number(&b"007".to_vec()), Some(7));
    assert_eq!(parse_number(&b"65535".to_vec()), Some(65535));
    assert_eq!(parse_number(&b"65536".to_vec()), None);
    assert_eq!(parse_number(&b"99999999999999999999".to_vec()), None);
    assert_eq!(parse_number(&b"".to_vec()), None);
    assert_eq!(parse_number(&b"+".to_vec()), None);
    assert_eq!(parse_number(&b"-1".to_vec()), None);
    assert_eq!(parse_number(&b"12a".to_vec()), None);
    assert_eq!(parse_number(&b"0x10".to_vec()), None);
    assert_eq!(parse_number(&b"++1".to_vec()), None);
}

#[test]
fn commands_parse() {
    assert_eq!(parse_command(b"dump"), Ok(Command::Dump));
    assert_eq!(parse_command(b" dump now "), Ok(Command::Dump));
    assert_eq!(
        parse_command(b"set 0 42"),
        Ok(Command::SetRegister { register: 0, value: 42 })
    );
    assert_eq!(
        parse_command(b"set 7 65535 extra"),
        Ok(Command::SetRegister { register: 7, value: 65535 })
    );
    assert_eq!(parse_command(b"save out.bin"), Ok(Command::Save { path: b"out.bin".to_vec() }));
    assert_eq!(
        parse_command(b"export  state.json\n"),
        Ok(Command::Export { path: b"state.json".to_vec() })
    );
}

#[test]
fn bad_commands_are_rejected() {
    assert_eq!(parse_command(b""), Err(CommandError::Empty));
    assert_eq!(parse_command(b"  \n"), Err(CommandError::Empty));
    assert_eq!(parse_command(b"help"), Err(CommandError::Unknown));
    assert_eq!(parse_command(b"Dump"), Err(CommandError::Unknown));
    assert_eq!(parse_command(b"dumps"), Err(CommandError::Unknown));
    assert_eq!(parse_command(b"set"), Err(CommandError::MissingArgument));
    assert_eq!(parse_command(b"set 1"), Err(CommandError::MissingArgument));
    assert_eq!(parse_command(b"set x"), Err(CommandError::BadNumber));
    assert_eq!(parse_command(b"set x 1"), Err(CommandError::BadNumber));
    assert_eq!(parse_command(b"set 1 y"), Err(CommandError::BadNumber));
    assert_eq!(parse_command(b"set 1 65536"), Err(CommandError::BadNumber));
    assert_eq!(parse_command(b"set 8 1"), Err(CommandError::NoSuchRegister));
    assert_eq!(parse_command(b"set 8 y"), Err(CommandError::BadNumber));
    assert_eq!(parse_command(b"save"), Err(CommandError::MissingArgument));
    assert_eq!(parse_command(b"export "), Err(CommandError::MissingArgument));
}

#[test]
fn only_set_changes_the_machine() {
    let mut vm = VM::new(vec![21, 0]);
    vm.set_input_buffer(vec![1]);
    let before = vm.export();
    for line in [&b"dump"[..], b"save a", b"export b", b"nonsense", b"set 9 9", b""] {
        let _ = vm.process_internal_command(line);
        let after = vm.export();
        assert_eq!(after.ram, before.ram);
        assert_eq!(after.registers, before.registers);
        assert_eq!(after.addr, before.addr);
        assert_eq!(after.stack, before.stack);
        assert_eq!(after.running, before.running);
        assert_eq!(after.level, before.level);
        assert_eq!(after.input_buffer, before.input_buffer);
    }
    assert_eq!(
        vm.process_internal_command(b"set 3 1234"),
        Ok(Command::SetRegister { register: 3, value: 1234 })
    );
    assert_eq!(vm.registers(), [0, 0, 0, 1234, 0, 0, 0, 0]);
    assert_eq!(vm.addr(), 0);
}
