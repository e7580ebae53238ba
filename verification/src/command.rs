//! The debug commands that can be typed at a machine that waits for input:
//! a line of words separated by white space.

use vstd::prelude::*;

verus! {

/// A debug command.
#[derive(Debug, PartialEq, Eq)]
pub enum Command {
    /// `dump`: show the state of the machine.
    Dump,
    /// `set <register> <value>`: overwrite a register.
    SetRegister { register: u16, value: u16 },
    /// `save <path>`: write the memory image to a file.
    Save { path: Vec<u8> },
    /// `export <path>`: write a snapshot of the machine to a file.
    Export { path: Vec<u8> },
}

/// A debug command as a mathematical value.
pub enum Request {
    Dump,
    SetRegister { register: u16, value: u16 },
    Save { path: Seq<u8> },
    Export { path: Seq<u8> },
}

impl View for Command {
    type V = Request;

    open spec fn view(&self) -> Request {
        match *self {
            Command::Dump => Request::Dump,
            Command::SetRegister { register, value } => Request::SetRegister { register, value },
            Command::Save { path } => Request::Save { path: path@ },
            Command::Export { path } => Request::Export { path: path@ },
        }
    }
}

/// Why a line is no debug command.
#[derive(Clone, Copy, Debug, PartialEq, Eq, Structural)]
pub enum CommandError {
    /// The line holds no word.
    Empty,
    /// The first word names no command.
    Unknown,
    /// The command needs more words than the line holds.
    MissingArgument,
    /// A word that should be a number is no decimal number below 65536.
    BadNumber,
    /// `set` names a register above 7.
    NoSuchRegister,
}

/// White space: the space and the control characters from tab to carriage
/// return.
pub open spec fn is_space(b: u8) -> bool {
    b == 32 || (9 <= b && b <= 13)
}

/// The words of a line: its longest runs of bytes that are no white space,
/// in order. The words of a line extended by one byte are those of the line
/// itself, with the byte added to the last word, or as a new word, unless
/// the byte is white space.
pub open spec fn tokens(line: Seq<u8>) -> Seq<Seq<u8>>
    decreases line.len(),
{
    if line.len() == 0 {
        Seq::empty()
    } else {
        let before = tokens(line.drop_last());
        let b = line.last();
        if is_space(b) {
            before
        } else if line.len() >= 2 && !is_space(line[line.len() - 2]) && before.len() > 0 {
            before.drop_last().push(before.last().push(b))
        } else {
            before.push(seq![b])
        }
    }
}

/// A decimal digit.
pub open spec fn is_digit(b: u8) -> bool {
    48 <= b && b <= 57
}

/// The value of a decimal digit; 0 for any other byte.
pub open spec fn digit_value(b: u8) -> nat {
    if is_digit(b) {
        (b - 48) as nat
    } else {
        0
    }
}

/// The number that a sequence of decimal digits writes, the most
/// significant digit first.
pub open spec fn decimal(digits: Seq<u8>) -> nat
    decreases digits.len(),
{
    if digits.len() == 0 {
        0
    } else {
        10 * decimal(digits.drop_last()) + digit_value(digits.last())
    }
}

/// The digits of a word that writes a number: the word itself, without a
/// leading `+`.
pub open spec fn digits_of(word: Seq<u8>) -> Seq<u8> {
    if word.len() > 0 && word[0] == 43 {
        word.drop_first()
    } else {
        word
    }
}

/// The 16-bit number that a word writes: an optional `+` and at least one
/// decimal digit, with a value below 65536. Leading zeros are allowed.
pub open spec fn number(word: Seq<u8>) -> Option<u16> {
    let digits = digits_of(word);
    if digits.len() > 0 && (forall|i: int| 0 <= i < digits.len() ==> is_digit(#[trigger] digits[i]))
        && decimal(digits) <= 65535 {
        Some(decimal(digits) as u16)
    } else {
        None
    }
}

/// The bytes of `dump`.
pub open spec fn keyword_dump() -> Seq<u8> {
    seq!['d' as u8, 'u' as u8, 'm' as u8, 'p' as u8]
}

/// The bytes of `set`.
pub open spec fn keyword_set() -> Seq<u8> {
    seq!['s' as u8, 'e' as u8, 't' as u8]
}

/// The bytes of `save`.
pub open spec fn keyword_save() -> Seq<u8> {
    seq!['s' as u8, 'a' as u8, 'v' as u8, 'e' as u8]
}

/// The bytes of `export`.
pub open spec fn keyword_export() -> Seq<u8> {
    seq!['e' as u8, 'x' as u8, 'p' as u8, 'o' as u8, 'r' as u8, 't' as u8]
}

/// The command that a `set` line with the given words asks for.
pub open spec fn parsed_set(words: Seq<Seq<u8>>) -> Result<Request, CommandError> {
    if words.len() < 2 {
        Err(CommandError::MissingArgument)
    } else {
        match number(words[1]) {
            None => Err(CommandError::BadNumber),
            Some(register) => if words.len() < 3 {
                Err(CommandError::MissingArgument)
            } else {
                match number(words[2]) {
                    None => Err(CommandError::BadNumber),
                    Some(value) => if register >= 8 {
                        Err(CommandError::NoSuchRegister)
                    } else {
                        Ok(Request::SetRegister { register, value })
                    },
                }
            },
        }
    }
}

/// The command that a line asks for. The first word names the command, the
/// words behind it are its arguments, and words that the command does not
/// need are ignored.
pub open spec fn parsed(line: Seq<u8>) -> Result<Request, CommandError> {
    let words = tokens(line);
    if words.len() == 0 {
        Err(CommandError::Empty)
    } else if words[0] == keyword_dump() {
        Ok(Request::Dump)
    } else if words[0] == keyword_set() {
        parsed_set(words)
    } else if words[0] == keyword_save() {
        if words.len() < 2 {
            Err(CommandError::MissingArgument)
        } else {
            Ok(Request::Save { path: words[1] })
        }
    } else if words[0] == keyword_export() {
        if words.len() < 2 {
            Err(CommandError::MissingArgument)
        } else {
            Ok(Request::Export { path: words[1] })
        }
    } else {
        Err(CommandError::Unknown)
    }
}

/// The byte sequences that a vector of words holds.
pub open spec fn views(words: Seq<Vec<u8>>) -> Seq<Seq<u8>> {
    Seq::new(words.len(), |i: int| words[i]@)
}

/// Every word of a line is non-empty and free of white space, and a line
/// that ends in a byte that is no white space has a last word.
pub proof fn law_tokens_are_words(line: Seq<u8>)
    ensures
        forall|k: int|
            0 <= k < tokens(line).len() ==> (#[trigger] tokens(line)[k]).len() > 0 && forall|j: int|
                0 <= j < tokens(line)[k].len() ==> !is_space(#[trigger] tokens(line)[k][j]),
        line.len() > 0 && !is_space(line.last()) ==> tokens(line).len() > 0,
    decreases line.len(),
{
    if line.len() > 0 {
        law_tokens_are_words(line.drop_last());
        let before = tokens(line.drop_last());
        let b = line.last();
        let after = tokens(line);
        assert forall|k: int| 0 <= k < after.len() implies (#[trigger] after[k]).len() > 0
            && forall|j: int| 0 <= j < after[k].len() ==> !is_space(#[trigger] after[k][j]) by {
            if is_space(b) {
            } else if line.len() >= 2 && !is_space(line[line.len() - 2]) && before.len() > 0 {
                if k < after.len() - 1 {
                    assert(after[k] == before[k]);
                } else {
                    assert(after[k] == before.last().push(b));
                }
            } else {
                if k < after.len() - 1 {
                    assert(after[k] == before[k]);
                } else {
                    assert(after[k] == seq![b]);
                }
            }
        }
    }
}

/// Whether a byte is white space.
pub fn byte_is_space(b: u8) -> (r: bool)
    ensures
        r == is_space(b),
{
    b == 32 || (9 <= b && b <= 13)
}

/// Splits a line into its words.
pub fn tokenize(line: &[u8]) -> (words: Vec<Vec<u8>>)
    ensures
        views(words@) == tokens(line@),
{
    let mut done: Vec<Vec<u8>> = Vec::new();
    let mut current: Vec<u8> = Vec::new();
    let mut i: usize = 0;
    assert(line@.take(0) =~= Seq::<u8>::empty());
    assert(views(done@) =~= Seq::<Seq<u8>>::empty());
    while i < line.len()
        invariant
            i <= line@.len(),
            current@.len() > 0 ==> i > 0 && !is_space(line@[i - 1]) && tokens(line@.take(i as int))
                == views(done@).push(current@),
            current@.len() == 0 ==> (i == 0 || is_space(line@[i - 1])) && tokens(
                line@.take(i as int),
            ) == views(done@),
        decreases line@.len() - i,
    {
        let b = line[i];
        proof {
            assert(line@.take(i + 1).drop_last() =~= line@.take(i as int));
        }
        if byte_is_space(b) {
            if current.len() > 0 {
                let ghost before = views(done@).push(current@);
                done.push(current);
                current = Vec::new();
                assert(views(done@) =~= before);
            }
        } else {
            proof {
                let before = tokens(line@.take(i as int));
                if current@.len() > 0 {
                    assert(before.drop_last() =~= views(done@));
                }
            }
            let ghost fresh = current@.len() == 0;
            current.push(b);
            proof {
                if fresh {
                    assert(current@ =~= seq![b]);
                }
            }
        }
        i += 1;
    }
    assert(line@.take(i as int) =~= line@);
    if current.len() > 0 {
        let ghost before = views(done@).push(current@);
        done.push(current);
        assert(views(done@) =~= before);
    }
    done
}

/// A prefix of a digit sequence writes a number that is no larger than the
/// number that the whole sequence writes.
pub proof fn lemma_decimal_grows(digits: Seq<u8>, k: int)
    requires
        0 <= k <= digits.len(),
    ensures
        decimal(digits.take(k)) <= decimal(digits),
    decreases digits.len(),
{
    if k == digits.len() {
        assert(digits.take(k) =~= digits);
    } else {
        lemma_decimal_grows(digits.drop_last(), k);
        assert(digits.drop_last().take(k) =~= digits.take(k));
    }
}

/// Reads a word as a 16-bit decimal number.
pub fn parse_number(word: &Vec<u8>) -> (r: Option<u16>)
    ensures
        r == number(word@),
{
    let len: usize = word.len();
    let start: usize = if len > 0 && word[0] == 43 {
        1
    } else {
        0
    };
    let ghost digits = digits_of(word@);
    assert(digits =~= word@.subrange(start as int, len as int));
    if start == len {
        return None;
    }
    let mut value: u32 = 0;
    let mut i: usize = start;
    while i < len
        invariant
            start <= i <= len,
            len == word@.len(),
            digits == word@.subrange(start as int, len as int),
            digits == digits_of(word@),
            value == decimal(digits.take(i - start)),
            value <= 65535,
            forall|j: int| 0 <= j < i - start ==> is_digit(#[trigger] digits[j]),
        decreases len - i,
    {
        let b = word[i];
        if b < 48 || b > 57 {
            assert(!is_digit(digits[i - start]));
            return None;
        }
        let next: u32 = value * 10 + (b - 48) as u32;
        proof {
            assert(digits.take(i + 1 - start).drop_last() =~= digits.take(i - start));
            assert(digits.take(i + 1 - start).last() == b);
            assert(next == decimal(digits.take(i + 1 - start)));
        }
        if next > 65535 {
            proof {
                lemma_decimal_grows(digits, i + 1 - start);
            }
            return None;
        }
        value = next;
        i += 1;
    }
    assert(digits.take(len - start) =~= digits);
    Some(value as u16)
}

/// Whether a word is the given sequence of bytes.
pub fn word_is(word: &Vec<u8>, bytes: &[u8]) -> (r: bool)
    ensures
        r == (word@ == bytes@),
{
    if word.len() != bytes.len() {
        return false;
    }
    let mut i: usize = 0;
    while i < word.len()
        invariant
            i <= word@.len(),
            word@.len() == bytes@.len(),
            forall|j: int| 0 <= j < i ==> word@[j] == bytes@[j],
        decreases word@.len() - i,
    {
        if word[i] != bytes[i] {
            return false;
        }
        i += 1;
    }
    assert(word@ =~= bytes@);
    true
}

/// Reads the arguments of a `set` command from the words of its line.
fn parse_set(words: &Vec<Vec<u8>>) -> (r: Result<Command, CommandError>)
    ensures
        match parsed_set(views(words@)) {
            Ok(request) => r matches Ok(command) && command@ == request,
            Err(error) => r matches Err(e) && e == error,
        },
{
    if words.len() < 2 {
        return Err(CommandError::MissingArgument);
    }
    let register = match parse_number(&words[1]) {
        None => { return Err(CommandError::BadNumber); },
        Some(n) => n,
    };
    if words.len() < 3 {
        return Err(CommandError::MissingArgument);
    }
    let value = match parse_number(&words[2]) {
        None => { return Err(CommandError::BadNumber); },
        Some(n) => n,
    };
    if register >= 8 {
        return Err(CommandError::NoSuchRegister);
    }
    Ok(Command::SetRegister { register, value })
}

/// Reads a line as a debug command.
pub fn parse_command(line: &[u8]) -> (r: Result<Command, CommandError>)
    ensures
        match parsed(line@) {
            Ok(request) => r matches Ok(command) && command@ == request,
            Err(error) => r matches Err(e) && e == error,
        },
{
    let words = tokenize(line);
    if words.len() == 0 {
        return Err(CommandError::Empty);
    }
    let dump: [u8; 4] = ['d' as u8, 'u' as u8, 'm' as u8, 'p' as u8];
    let set: [u8; 3] = ['s' as u8, 'e' as u8, 't' as u8];
    let save: [u8; 4] = ['s' as u8, 'a' as u8, 'v' as u8, 'e' as u8];
    let export: [u8; 6] = ['e' as u8, 'x' as u8, 'p' as u8, 'o' as u8, 'r' as u8, 't' as u8];
    proof {
        assert(dump@ =~= keyword_dump());
        assert(set@ =~= keyword_set());
        assert(save@ =~= keyword_save());
        assert(export@ =~= keyword_export());
    }
    if word_is(&words[0], dump.as_slice()) {
        Ok(Command::Dump)
    } else if word_is(&words[0], set.as_slice()) {
        parse_set(&words)
    } else if word_is(&words[0], save.as_slice()) {
        if words.len() < 2 {
            Err(CommandError::MissingArgument)
        } else {
            let path = words[1].clone();
            assert(path@ =~= words[1]@);
            Ok(Command::Save { path })
        }
    } else if word_is(&words[0], export.as_slice()) {
        if words.len() < 2 {
            Err(CommandError::MissingArgument)
        } else {
            let path = words[1].clone();
            assert(path@ =~= words[1]@);
            Ok(Command::Export { path })
        }
    } else {
        Err(CommandError::Unknown)
    }
}

} // verus!
