//! What holds of every run of the machine, proved from the model.

use vstd::prelude::*;
use crate::alu::{complement, law_complement_involution, product, sum};
use crate::command::Request;
use crate::fault::Fault;
use crate::machine::{Machine, Signal};

verus! {

/// `add` stores `(x + y) mod 32768` in its register and moves on by four
/// words, whatever the two values are.
pub proof fn law_add(m: Machine, a: u16, x: u16, y: u16)
    requires
        m.well_formed(),
        m.running,
        m.read(m.pc) == Ok::<u16, Fault>(9),
        m.register_at((m.pc + 1) as u16) == Ok::<u16, Fault>(a),
        m.value_at((m.pc + 2) as u16) == Ok::<u16, Fault>(x),
        m.value_at((m.pc + 3) as u16) == Ok::<u16, Fault>(y),
    ensures
        m.next() == Ok::<(Machine, Signal), Fault>(
            (m.with_register(a, sum(x, y)).advanced(4), Signal::Continue),
        ),
        m.next()->Ok_0.0.registers[a as int] == (x + y) % 32768,
        m.next()->Ok_0.0.pc == m.pc + 4,
{
}

/// `mult` stores `(x * y) mod 32768` in its register, the product taken
/// over the integers, so also where it does not fit in 16 bits.
pub proof fn law_mult(m: Machine, a: u16, x: u16, y: u16)
    requires
        m.well_formed(),
        m.running,
        m.read(m.pc) == Ok::<u16, Fault>(10),
        m.register_at((m.pc + 1) as u16) == Ok::<u16, Fault>(a),
        m.value_at((m.pc + 2) as u16) == Ok::<u16, Fault>(x),
        m.value_at((m.pc + 3) as u16) == Ok::<u16, Fault>(y),
    ensures
        m.next() == Ok::<(Machine, Signal), Fault>(
            (m.with_register(a, product(x, y)).advanced(4), Signal::Continue),
        ),
        m.next()->Ok_0.0.registers[a as int] == (x * y) % 32768,
        m.next()->Ok_0.0.pc == m.pc + 4,
{
}

/// `not` applied twice gives back every 15-bit value: where `not` has put
/// the complement of `x` in a register, `not` on that value yields `x`.
pub proof fn law_not_involution(m: Machine, a: u16, x: u16)
    requires
        m.well_formed(),
        m.running,
        x <= 32767,
        m.read(m.pc) == Ok::<u16, Fault>(14),
        m.register_at((m.pc + 1) as u16) == Ok::<u16, Fault>(a),
        m.value_at((m.pc + 2) as u16) == Ok::<u16, Fault>(complement(x)),
    ensures
        m.next() matches Ok((after, signal)) && after.registers[a as int] == x,
{
    law_complement_involution(x);
}

/// `eq` and `gt` store exactly 0 or 1: 1 where the comparison holds, 0
/// where it does not.
pub proof fn law_comparisons_store_bits(m: Machine, a: u16, x: u16, y: u16)
    requires
        m.well_formed(),
        m.running,
        m.read(m.pc) == Ok::<u16, Fault>(4) || m.read(m.pc) == Ok::<u16, Fault>(5),
        m.register_at((m.pc + 1) as u16) == Ok::<u16, Fault>(a),
        m.value_at((m.pc + 2) as u16) == Ok::<u16, Fault>(x),
        m.value_at((m.pc + 3) as u16) == Ok::<u16, Fault>(y),
    ensures
        m.next() matches Ok((after, signal)) && {
            &&& after.registers[a as int] == 0 || after.registers[a as int] == 1
            &&& m.memory[m.pc as int] == 4 ==> (after.registers[a as int] == 1 <==> x == y)
            &&& m.memory[m.pc as int] == 5 ==> (after.registers[a as int] == 1 <==> x > y)
        },
{
}

/// Three values pushed come back in reverse order, and the stack is then
/// what it was.
pub proof fn law_stack_round_trip(m: Machine, v1: u16, v2: u16, v3: u16)
    ensures
        ({
            let full = m.pushed(v1).pushed(v2).pushed(v3);
            &&& full.stack.last() == v3
            &&& full.popped().stack.last() == v2
            &&& full.popped().popped().stack.last() == v1
            &&& full.popped().popped().popped() == m
        }),
{
    let full = m.pushed(v1).pushed(v2).pushed(v3);
    assert(full.popped().stack =~= m.pushed(v1).pushed(v2).stack);
    assert(full.popped().popped().stack =~= m.pushed(v1).stack);
    assert(full.popped().popped().popped().stack =~= m.stack);
}

/// `push` puts its value on top of the stack, and `pop` on the stack that
/// a `push` has left stores that value in its register and leaves the stack
/// as it was before the `push`.
pub proof fn law_push_pop(m: Machine, v: u16, later: Machine, a: u16)
    requires
        m.well_formed(),
        m.running,
        m.read(m.pc) == Ok::<u16, Fault>(2),
        m.value_at((m.pc + 1) as u16) == Ok::<u16, Fault>(v),
        later.well_formed(),
        later.running,
        later.read(later.pc) == Ok::<u16, Fault>(3),
        later.register_at((later.pc + 1) as u16) == Ok::<u16, Fault>(a),
        m.next() matches Ok((pushed, signal)) && later.stack == pushed.stack,
    ensures
        m.next() == Ok::<(Machine, Signal), Fault>((m.pushed(v).advanced(2), Signal::Continue)),
        later.next() matches Ok((after, signal)) && {
            &&& signal == Signal::Continue
            &&& after.registers[a as int] == v
            &&& after.stack == m.stack
            &&& after.pc == later.pc + 2
        },
{
    assert(m.pushed(v).stack.drop_last() =~= m.stack);
}

/// A `call` at address `p` jumps to its target and leaves `p + 2` on top of
/// the stack; a `ret` that later finds the stack as the call left it moves
/// the program counter to `p + 2` and leaves the stack as it was before the
/// call.
pub proof fn law_call_return(m: Machine, target: u16, later: Machine)
    requires
        m.well_formed(),
        m.running,
        m.read(m.pc) == Ok::<u16, Fault>(17),
        m.value_at((m.pc + 1) as u16) == Ok::<u16, Fault>(target),
        later.well_formed(),
        later.running,
        later.read(later.pc) == Ok::<u16, Fault>(18),
        m.next() matches Ok((called, signal)) && later.stack == called.stack,
    ensures
        m.next() matches Ok((called, signal)) && {
            &&& signal == Signal::Continue
            &&& called.pc == target
            &&& called.stack == m.stack.push((m.pc + 2) as u16)
        },
        later.next() matches Ok((back, signal)) && {
            &&& signal == Signal::Continue
            &&& back.pc == m.pc + 2
            &&& back.stack == m.stack
            &&& back.running
        },
{
    let called = m.next()->Ok_0.0;
    assert(called.stack.drop_last() =~= m.stack);
}

/// What `wmem` has written at an address, `rmem` reads back from it: in
/// any later state with the memory that the write left, `rmem` from that
/// address stores the written value in its register.
pub proof fn law_write_read(m: Machine, addr: u16, value: u16, later: Machine, c: u16)
    requires
        m.well_formed(),
        m.running,
        addr < 32768,
        m.read(m.pc) == Ok::<u16, Fault>(16),
        m.value_at((m.pc + 1) as u16) == Ok::<u16, Fault>(addr),
        m.value_at((m.pc + 2) as u16) == Ok::<u16, Fault>(value),
        later.well_formed(),
        later.running,
        m.next() matches Ok((written, signal)) && later.memory == written.memory,
        later.read(later.pc) == Ok::<u16, Fault>(15),
        later.register_at((later.pc + 1) as u16) == Ok::<u16, Fault>(c),
        later.value_at((later.pc + 2) as u16) == Ok::<u16, Fault>(addr),
    ensures
        later.next() matches Ok((after, signal)) && after.registers[c as int] == value,
{
}

/// A fault changes nothing, and a halted machine neither changes nor
/// faults.
pub proof fn law_halted_stays(m: Machine)
    requires
        !m.running,
    ensures
        m.next() == Ok::<(Machine, Signal), Fault>((m, Signal::Halt)),
{
}

/// `ret` on an empty stack halts the machine and is no fault.
pub proof fn law_return_on_empty_stack_halts(m: Machine)
    requires
        m.well_formed(),
        m.running,
        m.read(m.pc) == Ok::<u16, Fault>(18),
        m.stack.len() == 0,
    ensures
        m.next() == Ok::<(Machine, Signal), Fault>((m.stopped(), Signal::Halt)),
{
}

/// A step keeps the shape of the state: 32768 words and eight registers.
pub proof fn law_step_keeps_shape(m: Machine)
    requires
        m.well_formed(),
    ensures
        m.next() matches Ok((after, signal)) ==> after.well_formed(),
{
}

/// A debug command moves neither the program counter nor the pending
/// input, and changes nothing but the register that `set` names.
pub proof fn law_commands_keep_control(m: Machine, request: Request)
    ensures
        m.commanded(request).pc == m.pc,
        m.commanded(request).input == m.input,
        m.commanded(request).memory == m.memory,
        m.commanded(request).stack == m.stack,
        m.commanded(request).running == m.running,
        m.commanded(request).depth == m.depth,
        request matches Request::SetRegister { register, value } ==> m.commanded(request).registers
            == m.registers.update(register as int, value),
        !(request is SetRegister) ==> m.commanded(request) == m,
{
}

/// While `in` waits for input nothing changes, and after a debug command
/// given in that state the same `in` still waits.
pub proof fn law_waiting_for_input(m: Machine, a: u16, request: Request)
    requires
        m.well_formed(),
        m.running,
        m.read(m.pc) == Ok::<u16, Fault>(20),
        m.register_at((m.pc + 1) as u16) == Ok::<u16, Fault>(a),
        m.input.len() == 0,
    ensures
        m.next() == Ok::<(Machine, Signal), Fault>((m, Signal::AwaitInput)),
        m.commanded(request).next() == Ok::<(Machine, Signal), Fault>(
            (m.commanded(request), Signal::AwaitInput),
        ),
{
}

} // verus!
