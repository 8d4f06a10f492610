//! A program that outputs itself, and the proof that it does so whatever
//! its input is.
//!
//! The program walks through its own cells with the relative base: each
//! round moves the base on by one, outputs the cell before the base, and
//! counts the rounds in cell 100; after the sixteenth it halts.

use crate::intcode_computer::{
    decode,
    lemma_run_resumes,
    fetch,
    ComparisonOp,
    Computer,
    ExecutionState,
    Fault,
    FaultKind,
    InputSource,
    Instruction,
    JumpCondition,
    Machine,
    Op,
    Parameter,
    CYCLE_LIMIT,
};
use vstd::prelude::*;
use vstd::slice::slice_to_vec;

verus! {

/// The program.
pub open spec fn quine() -> Seq<isize> {
    seq![
        109isize,
        1,
        204,
        -1isize,
        1001,
        100,
        1,
        100,
        1008,
        100,
        16,
        101,
        1006,
        101,
        0,
        99,
    ]
}

/// The program as a list of cells.
pub fn quine_program() -> (program: Vec<isize>)
    ensures
        program@ == quine(),
{
    let mut program: Vec<isize> = Vec::new();
    program.push(109);
    program.push(1);
    program.push(204);
    program.push(-1);
    program.push(1001);
    program.push(100);
    program.push(1);
    program.push(100);
    program.push(1008);
    program.push(100);
    program.push(16);
    program.push(101);
    program.push(1006);
    program.push(101);
    program.push(0);
    program.push(99);
    assert(program@ =~= quine());
    program
}

/// Whether a machine holds the program and stands at its start.
spec fn holds_program<I>(machine: Machine<I>) -> bool {
    &&& !machine.halted
    &&& machine.memory[0] == 109
    &&& machine.memory[1] == 1
    &&& machine.memory[2] == 204
    &&& machine.memory[3] == -1
    &&& machine.memory[4] == 1001
    &&& machine.memory[5] == 100
    &&& machine.memory[6] == 1
    &&& machine.memory[7] == 100
    &&& machine.memory[8] == 1008
    &&& machine.memory[9] == 100
    &&& machine.memory[10] == 16
    &&& machine.memory[11] == 101
    &&& machine.memory[12] == 1006
    &&& machine.memory[13] == 101
    &&& machine.memory[14] == 0
    &&& machine.memory[15] == 99
}

/// Whether a machine stands at the start of the program after `rounds` rounds.
spec fn after_rounds<I>(machine: Machine<I>, rounds: int) -> bool {
    &&& holds_program(machine)
    &&& machine.ip == 0
    &&& machine.relative_base == rounds
    &&& machine.memory[100] == rounds
    &&& machine.outputs == quine().take(rounds)
}

proof fn lemma_instructions<I: InputSource>(machine: Machine<I>)
    requires
        holds_program(machine),
    ensures
        decode(fetch(machine.memory, 0)) == Ok::<Instruction, FaultKind>(
            Instruction::RelativeBaseAdjust(Parameter::Immediate(1)),
        ),
        decode(fetch(machine.memory, 2)) == Ok::<Instruction, FaultKind>(
            Instruction::Output(Parameter::Relative(-1isize)),
        ),
        decode(fetch(machine.memory, 4)) == Ok::<Instruction, FaultKind>(
            Instruction::Op(
                Op::Add,
                Parameter::Position(100),
                Parameter::Immediate(1),
                Parameter::Position(100),
            ),
        ),
        decode(fetch(machine.memory, 8)) == Ok::<Instruction, FaultKind>(
            Instruction::Compare(
                ComparisonOp::Equal,
                Parameter::Position(100),
                Parameter::Immediate(16),
                Parameter::Position(101),
            ),
        ),
        decode(fetch(machine.memory, 12)) == Ok::<Instruction, FaultKind>(
            Instruction::ConditionalJump(
                JumpCondition::IfFalse,
                Parameter::Position(101),
                Parameter::Immediate(0),
            ),
        ),
        decode(fetch(machine.memory, 15)) == Ok::<Instruction, FaultKind>(Instruction::Halt),
{
}

/// The machine after the five cycles of one round, and whether the round
/// was the last.
proof fn lemma_round<I: InputSource>(machine: Machine<I>, rounds: int) -> (next: Machine<I>)
    requires
        after_rounds(machine, rounds),
        0 <= rounds < 16,
    ensures
        machine.run(false, 5) == (next, Ok::<ExecutionState, Fault>(ExecutionState::Continue)),
        next.input == machine.input,
        holds_program(next),
        next.relative_base == rounds + 1,
        next.memory[100] == rounds + 1,
        next.outputs == quine().take(rounds + 1),
        next.ip == if rounds < 15 {
            0usize
        } else {
            15usize
        },
{
    lemma_instructions(machine);
    let (first, first_result) = machine.step(false);
    assert(first_result == Ok::<ExecutionState, Fault>(ExecutionState::Continue));
    assert(first.ip == 2 && first.relative_base == rounds + 1);
    lemma_instructions(first);
    let (second, second_result) = first.step(false);
    assert(second_result == Ok::<ExecutionState, Fault>(ExecutionState::Continue));
    assert(second.ip == 4);
    assert(second.outputs == machine.outputs.push(quine()[rounds]));
    assert(machine.outputs.push(quine()[rounds]) =~= quine().take(rounds + 1));
    lemma_instructions(second);
    let (third, third_result) = second.step(false);
    assert(third_result == Ok::<ExecutionState, Fault>(ExecutionState::Continue));
    assert(third.ip == 8 && third.memory[100] == rounds + 1);
    assert(holds_program(third));
    lemma_instructions(third);
    let (fourth, fourth_result) = third.step(false);
    assert(fourth_result == Ok::<ExecutionState, Fault>(ExecutionState::Continue));
    assert(fourth.ip == 12);
    assert(fourth.memory[101] == if rounds + 1 == 16 {
        1isize
    } else {
        0isize
    });
    assert(holds_program(fourth));
    lemma_instructions(fourth);
    let (fifth, fifth_result) = fourth.step(false);
    assert(fifth_result == Ok::<ExecutionState, Fault>(ExecutionState::Continue));
    assert(machine.run(false, 5) == first.run(false, 4));
    assert(first.run(false, 4) == second.run(false, 3));
    assert(second.run(false, 3) == third.run(false, 2));
    assert(third.run(false, 2) == fourth.run(false, 1));
    assert(fourth.run(false, 1) == fifth.run(false, 0));
    fifth
}

/// From the start of any round the program runs to its halt and has then
/// output all its cells.
proof fn lemma_rounds<I: InputSource>(machine: Machine<I>, rounds: int, cycles: nat)
    requires
        after_rounds(machine, rounds),
        0 <= rounds < 16,
        cycles >= 5 * (16 - rounds) + 1,
    ensures
        machine.run(false, cycles).1 == Ok::<ExecutionState, Fault>(ExecutionState::Halt),
        machine.run(false, cycles).0.outputs == quine(),
        machine.run(false, cycles).0.halted,
        machine.run(false, cycles).0.input == machine.input,
    decreases 16 - rounds,
{
    let next = lemma_round(machine, rounds);
    let rest = (cycles - 5) as nat;
    lemma_run_resumes(machine, false, 5, rest);
    assert(machine.run(false, cycles) == next.run(false, rest));
    if rounds < 15 {
        lemma_rounds(next, rounds + 1, rest);
    } else {
        lemma_instructions(next);
        let (last, result) = next.step(false);
        assert(result == Ok::<ExecutionState, Fault>(ExecutionState::Halt));
        assert(next.run(false, rest) == (last, result));
        assert(quine().take(16) =~= quine());
    }
}

/// The program outputs itself: loaded into a machine with any input
/// source, or with none, it halts within 81 cycles, and its outputs are
/// then its own cells. The input source is never polled.
pub proof fn lemma_quine_outputs_itself<I: InputSource>(input: Option<I>, cycles: nat)
    requires
        cycles >= 81,
    ensures
        Machine::load(quine(), input).run(false, cycles).1 == Ok::<ExecutionState, Fault>(
            ExecutionState::Halt,
        ),
        Machine::load(quine(), input).run(false, cycles).0.outputs == quine(),
        Machine::load(quine(), input).run(false, cycles).0.input == input,
{
    let machine = Machine::load(quine(), input);
    assert(quine().take(0) =~= Seq::<isize>::empty());
    lemma_rounds(machine, 0, cycles);
}

/// Runs the program with the given input source and hands back what it
/// has output: its own cells.
pub fn run_quine<I: InputSource>(input: I) -> (outputs: Vec<isize>)
    ensures
        outputs@ == quine(),
{
    let mut computer = Computer::with_input(quine_program(), input);
    proof {
        lemma_quine_outputs_itself(Some(input), CYCLE_LIMIT as nat);
    }
    let _ = computer.run_until_halt_or_paused(false);
    slice_to_vec(computer.all_outputs())
}

} // verus!
