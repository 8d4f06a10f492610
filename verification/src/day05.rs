//! A diagnostic program, run with the number of the system to test as its
//! only input.

use crate::intcode_computer::{
    Computer,
    ConstantInput,
    Machine,
    CYCLE_LIMIT,
};
use crate::parsing::{fields, integers, parse_custom_separated};
use vstd::prelude::*;

verus! {

/// The last output of a program after its run with `input` as the answer
/// to every poll, however the run has ended. There is none where it has
/// ended in a fault or the program has output nothing.
pub open spec fn last_output_after_run(program: Seq<isize>, input: isize) -> Option<isize> {
    let (machine, result) = Machine::load(program, Some(ConstantInput { value: Some(input) })).run(
        false,
        CYCLE_LIMIT as nat,
    );
    if result is Ok && machine.outputs.len() > 0 {
        Some(machine.outputs.last())
    } else {
        None
    }
}

/// The diagnostic code of the program in `text`, a list of integers that
/// commas separate. There is none where the text is no such list.
pub open spec fn diagnostic_code(text: Seq<char>, system: isize) -> Option<isize> {
    match integers(fields(text, seq![','])) {
        Some(program) => last_output_after_run(program, system),
        None => None,
    }
}

/// A source that yields 1 at every poll.
pub fn yield_one() -> (source: ConstantInput)
    ensures
        source.value == Some(1isize),
{
    ConstantInput::new(1)
}

/// Runs the program in `input` with `source` and gives its last output.
fn run_diagnostic(input: &str, source: ConstantInput) -> (code: Option<isize>)
    requires
        source.value is Some,
    ensures
        code == diagnostic_code(input@, source.value->0),
{
    proof {
        reveal_strlit(",");
        assert(","@ =~= seq![',']);
    }
    let program = match parse_custom_separated(input, ",") {
        Some(program) => program,
        None => { return None; },
    };
    let mut computer = Computer::with_input(program, source);
    match computer.run_until_halt_or_paused(false) {
        Ok(_) => computer.last_output(),
        Err(_) => None,
    }
}

/// The diagnostic code for system 1.
pub fn star_one(input: &str) -> (code: Option<isize>)
    ensures
        code == diagnostic_code(input@, 1),
{
    run_diagnostic(input, yield_one())
}

/// The diagnostic code for system 5.
pub fn star_two(input: &str) -> (code: Option<isize>)
    ensures
        code == diagnostic_code(input@, 5),
{
    run_diagnostic(input, ConstantInput::new(5))
}

} // verus!
