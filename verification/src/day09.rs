//! A program that uses relative addressing and large numbers, run in test
//! mode and in sensor mode.

use crate::day05::diagnostic_code;
use crate::intcode_computer::{Computer, ConstantInput};
use crate::parsing::parse_custom_separated;
use vstd::prelude::*;

verus! {

/// Runs the program in `input` with `mode` as the answer to every poll
/// and gives its last output.
fn run_in_mode(input: &str, mode: isize) -> (output: Option<isize>)
    ensures
        output == diagnostic_code(input@, mode),
{
    proof {
        reveal_strlit(",");
        assert(","@ =~= seq![',']);
    }
    let program = match parse_custom_separated(input, ",") {
        Some(program) => program,
        None => { return None; },
    };
    let mut computer = Computer::with_input(program, ConstantInput::new(mode));
    match computer.run_until_halt_or_paused(false) {
        Ok(_) => computer.last_output(),
        Err(_) => None,
    }
}

/// The last output of the program in test mode, which is input 1.
pub fn star_one(input: &str) -> (output: Option<isize>)
    ensures
        output == diagnostic_code(input@, 1),
{
    run_in_mode(input, 1)
}

/// The last output of the program in sensor mode, which is input 2.
pub fn star_two(input: &str) -> (output: Option<isize>)
    ensures
        output == diagnostic_code(input@, 2),
{
    run_in_mode(input, 2)
}

} // verus!
