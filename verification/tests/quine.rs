use advent_of_rust_2019::intcode_computer::{
    input_with_initial_value, Computer, ConstantInput, ExecutionState, QueueInput,
};
use advent_of_rust_2019::quine::{quine_program, run_quine};

#[test]
fn the_program_outputs_itself_whatever_its_input() {
    let program = quine_program();
    assert_eq!(
        program,
        vec![109, 1, 204, -1, 1001, 100, 1, 100, 1008, 100, 16, 101, 1006, 101, 0, 99]
    );
    assert_eq!(run_quine(ConstantInput::empty()), program);
    assert_eq!(run_quine(ConstantInput::new(0)), program);
    assert_eq!(run_quine(ConstantInput::new(-77)), program);
    assert_eq!(run_quine(QueueInput::new(vec![1, 2, 3])), program);
    assert_eq!(
        run_quine(input_with_initial_value(5, ConstantInput::new(6))),
        program
    );
}

#[test]
fn the_program_halts_within_eighty_one_cycles() {
    let mut computer: Computer<ConstantInput> = Computer::new(quine_program());
    assert_eq!(computer.run_cycles(false, 80), Ok(ExecutionState::Continue));
    assert!(!computer.is_halted());
    assert_eq!(computer.all_outputs(), &quine_program()[..]);
    assert_eq!(computer.run_cycles(false, 1), Ok(ExecutionState::Halt));
    assert!(computer.is_halted());

    let mut computer: Computer<ConstantInput> = Computer::new(quine_program());
    assert_eq!(computer.run_cycles(false, 81), Ok(ExecutionState::Halt));
    assert_eq!(computer.all_outputs(), &quine_program()[..]);
}

#[test]
fn the_program_does_not_touch_its_input() {
    let mut computer = Computer::with_input(quine_program(), QueueInput::new(vec![8]));
    assert_eq!(
        computer.run_until_halt_or_paused(false),
        Ok(ExecutionState::Halt)
    );
    let mut queue = computer.take_input().unwrap();
    assert_eq!(
        advent_of_rust_2019::intcode_computer::InputSource::next_input(&mut queue),
        Some(8)
    );
}
