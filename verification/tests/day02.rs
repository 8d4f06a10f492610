use advent_of_rust_2019::day02::{run_until_halt, star_one, star_two};
use advent_of_rust_2019::intcode_computer::{Computer, ConstantInput, ExecutionState};
use advent_of_rust_2019::parse_custom_separated;

#[test]
fn day02_test_star_one() {
    assert_eq!(star_one("1,9,10,3,2,3,11,0,99,30,40,50"), Some(3500));
}

#[test]
fn run_until_halt_on_small_programs() {
    assert_eq!(
        run_until_halt(vec![1, 9, 10, 3, 2, 3, 11, 0, 99, 30, 40, 50]),
        Some(3500)
    );
    assert_eq!(run_until_halt(vec![1, 0, 0, 0, 99]), Some(2));
    assert_eq!(run_until_halt(vec![2, 4, 4, 0, 99, 0]), Some(9801));
    assert_eq!(run_until_halt(vec![1, 1, 1, 4, 99, 5, 6, 0, 99]), Some(30));
    assert_eq!(run_until_halt(vec![99]), Some(99));
}

#[test]
fn run_until_halt_rejects_broken_programs() {
    assert_eq!(run_until_halt(vec![]), None);
    assert_eq!(run_until_halt(vec![3, 0, 0, 0, 99]), None);
    assert_eq!(run_until_halt(vec![1, 0, 0]), None);
    assert_eq!(run_until_halt(vec![1, 0, 0, 9, 99]), None);
    assert_eq!(run_until_halt(vec![1, -1, 0, 0, 99]), None);
    assert_eq!(run_until_halt(vec![1, 0, 0, 0]), None);
    assert_eq!(run_until_halt(vec![2, 5, 5, 0, 99, i64::MAX]), None);
}

#[test]
fn star_one_fails_where_the_program_does() {
    assert_eq!(star_one("1,9,10,x"), None);
    assert_eq!(star_one("1,0,0,0"), None);
    assert_eq!(star_one("3,0,98"), None);
}

// Cell 0 becomes a hundred times the noun plus the verb, so that every wanted
// output has exactly one pair.
const NOUN_VERB_PROGRAM: &str = "1101,0,0,20,1002,1,100,21,1,21,2,0,99";

#[test]
fn noun_and_verb_search_finds_the_one_pair() {
    assert_eq!(star_two(NOUN_VERB_PROGRAM), None);
    // (noun * 100 + verb) * 10000 + 7670720 = 19690720 for noun 12 and verb 2 only.
    let program = "1101,0,0,30,1002,1,100,31,1,31,2,32,1002,32,10000,32,1001,32,7670720,0,99";
    assert_eq!(star_two(program), Some(1202));
}

#[test]
fn noun_and_verb_search_takes_the_first_pair_in_order() {
    // Cell 0 is the constant wanted output whatever the pair is.
    assert_eq!(star_two("1101,0,0,20,1101,19690720,0,0,99"), Some(0));
    // Cell 0 is the wanted output as soon as the verb is 3.
    let program = "1101,0,0,20,1008,2,3,21,1002,21,19690720,0,99";
    assert_eq!(star_two(program), Some(3));
}

#[test]
fn noun_and_verb_search_fails_with_a_failing_run() {
    assert_eq!(star_two("1,0,0,0"), None);
    assert_eq!(star_two("1,0,0,x"), None);
}

#[test]
fn exactly_one_pair_gives_the_wanted_output() {
    let text = "1101,0,0,30,1002,1,100,31,1,31,2,32,1002,32,10000,32,1001,32,7670720,0,99";
    let program = parse_custom_separated(text, ",").unwrap();
    let mut found: Vec<(isize, isize)> = Vec::new();
    for noun in 0..=99 {
        for verb in 0..=99 {
            let mut computer: Computer<ConstantInput> = Computer::new(program.clone());
            computer.memory().write(1, noun);
            computer.memory().write(2, verb);
            assert_eq!(
                computer.run_until_halt_or_paused(false),
                Ok(ExecutionState::Halt)
            );
            if computer.memory().read(0) == 19690720 {
                found.push((noun, verb));
            }
        }
    }
    assert_eq!(found, vec![(12, 2)]);
    assert_eq!(star_two(text), Some(1202));
}

#[test]
fn the_search_goes_on_after_a_run_that_leaves_something_else() {
    // With verb 0 the program reads its input and halts with its first
    // opcode in cell 0; with the verbs 1 to 4 it halts with 0 there; with
    // verb 5 it halts with the wanted output.
    let program = "1105,0,0,1005,2,10,3,50,99,99,1008,2,5,0,1002,0,19690720,0,99";
    assert_eq!(star_two(program), Some(5));
    assert_eq!(star_one(program), Some(1105));
}

#[test]
fn every_candidate_runs_on_its_own_copy() {
    // Cell 41 becomes 19690713 if the verb is 7 and 0 otherwise; cell 0
    // becomes cell 41 plus cell 50; then cell 50 grows by one. Cell 50 is 0
    // at the start of every run, so no candidate reaches the wanted output
    // with the sevens that earlier runs would have left behind.
    let program = "1,2,40,40,1008,2,7,41,1002,41,19690713,41,1,41,50,0,1001,50,1,50,99";
    assert_eq!(star_two(program), None);
    // With the wanted output itself in place of 19690713 the verb 7 gives it.
    let program = "1,2,40,40,1008,2,7,41,1002,41,19690720,41,1,41,50,0,1001,50,1,50,99";
    assert_eq!(star_two(program), Some(7));
}
