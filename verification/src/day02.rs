//! A program that computes a number from the two cells behind its first
//! opcode, and the search for the pair of cells that gives a wanted number.

use crate::intcode_computer::{
    program_image,
    Computer,
    ConstantInput,
    ExecutionState,
    Fault,
    Machine,
    CYCLE_LIMIT,
};
use crate::pairs::{cartesian_product, inclusive_range, is_product};
use crate::parsing::{fields, integers, parse_custom_separated};
use vstd::prelude::*;

verus! {

/// What the search of `star_two` looks for in cell 0.
pub const WANTED_OUTPUT: isize = 19690720;

/// What cell 0 holds after the position-mode program in `numbers` has run
/// from `pc` to its halt, with additions and multiplications only. There is
/// none where it meets another opcode, a result outside 64 bits, or a cell
/// outside the list.
pub open spec fn spec_run_from(numbers: Seq<i64>, pc: int) -> Option<i64>
    decreases numbers.len() - pc,
{
    if pc < 0 || pc >= numbers.len() {
        None
    } else if numbers[pc] == 99 {
        Some(numbers[0])
    } else if pc + 3 >= numbers.len() {
        None
    } else {
        let x = numbers[pc + 1] as int;
        let y = numbers[pc + 2] as int;
        let z = numbers[pc + 3] as int;
        if 0 <= x < numbers.len() && 0 <= y < numbers.len() && 0 <= z < numbers.len() && (
        numbers[pc] == 1 || numbers[pc] == 2) {
            let result = if numbers[pc] == 1 {
                numbers[x] + numbers[y]
            } else {
                numbers[x] * numbers[y]
            };
            if i64::MIN <= result <= i64::MAX {
                spec_run_from(numbers.update(z, result as i64), pc + 4)
            } else {
                None
            }
        } else {
            None
        }
    }
}

/// Runs a position-mode program of additions and multiplications from
/// its first cell to its halt and gives what cell 0 then holds.
pub fn run_until_halt(memory: Vec<i64>) -> (output: Option<i64>)
    ensures
        output == spec_run_from(memory@, 0),
{
    let mut numbers: Vec<i64> = memory;
    let mut pc: usize = 0;
    let length = numbers.len();
    while pc < length && numbers[pc] != 99
        invariant
            length == numbers@.len(),
            spec_run_from(memory@, 0) == spec_run_from(numbers@, pc as int),
        decreases length - pc,
    {
        if length - pc <= 3 {
            return None;
        }
        let x = numbers[pc + 1];
        let y = numbers[pc + 2];
        let z = numbers[pc + 3];
        if x < 0 || y < 0 || z < 0 || x as u64 >= length as u64 || y as u64 >= length as u64
            || z as u64 >= length as u64 {
            return None;
        }
        let opcode = numbers[pc];
        let result = if opcode == 1 {
            numbers[x as usize].checked_add(numbers[y as usize])
        } else if opcode == 2 {
            numbers[x as usize].checked_mul(numbers[y as usize])
        } else {
            None
        };
        match result {
            Some(value) => {
                numbers.set(z as usize, value);
            },
            None => {
                return None;
            },
        }
        pc = pc + 4;
    }
    if pc < length {
        Some(numbers[0])
    } else {
        None
    }
}

/// The input of every run: the constant 1.
pub open spec fn run_input() -> Option<ConstantInput> {
    Some(ConstantInput { value: Some(1) })
}

/// What cell 0 holds after the run of a machine that starts with this
/// memory, however the run has ended. There is none where it has ended in
/// a fault.
pub open spec fn cell_zero_after_run(memory: Map<int, isize>) -> Option<isize> {
    let start = Machine {
        memory,
        ip: 0,
        relative_base: 0,
        outputs: Seq::empty(),
        halted: false,
        input: run_input(),
    };
    let (machine, result) = start.run(false, CYCLE_LIMIT as nat);
    match result {
        Ok(_) => Some(machine.memory[0]),
        Err(_) => None,
    }
}

/// What cell 0 holds after the run of the program in `text`, a list of
/// integers that commas separate.
pub open spec fn spec_star_one(text: Seq<char>) -> Option<isize> {
    match integers(fields(text, seq![','])) {
        Some(program) => cell_zero_after_run(program_image(program)),
        None => None,
    }
}

/// What cell 0 holds after the run of the program in `input`.
pub fn star_one(input: &str) -> (output: Option<isize>)
    ensures
        output == spec_star_one(input@),
{
    proof {
        reveal_strlit(",");
        assert(","@ =~= seq![',']);
    }
    let program = match parse_custom_separated(input, ",") {
        Some(program) => program,
        None => { return None; },
    };
    let mut computer = Computer::with_input(program, ConstantInput::new(1));
    match computer.run_until_halt_or_paused(false) {
        Ok(_) => Some(computer.memory().read(0)),
        Err(_) => None,
    }
}

/// The program with `noun` in cell 1 and `verb` in cell 2.
pub open spec fn patched(program: Seq<isize>, noun: isize, verb: isize) -> Map<int, isize> {
    program_image(program).insert(1, noun).insert(2, verb)
}

/// What cell 0 holds after the run of candidate number `candidate`, where
/// candidate `100 * noun + verb` stands for the pair of `noun` and `verb`,
/// both from 0 to 99. Every candidate runs on a copy of the program of its
/// own, with its noun in cell 1 and its verb in cell 2.
pub open spec fn candidate_outcome(program: Seq<isize>, candidate: int) -> Option<isize> {
    cell_zero_after_run(patched(program, (candidate / 100) as isize, (candidate % 100) as isize))
}

/// The answer of the search from candidate number `candidate` on: the
/// number of the first candidate whose run leaves the wanted output in
/// cell 0. A run that leaves anything else there, however it has ended,
/// sends the search on to the next candidate. There is none where a run
/// ends in a fault before that, or where no candidate is left.
pub open spec fn search_from(program: Seq<isize>, candidate: int) -> Option<isize>
    decreases 10000 - candidate,
{
    if candidate < 0 || candidate >= 10000 {
        None
    } else {
        match candidate_outcome(program, candidate) {
            None => None,
            Some(output) => if output == WANTED_OUTPUT {
                Some(candidate as isize)
            } else {
                search_from(program, candidate + 1)
            },
        }
    }
}

/// Whether the run of every candidate from `from` up to `candidate` ends
/// without a fault and leaves something other than the wanted output in
/// cell 0.
pub open spec fn all_miss(program: Seq<isize>, from: int, candidate: int) -> bool {
    forall|earlier: int|
        from <= earlier < candidate ==> (#[trigger] candidate_outcome(program, earlier)
            matches Some(output) && output != WANTED_OUTPUT)
}

/// The search finds the pair: where the run of one candidate leaves the
/// wanted output in cell 0, and the run of every candidate before it ends
/// without a fault and leaves something else there, the answer is that
/// candidate, a hundred times its noun plus its verb.
pub proof fn lemma_search_finds_the_pair(program: Seq<isize>, from: int, noun: int, verb: int)
    requires
        0 <= noun <= 99,
        0 <= verb <= 99,
        0 <= from <= 100 * noun + verb,
        candidate_outcome(program, 100 * noun + verb) == Some(WANTED_OUTPUT),
        all_miss(program, from, 100 * noun + verb),
    ensures
        search_from(program, from) == Some((100 * noun + verb) as isize),
    decreases 100 * noun + verb - from,
{
    if from < 100 * noun + verb {
        assert(candidate_outcome(program, from) matches Some(output) && output != WANTED_OUTPUT);
        lemma_search_finds_the_pair(program, from + 1, noun, verb);
    }
}

/// The answer of the search is the first candidate, nouns first, whose
/// run leaves the wanted output in cell 0: its noun and its verb lie
/// between 0 and 99, and no run before it has left the wanted output there
/// or has ended in a fault.
pub proof fn lemma_search_answer_is_first(program: Seq<isize>, from: int, answer: isize)
    requires
        0 <= from,
        search_from(program, from) == Some(answer),
    ensures
        from <= answer < 10000,
        0 <= answer / 100 <= 99,
        0 <= answer % 100 <= 99,
        candidate_outcome(program, answer as int) == Some(WANTED_OUTPUT),
        all_miss(program, from, answer as int),
    decreases 10000 - from,
{
    if candidate_outcome(program, from) != Some(WANTED_OUTPUT) {
        lemma_search_answer_is_first(program, from + 1, answer);
    }
}

/// The run of a candidate: the machine at its end, and how it has ended.
pub open spec fn candidate_run(program: Seq<isize>, candidate: int) -> (
    Machine<ConstantInput>,
    Result<ExecutionState, Fault>,
) {
    let start = Machine {
        memory: patched(program, (candidate / 100) as isize, (candidate % 100) as isize),
        ip: 0,
        relative_base: 0,
        outputs: Seq::empty(),
        halted: false,
        input: run_input(),
    };
    start.run(false, CYCLE_LIMIT as nat)
}

/// Whether the run of a candidate halts.
pub open spec fn halts(program: Seq<isize>, candidate: int) -> bool {
    candidate_run(program, candidate).1 == Ok::<ExecutionState, Fault>(ExecutionState::Halt)
}

/// Whether the run of a candidate halts with `value` in cell 0.
pub open spec fn halts_with(program: Seq<isize>, candidate: int, value: isize) -> bool {
    halts(program, candidate) && candidate_run(program, candidate).0.memory[0] == value
}

/// Where exactly one pair of a noun and a verb halts with the wanted
/// output in cell 0, and the run of every pair before it halts too, the
/// answer of the search is that pair: the answer divided by a hundred is
/// its noun, and the rest is its verb.
pub proof fn lemma_exactly_one_pair(program: Seq<isize>, noun: int, verb: int)
    requires
        0 <= noun <= 99,
        0 <= verb <= 99,
        halts_with(program, 100 * noun + verb, WANTED_OUTPUT),
        forall|other: int|
            0 <= other < 10000 && other != 100 * noun + verb ==> !#[trigger] halts_with(
                program,
                other,
                WANTED_OUTPUT,
            ),
        forall|earlier: int| 0 <= earlier < 100 * noun + verb ==> #[trigger] halts(program, earlier),
    ensures
        search_from(program, 0) == Some((100 * noun + verb) as isize),
        search_from(program, 0)->0 / 100 == noun,
        search_from(program, 0)->0 % 100 == verb,
{
    assert forall|earlier: int| 0 <= earlier < 100 * noun + verb implies (
    #[trigger] candidate_outcome(program, earlier) matches Some(output) && output
        != WANTED_OUTPUT) by {
        assert(halts(program, earlier));
        assert(!halts_with(program, earlier, WANTED_OUTPUT));
    }
    lemma_search_finds_the_pair(program, 0, noun, verb);
}

/// The answer of the search over the program in `text`.
pub open spec fn spec_star_two(text: Seq<char>) -> Option<isize> {
    match integers(fields(text, seq![','])) {
        Some(program) => search_from(program, 0),
        None => None,
    }
}

/// Searches the pairs of a noun and a verb, both from 0 to 99, nouns
/// first, for the first whose run leaves the wanted output in cell 0, and
/// gives a hundred times its noun plus its verb.
pub fn star_two(input: &str) -> (answer: Option<isize>)
    ensures
        answer == spec_star_two(input@),
{
    proof {
        reveal_strlit(",");
        assert(","@ =~= seq![',']);
    }
    let program = match parse_custom_separated(input, ",") {
        Some(program) => program,
        None => { return None; },
    };
    let nouns = inclusive_range(0, 99);
    let verbs = inclusive_range(0, 99);
    let candidates = cartesian_product(&nouns, &verbs);
    let mut index: usize = 0;
    while index < candidates.len()
        invariant
            index <= candidates@.len() == 10000,
            nouns@.len() == 100,
            verbs@.len() == 100,
            forall|i: int| 0 <= i < 100 ==> nouns@[i] == i && verbs@[i] == i,
            is_product(candidates@, nouns@, verbs@),
            spec_star_two(input@) == search_from(program@, index as int),
        decreases candidates@.len() - index,
    {
        let (noun, verb) = candidates[index];
        let mut modified_computer = Computer::with_input(program.clone(), ConstantInput::new(1));
        modified_computer.memory().write(1, noun);
        modified_computer.memory().write(2, verb);
        match modified_computer.run_until_halt_or_paused(false) {
            Ok(_) => {
                if modified_computer.memory().read(0) == WANTED_OUTPUT {
                    return Some(100 * noun + verb);
                }
            },
            Err(_) => {
                return None;
            },
        }
        index = index + 1;
    }
    None
}

} // verus!
