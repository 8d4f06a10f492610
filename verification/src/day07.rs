//! Amplifiers in a row: each runs the same program, takes its phase
//! setting and then the signal of the amplifier before it, and hands its
//! own output on. With feedback the last amplifier's output goes back to
//! the first until all have halted.

use crate::intcode_computer::{
    Computer,
    ConstantInput,
    InitialValueInput,
    Machine,
    CYCLE_LIMIT,
};
use crate::pairs::{cartesian_product, inclusive_range, lemma_product_members};
use crate::parsing::{fields, integers, parse_custom_separated};
use vstd::prelude::*;

verus! {

/// The input of an amplifier: its phase setting, then for the first
/// amplifier the start signal 0, then whatever the amplifier before it has
/// output last.
pub type AmplifierInput = InitialValueInput<InitialValueInput<ConstantInput>>;

/// The largest number of rounds that the amplifiers are given.
pub const ROUND_LIMIT: u64 = 0xffff_ffff_ffff_ffff;

/// The amplifiers and what each has output last.
pub struct Pipeline {
    pub machines: Seq<Machine<AmplifierInput>>,
    pub last_outputs: Seq<Option<isize>>,
}

/// The input of amplifier `idx` before it has been polled: the first
/// amplifier gets the start signal 0 once, but only with feedback; without
/// feedback it gets 0 at every poll.
pub open spec fn initial_input(phase: isize, idx: int, feedback: bool) -> AmplifierInput {
    InitialValueInput {
        initial_value: phase,
        has_yielded_initial_value: false,
        dynamic_value: InitialValueInput {
            initial_value: 0,
            has_yielded_initial_value: !(idx == 0 && feedback),
            dynamic_value: ConstantInput {
                value: if idx == 0 && !feedback {
                    Some(0isize)
                } else {
                    None
                },
            },
        },
    }
}

/// The amplifiers before any has run.
pub open spec fn initial_pipeline(program: Seq<isize>, phase_settings: Seq<isize>, feedback: bool)
    -> Pipeline {
    Pipeline {
        machines: Seq::new(
            phase_settings.len(),
            |idx: int|
                Machine::load(program, Some(initial_input(phase_settings[idx], idx, feedback))),
        ),
        last_outputs: Seq::new(phase_settings.len(), |idx: int| None::<isize>),
    }
}

/// The signal that amplifier `idx` is given: the last output of the
/// amplifier before it; for the first, that of the last amplifier with
/// feedback, and 0 without.
pub open spec fn upstream(last_outputs: Seq<Option<isize>>, idx: int, feedback: bool) -> Option<
    isize,
> {
    if idx == 0 {
        if feedback {
            last_outputs.last()
        } else {
            Some(0)
        }
    } else {
        last_outputs[idx - 1]
    }
}

/// The amplifier with `signal` as what it is given after its first values.
pub open spec fn with_signal(machine: Machine<AmplifierInput>, signal: Option<isize>) -> Machine<
    AmplifierInput,
> {
    match machine.input {
        Some(source) => Machine {
            input: Some(
                InitialValueInput {
                    dynamic_value: InitialValueInput {
                        dynamic_value: ConstantInput { value: signal },
                        ..source.dynamic_value
                    },
                    ..source
                },
            ),
            ..machine
        },
        None => machine,
    }
}

/// The last of the outputs, if there is one.
pub open spec fn last_of(outputs: Seq<isize>) -> Option<isize> {
    if outputs.len() == 0 {
        None
    } else {
        Some(outputs.last())
    }
}

/// The pipeline after the turn of amplifier `idx`: unless it has halted,
/// it runs with the signal that it is given until it halts or pauses, and
/// its last output is noted. There is none where the run ends in a fault.
#[verifier::opaque]
pub open spec fn turn(pipeline: Pipeline, idx: int, feedback: bool) -> Option<Pipeline> {
    if pipeline.machines[idx].halted {
        Some(pipeline)
    } else {
        let (machine, result) = with_signal(
            pipeline.machines[idx],
            upstream(pipeline.last_outputs, idx, feedback),
        ).run(true, CYCLE_LIMIT as nat);
        if result is Ok {
            Some(
                Pipeline {
                    machines: pipeline.machines.update(idx, machine),
                    last_outputs: pipeline.last_outputs.update(idx, last_of(machine.outputs)),
                },
            )
        } else {
            None
        }
    }
}

/// The pipeline after the first `upto` amplifiers have had their turn, in order.
pub open spec fn turns(pipeline: Pipeline, feedback: bool, upto: int) -> Option<Pipeline>
    decreases upto,
{
    if upto <= 0 {
        Some(pipeline)
    } else {
        match turns(pipeline, feedback, upto - 1) {
            Some(before) => turn(before, upto - 1, feedback),
            None => None,
        }
    }
}

/// Whether every amplifier has halted.
pub open spec fn all_halted(pipeline: Pipeline) -> bool {
    forall|idx: int| 0 <= idx < pipeline.machines.len() ==> (#[trigger] pipeline.machines[idx]).halted
}

/// The pipeline once all amplifiers have halted, after at least one round
/// of turns and at most `rounds`. There is none where a run fails or the
/// rounds do not suffice.
pub open spec fn run_rounds(pipeline: Pipeline, feedback: bool, rounds: nat) -> Option<Pipeline>
    decreases rounds,
{
    if rounds == 0 {
        None
    } else {
        match turns(pipeline, feedback, pipeline.machines.len() as int) {
            Some(after) => if all_halted(after) {
                Some(after)
            } else {
                run_rounds(after, feedback, (rounds - 1) as nat)
            },
            None => None,
        }
    }
}

/// The signal that the last amplifier sends to the thrusters: its last
/// output, or 0 where it has none. There is none without amplifiers, and
/// none where a run fails or the amplifiers never all halt.
pub open spec fn spec_thruster_signal(
    program: Seq<isize>,
    phase_settings: Seq<isize>,
    feedback: bool,
) -> Option<isize> {
    if phase_settings.len() == 0 {
        None
    } else {
        match run_rounds(
            initial_pipeline(program, phase_settings, feedback),
            feedback,
            ROUND_LIMIT as nat,
        ) {
            Some(pipeline) => match pipeline.last_outputs.last() {
                Some(signal) => Some(signal),
                None => Some(0),
            },
            None => None,
        }
    }
}

/// The machines that a list of computers stands for.
pub open spec fn machines_of(computers: Seq<Computer<AmplifierInput>>) -> Seq<
    Machine<AmplifierInput>,
> {
    computers.map_values(|computer: Computer<AmplifierInput>| computer@)
}

/// Hands amplifier `idx` the signal that it is given and lets it run.
fn take_turn(
    computers: &mut Vec<Computer<AmplifierInput>>,
    last_outputs: &mut Vec<Option<isize>>,
    idx: usize,
    feedback: bool,
) -> (done: bool)
    requires
        idx < old(computers)@.len(),
        old(computers)@.len() == old(last_outputs)@.len(),
    ensures
        final(computers)@.len() == old(computers)@.len(),
        final(last_outputs)@.len() == old(last_outputs)@.len(),
        match turn(
            Pipeline { machines: machines_of(old(computers)@), last_outputs: old(last_outputs)@ },
            idx as int,
            feedback,
        ) {
            Some(pipeline) => done && pipeline.machines == machines_of(final(computers)@)
                && pipeline.last_outputs == final(last_outputs)@,
            None => !done,
        },
{
    reveal(turn);
    if computers[idx].is_halted() {
        return true;
    }
    let signal = if idx == 0 {
        if feedback {
            last_outputs[last_outputs.len() - 1]
        } else {
            Some(0)
        }
    } else {
        last_outputs[idx - 1]
    };
    match computers[idx].take_input() {
        Some(source) => {
            let refreshed = InitialValueInput {
                initial_value: source.initial_value,
                has_yielded_initial_value: source.has_yielded_initial_value,
                dynamic_value: InitialValueInput {
                    initial_value: source.dynamic_value.initial_value,
                    has_yielded_initial_value: source.dynamic_value.has_yielded_initial_value,
                    dynamic_value: ConstantInput { value: signal },
                },
            };
            computers[idx].set_input(refreshed);
        },
        None => {},
    }
    let result = computers[idx].run_until_halt_or_paused(true);
    match result {
        Ok(_) => {
            let output = computers[idx].last_output();
            last_outputs.set(idx, output);
            true
        },
        Err(_) => false,
    }
}

/// Whether every amplifier has halted.
fn check_all_halted(computers: &Vec<Computer<AmplifierInput>>) -> (halted: bool)
    ensures
        halted == forall|idx: int|
            0 <= idx < computers@.len() ==> (#[trigger] machines_of(computers@)[idx]).halted,
{
    let mut idx: usize = 0;
    while idx < computers.len()
        invariant
            idx <= computers@.len(),
            forall|i: int| 0 <= i < idx ==> (#[trigger] machines_of(computers@)[i]).halted,
        decreases computers@.len() - idx,
    {
        if !computers[idx].is_halted() {
            assert(!machines_of(computers@)[idx as int].halted);
            return false;
        }
        idx = idx + 1;
    }
    true
}

/// The signal that the last of the amplifiers sends to the thrusters.
/// Every amplifier runs `program` and has one of the `phase_settings`.
pub fn thruster_signal(program: Vec<isize>, phase_settings: &[isize], feedback: bool) -> (signal:
    Option<isize>)
    ensures
        signal == spec_thruster_signal(program@, phase_settings@, feedback),
{
    let count = phase_settings.len();
    if count == 0 {
        return None;
    }
    let mut computers: Vec<Computer<AmplifierInput>> = Vec::new();
    let mut last_outputs: Vec<Option<isize>> = Vec::new();
    let mut idx: usize = 0;
    while idx < count
        invariant
            idx <= count == phase_settings@.len(),
            computers@.len() == idx,
            last_outputs@.len() == idx,
            forall|i: int|
                0 <= i < idx ==> (#[trigger] computers@[i])@ == Machine::load(
                    program@,
                    Some(initial_input(phase_settings@[i], i, feedback)),
                ),
            forall|i: int| 0 <= i < idx ==> (#[trigger] last_outputs@[i]) is None,
        decreases count - idx,
    {
        let source = InitialValueInput {
            initial_value: phase_settings[idx],
            has_yielded_initial_value: false,
            dynamic_value: InitialValueInput {
                initial_value: 0,
                has_yielded_initial_value: !(idx == 0 && feedback),
                dynamic_value: ConstantInput {
                    value: if idx == 0 && !feedback {
                        Some(0)
                    } else {
                        None
                    },
                },
            },
        };
        computers.push(Computer::with_input(program.clone(), source));
        last_outputs.push(None);
        idx = idx + 1;
    }
    let ghost start = initial_pipeline(program@, phase_settings@, feedback);
    assert(machines_of(computers@) =~= start.machines);
    assert(last_outputs@ =~= start.last_outputs);
    let mut rounds: u64 = ROUND_LIMIT;
    while rounds > 0
        invariant
            count == computers@.len() == last_outputs@.len(),
            count > 0,
            count == phase_settings@.len(),
            start == initial_pipeline(program@, phase_settings@, feedback),
            run_rounds(start, feedback, ROUND_LIMIT as nat) == run_rounds(
                Pipeline { machines: machines_of(computers@), last_outputs: last_outputs@ },
                feedback,
                rounds as nat,
            ),
        decreases rounds,
    {
        let ghost before = Pipeline {
            machines: machines_of(computers@),
            last_outputs: last_outputs@,
        };
        let mut idx: usize = 0;
        while idx < count
            invariant
                idx <= count == computers@.len() == last_outputs@.len(),
                before.machines.len() == count,
                count == phase_settings@.len(),
                count > 0,
                rounds > 0,
                start == initial_pipeline(program@, phase_settings@, feedback),
                run_rounds(start, feedback, ROUND_LIMIT as nat) == run_rounds(
                    before,
                    feedback,
                    rounds as nat,
                ),
                turns(before, feedback, idx as int) == Some(
                    Pipeline { machines: machines_of(computers@), last_outputs: last_outputs@ },
                ),
            decreases count - idx,
        {
            if !take_turn(&mut computers, &mut last_outputs, idx, feedback) {
                proof {
                    lemma_turns_fail(before, feedback, idx + 1, count as int);
                }
                return None;
            }
            idx = idx + 1;
        }
        if check_all_halted(&computers) {
            return Some(
                match last_outputs[count - 1] {
                    Some(signal) => signal,
                    None => 0,
                },
            );
        }
        rounds = rounds - 1;
    }
    None
}

proof fn lemma_turns_fail(pipeline: Pipeline, feedback: bool, shorter: int, upto: int)
    requires
        0 <= shorter <= upto,
        turns(pipeline, feedback, shorter) is None,
    ensures
        turns(pipeline, feedback, upto) is None,
    decreases upto - shorter,
{
    if shorter < upto {
        lemma_turns_fail(pipeline, feedback, shorter, upto - 1);
    }
}

/// Five phase settings as they come out of the nested products.
pub type Nested = ((((isize, isize), isize), isize), isize);

/// The five phase settings in order.
pub open spec fn setting_of(nested: Nested) -> Seq<isize> {
    seq![nested.0.0.0.0, nested.0.0.0.1, nested.0.0.1, nested.0.1, nested.1]
}

/// Whether these are five phase settings from `low` to `high`, no two the same.
pub open spec fn valid_setting(setting: Seq<isize>, low: isize, high: isize) -> bool {
    &&& setting.len() == 5
    &&& forall|i: int| 0 <= i < 5 ==> low <= #[trigger] setting[i] <= high
    &&& forall|i: int, j: int| 0 <= i < j < 5 ==> setting[i] != setting[j]
}

/// Whether `best` is the answer of the search over all valid settings:
/// the largest thruster signal among them. There is none where there is
/// no valid setting, or where the amplifiers fail with one of them.
pub open spec fn is_max_thruster_signal(
    program: Seq<isize>,
    low: isize,
    high: isize,
    feedback: bool,
    best: Option<isize>,
) -> bool {
    match best {
        Some(signal) => {
            &&& exists|setting: Seq<isize>|
                valid_setting(setting, low, high) && #[trigger] spec_thruster_signal(
                    program,
                    setting,
                    feedback,
                ) == Some(signal)
            &&& forall|setting: Seq<isize>|
                valid_setting(setting, low, high) ==> (#[trigger] spec_thruster_signal(
                    program,
                    setting,
                    feedback,
                ) matches Some(other) && other <= signal)
        },
        None => {
            ||| forall|setting: Seq<isize>| !valid_setting(setting, low, high)
            ||| exists|setting: Seq<isize>|
                valid_setting(setting, low, high) && (#[trigger] spec_thruster_signal(
                    program,
                    setting,
                    feedback,
                )) is None
        },
    }
}

/// Every choice of five values from `low` to `high`.
fn all_settings(low: isize, high: isize) -> (settings: Vec<Nested>)
    requires
        low <= high,
        (high - low + 1) * (high - low + 1) * (high - low + 1) * (high - low + 1) * (high - low
            + 1) <= usize::MAX,
    ensures
        forall|nested: Nested| #[trigger]
            settings@.contains(nested) <==> {
                &&& low <= nested.0.0.0.0 <= high
                &&& low <= nested.0.0.0.1 <= high
                &&& low <= nested.0.0.1 <= high
                &&& low <= nested.0.1 <= high
                &&& low <= nested.1 <= high
            },
{
    let ghost width = high - low + 1;
    assert(width <= width * width <= width * width * width <= width * width * width * width
        <= width * width * width * width * width) by (nonlinear_arith)
        requires
            width >= 1,
    ;
    let range = inclusive_range(low, high);
    let pairs = cartesian_product(&range, &range);
    let triples = cartesian_product(&pairs, &range);
    let quadruples = cartesian_product(&triples, &range);
    let settings = cartesian_product(&quadruples, &range);
    proof {
        lemma_product_members(pairs@, range@, range@);
        lemma_product_members(triples@, pairs@, range@);
        lemma_product_members(quadruples@, triples@, range@);
        lemma_product_members(settings@, quadruples@, range@);
        assert forall|nested: Nested| #[trigger]
            settings@.contains(nested) <==> {
                &&& low <= nested.0.0.0.0 <= high
                &&& low <= nested.0.0.0.1 <= high
                &&& low <= nested.0.0.1 <= high
                &&& low <= nested.0.1 <= high
                &&& low <= nested.1 <= high
            } by {
            assert(quadruples@.contains(nested.0) <==> triples@.contains(nested.0.0)
                && range@.contains(nested.0.1));
            assert(triples@.contains(nested.0.0) <==> pairs@.contains(nested.0.0.0)
                && range@.contains(nested.0.0.1));
            assert(pairs@.contains(nested.0.0.0) <==> range@.contains(nested.0.0.0.0)
                && range@.contains(nested.0.0.0.1));
        }
    }
    settings
}

/// Whether no two of the five settings are the same.
fn all_different(setting: &Vec<isize>) -> (different: bool)
    requires
        setting@.len() == 5,
    ensures
        different == forall|i: int, j: int| 0 <= i < j < 5 ==> setting@[i] != setting@[j],
{
    setting[0] != setting[1] && setting[0] != setting[2] && setting[0] != setting[3] && setting[0]
        != setting[4] && setting[1] != setting[2] && setting[1] != setting[3] && setting[1]
        != setting[4] && setting[2] != setting[3] && setting[2] != setting[4] && setting[3]
        != setting[4]
}

/// The largest thruster signal over all choices of five phase settings
/// from `low` to `high`, no two the same.
pub fn find_max_thruster_signal(program: Vec<isize>, low: isize, high: isize, feedback: bool) -> (best:
    Option<isize>)
    requires
        low <= high,
        (high - low + 1) * (high - low + 1) * (high - low + 1) * (high - low + 1) * (high - low
            + 1) <= usize::MAX,
    ensures
        is_max_thruster_signal(program@, low, high, feedback, best),
{
    let settings = all_settings(low, high);
    let mut best: Option<isize> = None;
    let mut index: usize = 0;
    while index < settings.len()
        invariant
            index <= settings@.len(),
            forall|nested: Nested| #[trigger]
                settings@.contains(nested) ==> {
                    &&& low <= nested.0.0.0.0 <= high
                    &&& low <= nested.0.0.0.1 <= high
                    &&& low <= nested.0.0.1 <= high
                    &&& low <= nested.0.1 <= high
                    &&& low <= nested.1 <= high
                },
            forall|k: int|
                0 <= k < index && valid_setting(setting_of(settings@[k]), low, high) ==> best is Some
                    && (#[trigger] spec_thruster_signal(
                    program@,
                    setting_of(settings@[k]),
                    feedback,
                ) matches Some(other) && other <= best->0),
            best matches Some(signal) ==> exists|k: int|
                0 <= k < index && valid_setting(setting_of(settings@[k]), low, high)
                    && #[trigger] spec_thruster_signal(
                    program@,
                    setting_of(settings@[k]),
                    feedback,
                ) == Some(signal),
        decreases settings@.len() - index,
    {
        let nested = settings[index];
        assert(settings@.contains(nested));
        let mut phase_setting: Vec<isize> = Vec::new();
        phase_setting.push(nested.0.0.0.0);
        phase_setting.push(nested.0.0.0.1);
        phase_setting.push(nested.0.0.1);
        phase_setting.push(nested.0.1);
        phase_setting.push(nested.1);
        assert(phase_setting@ =~= setting_of(nested));
        if all_different(&phase_setting) {
            match thruster_signal(program.clone(), phase_setting.as_slice(), feedback) {
                Some(result) => {
                    let improved = match best {
                        Some(signal) => result > signal,
                        None => true,
                    };
                    if improved {
                        best = Some(result);
                    }
                },
                None => {
                    return None;
                },
            }
        }
        index = index + 1;
    }
    proof {
        assert forall|setting: Seq<isize>| valid_setting(setting, low, high) implies best is Some
            && (#[trigger] spec_thruster_signal(program@, setting, feedback) matches Some(other)
            && other <= best->0) by {
            let nested: Nested = ((((setting[0], setting[1]), setting[2]), setting[3]), setting[4]);
            assert(setting_of(nested) =~= setting);
            assert(settings@.contains(nested));
        }
        match best {
            Some(signal) => {
                let k = choose|k: int|
                    0 <= k < index && valid_setting(setting_of(settings@[k]), low, high)
                        && #[trigger] spec_thruster_signal(
                        program@,
                        setting_of(settings@[k]),
                        feedback,
                    ) == Some(signal);
                let witness = setting_of(settings@[k]);
                assert(valid_setting(witness, low, high) && spec_thruster_signal(
                    program@,
                    witness,
                    feedback,
                ) == Some(signal));
            },
            None => {
                assert forall|setting: Seq<isize>| !valid_setting(setting, low, high) by {
                    if valid_setting(setting, low, high) {
                        assert(spec_thruster_signal(program@, setting, feedback) is Some);
                    }
                }
            },
        }
    }
    best
}

/// The largest thruster signal for the program in `text`, a list of
/// integers that commas separate.
pub open spec fn is_answer(
    text: Seq<char>,
    low: isize,
    high: isize,
    feedback: bool,
    best: Option<isize>,
) -> bool {
    match integers(fields(text, seq![','])) {
        Some(program) => is_max_thruster_signal(program, low, high, feedback, best),
        None => best is None,
    }
}

/// The largest thruster signal of five amplifiers in a row, with the phase
/// settings 0 to 4 in some order.
pub fn star_one(input: &str) -> (best: Option<isize>)
    ensures
        is_answer(input@, 0, 4, false, best),
{
    proof {
        reveal_strlit(",");
        assert(","@ =~= seq![',']);
    }
    assert(5 * 5 * 5 * 5 * 5 == 3125) by (nonlinear_arith);
    match parse_custom_separated(input, ",") {
        Some(program) => find_max_thruster_signal(program, 0, 4, false),
        None => None,
    }
}

/// The largest thruster signal of five amplifiers in a feedback loop,
/// with the phase settings 5 to 9 in some order.
pub fn star_two(input: &str) -> (best: Option<isize>)
    ensures
        is_answer(input@, 5, 9, true, best),
{
    proof {
        reveal_strlit(",");
        assert(","@ =~= seq![',']);
    }
    assert(5 * 5 * 5 * 5 * 5 == 3125) by (nonlinear_arith);
    match parse_custom_separated(input, ",") {
        Some(program) => find_max_thruster_signal(program, 5, 9, true),
        None => None,
    }
}

} // verus!
