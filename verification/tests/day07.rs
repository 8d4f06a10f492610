use advent_of_rust_2019::day07::{find_max_thruster_signal, star_one, star_two, thruster_signal};
use advent_of_rust_2019::parse_custom_separated;

const TEST_CASES_PART_1: [(&str, [isize; 5], isize); 3] = [
    ("3,23,3,24,1002,24,10,24,1002,23,-1,23,101,5,23,23,1,24,23,23,4,23,99,0,0", [0,1,2,3,4], 54321),
    ("3,15,3,16,1002,16,10,16,1,16,15,15,4,15,99,0,0", [4, 3, 2, 1, 0], 43210),
    ("3,31,3,32,1002,32,10,32,1001,31,-2,31,1007,31,0,33,1002,33,7,33,1,33,31,31,1,32,31,31,4,31,99,0,0,0", [1,0,4,3,2], 65210),
];

const TEST_CASES_PART_2: [(&str, [isize; 5], isize); 2] = [
    ("3,26,1001,26,-4,26,3,27,1002,27,2,27,1,27,26,27,4,27,1001,28,-1,28,1005,28,6,99,0,0,5", [9,8,7,6,5], 139629729),
    ("3,52,1001,52,-5,52,3,53,1,52,56,54,1007,54,5,55,1005,55,26,1001,54,-5,54,1105,1,12,1,53,54,53,1008,54,0,55,1001,55,1,55,2,53,55,53,4,53,1001,56,-1,56,1005,56,6,99,0,0,0,0,10", [9,7,8,5,6], 18216),
];

#[test]
fn test_thruster_signal() {
    for (input, phase_settings, max_thruster_signal) in &TEST_CASES_PART_1 {
        let program = parse_custom_separated(input, ",").unwrap();
        assert_eq!(
            thruster_signal(program, phase_settings, false,),
            Some(*max_thruster_signal)
        );
    }
}

#[test]
fn test_thruster_signal_feedback_mode() {
    for (input, phase_settings, max_thruster_signal) in &TEST_CASES_PART_2 {
        let program = parse_custom_separated(input, ",").unwrap();
        assert_eq!(
            thruster_signal(program, phase_settings, true),
            Some(*max_thruster_signal)
        );
    }
}

#[test]
fn day07_test_star_one() {
    for (input, _phase_settings, max_thruster_signal) in &TEST_CASES_PART_1 {
        assert_eq!(
            star_one(input),
            Some(*max_thruster_signal),
            "Expected max thruster signal of {} for program `{}`",
            max_thruster_signal,
            input
        );
    }
}

#[test]
fn day07_test_star_two() {
    for (input, _phase_settings, max_thruster_signal) in &TEST_CASES_PART_2 {
        assert_eq!(
            star_two(input),
            Some(*max_thruster_signal),
            "Expected max thruster signal of {} for program `{}`",
            max_thruster_signal,
            input
        );
    }
}

#[test]
fn thruster_signal_needs_amplifiers_that_work() {
    assert_eq!(thruster_signal(vec![3, 0, 4, 0, 99], &[], false), None);
    // An unknown opcode stops the first amplifier.
    assert_eq!(thruster_signal(vec![3, 0, 55], &[1, 2], false), None);
    // Without output the signal is 0.
    assert_eq!(thruster_signal(vec![3, 0, 99], &[1, 2], false), Some(0));
    // One amplifier that adds its phase setting to the start signal.
    assert_eq!(thruster_signal(vec![3, 20, 3, 21, 1, 20, 21, 22, 4, 22, 99], &[7], false), Some(7));
}

#[test]
fn an_amplifier_reads_the_same_signal_again_until_a_new_one_comes() {
    // Each amplifier reads its phase setting and then the signal twice, and
    // sends the sum of both readings on.
    let program = vec![3, 20, 3, 21, 3, 22, 1, 21, 22, 23, 4, 23, 99];
    assert_eq!(thruster_signal(program.clone(), &[0, 1], false), Some(0));
    // program with a first amplifier that sends 5: the second doubles it.
    let program = vec![3, 20, 3, 21, 3, 22, 1, 21, 22, 23, 101, 5, 23, 23, 4, 23, 99];
    // First: 0 + 0 + 5 = 5. Second: 5 + 5 + 5 = 15.
    assert_eq!(thruster_signal(program, &[0, 1], false), Some(15));
}

#[test]
fn an_amplifier_waits_for_the_one_before_it() {
    // The second amplifier is asked before the first has output anything,
    // because the first needs three rounds of pauses; here each amplifier
    // outputs twice, so the loop needs more than one round.
    let program = vec![3, 20, 3, 21, 4, 21, 1001, 21, 1, 21, 4, 21, 99];
    // First: outputs 0, then 1. Second reads 0 after the first round: 0, then 1.
    assert_eq!(thruster_signal(program, &[3, 4], false), Some(1));
}

#[test]
fn search_takes_the_largest_signal() {
    // The signal is the phase setting of the last amplifier.
    let program = vec![3, 20, 3, 21, 4, 20, 99];
    assert_eq!(find_max_thruster_signal(program.clone(), 0, 4, false), Some(4));
    assert_eq!(find_max_thruster_signal(program.clone(), 5, 9, false), Some(9));
    assert_eq!(find_max_thruster_signal(program.clone(), -7, -3, false), Some(-3));
    // Fewer than five values: no choice of five different settings.
    assert_eq!(find_max_thruster_signal(program, 0, 3, false), None);
    assert_eq!(find_max_thruster_signal(vec![98], 0, 4, false), None);
    assert_eq!(star_one("3,20,x"), None);
}
