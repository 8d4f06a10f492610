use advent_of_rust_2019::intcode_computer::{
    input_with_initial_value, ComparisonOp, Computer, ConstantInput, ExecutionState, Fault,
    FaultKind, GrowableMemory, InputSource, Instruction, JumpCondition, Op, Parameter,
    QueueInput,
};

const TEST_PROGRAM_1: &'static [isize] = &[
    109, 1, 204, -1, 1001, 100, 1, 100, 1008, 100, 16, 101, 1006, 101, 0, 99,
];
const TEST_PROGRAM_2: &'static [isize] = &[1102, 34915192, 34915192, 7, 4, 7, 99, 0];
const TEST_PROGRAM_3: &'static [isize] = &[104, 1125899906842624, 99];

#[test]
fn test_extended_intcode_program1() {
    let program = Vec::from(TEST_PROGRAM_1);
    let mut computer = Computer::with_input(program, ConstantInput::new(0));

    let _ = computer.run_until_halt_or_paused(false);

    assert_eq!(computer.all_outputs(), TEST_PROGRAM_1);
}

#[test]
fn test_extended_intcode_program2() {
    let program = Vec::from(TEST_PROGRAM_2);
    let mut computer = Computer::with_input(program, ConstantInput::new(0));

    let _ = computer.run_until_halt_or_paused(false);

    assert_eq!(computer.last_output(), Some(1219070632396864));
}

#[test]
fn test_extended_intcode_program3() {
    let program = Vec::from(TEST_PROGRAM_3);
    let mut computer = Computer::with_input(program, ConstantInput::new(0));

    let _ = computer.run_until_halt_or_paused(false);

    assert_eq!(computer.last_output(), Some(1125899906842624));
}

#[test]
fn positional_arithmetic() {
    let program = vec![1, 9, 10, 3, 2, 3, 11, 0, 99, 30, 40, 50];
    let mut computer: Computer<ConstantInput> = Computer::new(program);

    assert_eq!(
        computer.run_until_halt_or_paused(false),
        Ok(ExecutionState::Halt)
    );
    assert!(computer.is_halted());
    assert_eq!(computer.memory().read(0), 3500);
    assert_eq!(computer.memory().read(3), 70);
    assert_eq!(computer.last_output(), None);
    assert_eq!(computer.all_outputs().len(), 0);
}

#[test]
fn relative_mode_output_is_the_program_for_any_input() {
    for input in [-5_isize, 0, 1, 77] {
        let program = Vec::from(TEST_PROGRAM_1);
        let mut computer = Computer::with_input(program, ConstantInput::new(input));
        assert_eq!(
            computer.run_until_halt_or_paused(false),
            Ok(ExecutionState::Halt)
        );
        assert_eq!(computer.all_outputs(), TEST_PROGRAM_1);
    }
}

#[test]
fn pause_on_output_yields_one_value_per_run() {
    let program = Vec::from(TEST_PROGRAM_1);
    let mut computer: Computer<ConstantInput> = Computer::new(program);
    for produced in 1..=TEST_PROGRAM_1.len() {
        assert_eq!(
            computer.run_until_halt_or_paused(true),
            Ok(ExecutionState::Pause)
        );
        assert_eq!(computer.all_outputs().len(), produced);
        assert_eq!(computer.last_output(), Some(TEST_PROGRAM_1[produced - 1]));
    }
    assert_eq!(
        computer.run_until_halt_or_paused(true),
        Ok(ExecutionState::Halt)
    );
    assert_eq!(computer.all_outputs(), TEST_PROGRAM_1);
}

#[test]
fn run_without_pause_on_output_yields_many_values() {
    let program = Vec::from(TEST_PROGRAM_1);
    let mut computer: Computer<ConstantInput> = Computer::new(program);
    assert_eq!(
        computer.run_until_halt_or_paused(false),
        Ok(ExecutionState::Halt)
    );
    assert_eq!(computer.all_outputs().len(), 16);
}

#[test]
fn blocked_on_input_stays_put_until_a_value_comes() {
    // Output 11, read a value to address 20, output it twice, halt.
    let program = vec![104, 11, 3, 20, 4, 20, 4, 20, 99];
    let mut computer: Computer<ConstantInput> = Computer::new(program.clone());
    assert_eq!(
        computer.run_until_halt_or_paused(false),
        Ok(ExecutionState::Pause)
    );
    assert_eq!(computer.all_outputs(), &[11]);
    for _ in 0..5 {
        assert_eq!(
            computer.run_until_halt_or_paused(false),
            Ok(ExecutionState::Pause)
        );
        assert!(!computer.is_halted());
        assert_eq!(computer.all_outputs(), &[11]);
        for (address, value) in program.iter().enumerate() {
            assert_eq!(computer.memory().read(address), *value);
        }
        assert_eq!(computer.memory().read(20), 0);
    }
    computer.set_input(ConstantInput::empty());
    assert_eq!(
        computer.run_until_halt_or_paused(false),
        Ok(ExecutionState::Pause)
    );
    assert_eq!(computer.all_outputs(), &[11]);

    computer.set_input(ConstantInput::new(42));
    assert_eq!(
        computer.run_until_halt_or_paused(false),
        Ok(ExecutionState::Halt)
    );
    // The first output was not produced again.
    assert_eq!(computer.all_outputs(), &[11, 42, 42]);
    assert_eq!(computer.memory().read(20), 42);
}

#[test]
fn a_halted_machine_ignores_further_runs() {
    let mut computer: Computer<ConstantInput> = Computer::new(vec![104, 5, 99]);
    assert_eq!(
        computer.run_until_halt_or_paused(false),
        Ok(ExecutionState::Halt)
    );
    // Patching the halt instruction does not wake the machine up again.
    computer.memory().write(2, 104);
    assert_eq!(
        computer.run_until_halt_or_paused(false),
        Ok(ExecutionState::Halt)
    );
    assert_eq!(computer.all_outputs(), &[5]);
    assert!(computer.is_halted());
}

#[test]
fn memory_grows_without_disturbing_what_is_stored() {
    let mut memory = GrowableMemory::new(vec![7, 8, 9], 3);
    assert_eq!(memory.len(), 3);
    assert_eq!(memory.read(2), 9);
    assert_eq!(memory.read(1_000_000), 0);
    memory.write(2_000_000, -4);
    assert!(memory.len() > 2_000_000);
    assert_eq!(memory.read(2_000_000), -4);
    assert_eq!(memory.read(1_999_999), 0);
    assert_eq!(memory.read(0), 7);
    assert_eq!(memory.read(1), 8);
    assert_eq!(memory.read(2), 9);
    memory.write(1, 80);
    assert_eq!(memory.read(1), 80);
    assert_eq!(memory.read(usize::MAX), 0);
}

#[test]
fn new_memory_has_the_initial_size() {
    let memory = GrowableMemory::new(vec![1, 2, 3], 10_000);
    assert_eq!(memory.len(), 10_000);
    let larger = GrowableMemory::new(vec![1, 2, 3], 2);
    assert_eq!(larger.len(), 3);
}

#[test]
fn program_writes_and_reads_far_beyond_its_length() {
    // mem[500000] = 6 * 7; output mem[500000]; output mem[400000]; halt.
    let program = vec![1102, 6, 7, 500000, 4, 500000, 4, 400000, 99];
    let mut computer: Computer<ConstantInput> = Computer::new(program.clone());
    assert_eq!(
        computer.run_until_halt_or_paused(false),
        Ok(ExecutionState::Halt)
    );
    assert_eq!(computer.all_outputs(), &[42, 0]);
    for (address, value) in program.iter().enumerate() {
        assert_eq!(computer.memory().read(address), *value);
    }
}

#[test]
fn comparisons_and_jumps() {
    // Position mode: is the input equal to 8?
    let equal = vec![3, 9, 8, 9, 10, 9, 4, 9, 99, -1, 8];
    // Immediate mode: is the input less than 8?
    let less = vec![3, 3, 1107, -1, 8, 3, 4, 3, 99];
    // Position mode jump: is the input non-zero?
    let jump = vec![3, 12, 6, 12, 15, 1, 13, 14, 13, 4, 13, 99, -1, 0, 1, 9];
    // Immediate mode jump: is the input non-zero?
    let jump_immediate = vec![3, 3, 1105, -1, 9, 1101, 0, 0, 12, 4, 12, 99, 1];
    for (program, input, expected) in [
        (&equal, 8, 1),
        (&equal, 7, 0),
        (&less, 7, 1),
        (&less, 8, 0),
        (&jump, 0, 0),
        (&jump, -3, 1),
        (&jump_immediate, 0, 0),
        (&jump_immediate, 5, 1),
    ] {
        let mut computer = Computer::with_input(program.clone(), ConstantInput::new(input));
        assert_eq!(
            computer.run_until_halt_or_paused(false),
            Ok(ExecutionState::Halt)
        );
        assert_eq!(computer.last_output(), Some(expected));
    }
}

#[test]
fn initial_value_comes_first_and_once() {
    // Read two values and output their difference.
    let program = vec![3, 20, 3, 21, 1002, 21, -1, 21, 1, 20, 21, 22, 4, 22, 99];
    let source = input_with_initial_value(10, ConstantInput::new(3));
    let mut computer = Computer::with_input(program.clone(), source);
    assert_eq!(
        computer.run_until_halt_or_paused(false),
        Ok(ExecutionState::Halt)
    );
    assert_eq!(computer.last_output(), Some(7));

    let waiting = input_with_initial_value(10, ConstantInput::empty());
    let mut computer = Computer::with_input(program, waiting);
    assert_eq!(
        computer.run_until_halt_or_paused(false),
        Ok(ExecutionState::Pause)
    );
    assert_eq!(computer.memory().read(20), 10);
    assert_eq!(computer.memory().read(21), 0);
    assert_eq!(computer.last_output(), None);
}

#[test]
fn faults_name_their_instruction() {
    let run = |program: Vec<isize>| {
        let mut computer = Computer::with_input(program, ConstantInput::new(1));
        computer.run_until_halt_or_paused(false)
    };
    assert_eq!(
        run(vec![1101, 1, 1, 5, 77, 0]),
        Err(Fault { kind: FaultKind::UnsupportedOpcode, opcode: 77, ip: 4 })
    );
    assert_eq!(
        run(vec![-1]),
        Err(Fault { kind: FaultKind::UnsupportedOpcode, opcode: -1, ip: 0 })
    );
    // Running off the end of the program meets a zero cell.
    assert_eq!(
        run(vec![1101, 1, 1, 5]),
        Err(Fault { kind: FaultKind::UnsupportedOpcode, opcode: 0, ip: 4 })
    );
    assert_eq!(
        run(vec![304, 1, 99]),
        Err(Fault { kind: FaultKind::UnsupportedMode { mode: 3 }, opcode: 304, ip: 0 })
    );
    assert_eq!(
        run(vec![11101, 1, 1, 0, 99]),
        Err(Fault { kind: FaultKind::ImmediateWriteTarget, opcode: 11101, ip: 0 })
    );
    assert_eq!(
        run(vec![103, 0, 99]),
        Err(Fault { kind: FaultKind::ImmediateWriteTarget, opcode: 103, ip: 0 })
    );
    assert_eq!(
        run(vec![4, -2, 99]),
        Err(Fault { kind: FaultKind::NegativeAddress { address: -2 }, opcode: 4, ip: 0 })
    );
    assert_eq!(
        run(vec![204, -2, 99]),
        Err(Fault { kind: FaultKind::NegativeAddress { address: -2 }, opcode: 204, ip: 0 })
    );
    assert_eq!(
        run(vec![1105, 1, -7]),
        Err(Fault { kind: FaultKind::NegativeAddress { address: -7 }, opcode: 1105, ip: 0 })
    );
    assert_eq!(
        run(vec![1102, isize::MAX, 2, 0, 99]),
        Err(Fault { kind: FaultKind::Overflow, opcode: 1102, ip: 0 })
    );
    assert_eq!(
        run(vec![109, isize::MAX, 109, 1, 99]),
        Err(Fault { kind: FaultKind::Overflow, opcode: 109, ip: 2 })
    );
}

#[test]
fn a_fault_leaves_the_machine_as_it_was() {
    let mut computer: Computer<ConstantInput> = Computer::new(vec![104, 3, 1102, isize::MAX, 2, 0, 99]);
    let fault = Err(Fault { kind: FaultKind::Overflow, opcode: 1102, ip: 2 });
    assert_eq!(computer.run_until_halt_or_paused(false), fault);
    assert_eq!(computer.run_until_halt_or_paused(false), fault);
    assert_eq!(computer.all_outputs(), &[3]);
    assert_eq!(computer.memory().read(0), 104);
    assert!(!computer.is_halted());
}

#[test]
fn a_bounded_run_stops_after_its_cycles() {
    // An endless loop: jump to 0 for ever.
    let mut computer: Computer<ConstantInput> = Computer::new(vec![1105, 1, 0]);
    assert_eq!(computer.run_cycles(false, 1000), Ok(ExecutionState::Continue));
    assert!(!computer.is_halted());
    assert_eq!(computer.step(false), Ok(ExecutionState::Continue));
}

#[test]
fn relative_base_may_pass_below_zero() {
    // base -= 5; output mem[base + 12] = mem[7]; halt.
    let mut computer: Computer<ConstantInput> = Computer::new(vec![109, -5, 204, 12, 99, 0, 0, 31]);
    assert_eq!(
        computer.run_until_halt_or_paused(false),
        Ok(ExecutionState::Halt)
    );
    assert_eq!(computer.all_outputs(), &[31]);
}

#[test]
fn input_in_relative_mode() {
    // base += 10; read to mem[base + 1]; output mem[11]; halt.
    let mut computer = Computer::with_input(vec![109, 10, 203, 1, 4, 11, 99], ConstantInput::new(-9));
    assert_eq!(
        computer.run_until_halt_or_paused(false),
        Ok(ExecutionState::Halt)
    );
    assert_eq!(computer.all_outputs(), &[-9]);
}

#[test]
fn taking_the_input_source_out() {
    let mut computer = Computer::with_input(vec![3, 20, 4, 20, 3, 21, 4, 21, 99], input_with_initial_value(5, ConstantInput::empty()));
    assert_eq!(computer.run_until_halt_or_paused(false), Ok(ExecutionState::Pause));
    assert_eq!(computer.all_outputs(), &[5]);
    let source = computer.take_input().unwrap();
    assert!(source.has_yielded_initial_value);
    assert_eq!(source.initial_value, 5);
    // Without a source the machine waits.
    assert_eq!(computer.run_until_halt_or_paused(false), Ok(ExecutionState::Pause));
    assert!(computer.take_input().is_none());
    computer.set_input(input_with_initial_value(6, ConstantInput::empty()));
    assert_eq!(computer.run_until_halt_or_paused(false), Ok(ExecutionState::Halt));
    assert_eq!(computer.all_outputs(), &[5, 6]);
}

#[test]
fn decoding_single_instructions() {
    assert_eq!(
        Instruction::parse(&[1002, 4, 3, 4]),
        Ok(Instruction::Op(
            Op::Multiply,
            Parameter::Position(4),
            Parameter::Immediate(3),
            Parameter::Position(4)
        ))
    );
    assert_eq!(
        Instruction::parse(&[21101, -4, 3, 4]),
        Ok(Instruction::Op(
            Op::Add,
            Parameter::Immediate(-4),
            Parameter::Immediate(3),
            Parameter::Relative(4)
        ))
    );
    assert_eq!(
        Instruction::parse(&[203, -7]),
        Ok(Instruction::Input(Parameter::Relative(-7)))
    );
    assert_eq!(
        Instruction::parse(&[4, 0]),
        Ok(Instruction::Output(Parameter::Position(0)))
    );
    assert_eq!(
        Instruction::parse(&[1105, 0, 9]),
        Ok(Instruction::ConditionalJump(
            JumpCondition::IfTrue,
            Parameter::Immediate(0),
            Parameter::Immediate(9)
        ))
    );
    assert_eq!(
        Instruction::parse(&[6, 0, 9]),
        Ok(Instruction::ConditionalJump(
            JumpCondition::IfFalse,
            Parameter::Position(0),
            Parameter::Position(9)
        ))
    );
    assert_eq!(
        Instruction::parse(&[7, 1, 2, 3]),
        Ok(Instruction::Compare(
            ComparisonOp::LessThan,
            Parameter::Position(1),
            Parameter::Position(2),
            Parameter::Position(3)
        ))
    );
    assert_eq!(
        Instruction::parse(&[2108, 1, 2, 3]),
        Ok(Instruction::Compare(
            ComparisonOp::Equal,
            Parameter::Immediate(1),
            Parameter::Relative(2),
            Parameter::Position(3)
        ))
    );
    assert_eq!(
        Instruction::parse(&[109, 19]),
        Ok(Instruction::RelativeBaseAdjust(Parameter::Immediate(19)))
    );
    assert_eq!(Instruction::parse(&[99]), Ok(Instruction::Halt));
    // Digits beyond the ten-thousands and modes of operands that an
    // operation does not have are not looked at.
    assert_eq!(Instruction::parse(&[7700099]), Ok(Instruction::Halt));
    assert_eq!(
        Instruction::parse(&[9204, 1]),
        Ok(Instruction::Output(Parameter::Relative(1)))
    );
    assert_eq!(
        Instruction::parse(&[3304, 1]),
        Err(FaultKind::UnsupportedMode { mode: 3 })
    );
    assert_eq!(
        Instruction::parse(&[100001, 1, 2, 3]),
        Ok(Instruction::Op(
            Op::Add,
            Parameter::Position(1),
            Parameter::Position(2),
            Parameter::Position(3)
        ))
    );
    assert_eq!(Instruction::parse(&[0]), Err(FaultKind::UnsupportedOpcode));
    assert_eq!(Instruction::parse(&[10]), Err(FaultKind::UnsupportedOpcode));
    assert_eq!(Instruction::parse(&[98]), Err(FaultKind::UnsupportedOpcode));
    assert_eq!(Instruction::parse(&[-99]), Err(FaultKind::UnsupportedOpcode));
    assert_eq!(
        Instruction::parse(&[501, 1, 2, 3]),
        Err(FaultKind::UnsupportedMode { mode: 5 })
    );
    assert_eq!(
        Instruction::parse(&[9001, 1, 2, 3]),
        Err(FaultKind::UnsupportedMode { mode: 9 })
    );
    assert_eq!(
        Instruction::parse(&[30001, 1, 2, 3]),
        Err(FaultKind::UnsupportedMode { mode: 3 })
    );
    assert_eq!(
        Instruction::parse(&[10008, 1, 2, 3]),
        Err(FaultKind::ImmediateWriteTarget)
    );
    assert_eq!(
        Instruction::parse(&[1, -1, 2, 3]),
        Err(FaultKind::NegativeAddress { address: -1 })
    );
    // The first operand that cannot be decoded decides.
    assert_eq!(
        Instruction::parse(&[10901, 1, -2, 3]),
        Err(FaultKind::UnsupportedMode { mode: 9 })
    );
    assert_eq!(
        Instruction::parse(&[10001, 1, -2, 3]),
        Err(FaultKind::NegativeAddress { address: -2 })
    );
}

#[test]
fn instruction_lengths() {
    assert_eq!(Instruction::parse(&[1, 0, 0, 0]).unwrap().length(), 4);
    assert_eq!(Instruction::parse(&[8, 0, 0, 0]).unwrap().length(), 4);
    assert_eq!(Instruction::parse(&[5, 0, 0]).unwrap().length(), 3);
    assert_eq!(Instruction::parse(&[3, 0]).unwrap().length(), 2);
    assert_eq!(Instruction::parse(&[4, 0]).unwrap().length(), 2);
    assert_eq!(Instruction::parse(&[9, 0]).unwrap().length(), 2);
    assert_eq!(Instruction::parse(&[99]).unwrap().length(), 1);
}

#[test]
fn parameters_and_their_addresses() {
    assert_eq!(Parameter::new(0, 7), Ok(Parameter::Position(7)));
    assert_eq!(Parameter::new(1, -7), Ok(Parameter::Immediate(-7)));
    assert_eq!(Parameter::new(2, -7), Ok(Parameter::Relative(-7)));
    assert_eq!(Parameter::new(3, 7), Err(FaultKind::UnsupportedMode { mode: 3 }));
    assert_eq!(Parameter::new(0, -7), Err(FaultKind::NegativeAddress { address: -7 }));
    assert_eq!(Parameter::target(1, 7), Err(FaultKind::ImmediateWriteTarget));
    assert_eq!(Parameter::target(2, 7), Ok(Parameter::Relative(7)));
    assert_eq!(Parameter::Position(12).address(100), Ok(12));
    assert_eq!(Parameter::Relative(12).address(100), Ok(112));
    assert_eq!(Parameter::Relative(-12).address(10), Err(FaultKind::NegativeAddress { address: -2 }));
    assert_eq!(Parameter::Relative(1).address(isize::MAX), Err(FaultKind::Overflow));
    assert_eq!(Parameter::Immediate(12).address(100), Err(FaultKind::ImmediateWriteTarget));
    let mut memory = GrowableMemory::new(vec![10, 20, 30], 3);
    assert_eq!(memory.value(&Parameter::Immediate(2), 1), Ok(2));
    assert_eq!(memory.value(&Parameter::Position(2), 1), Ok(30));
    assert_eq!(memory.value(&Parameter::Relative(0), 1), Ok(20));
    assert_eq!(memory.value(&Parameter::Relative(50), 1), Ok(0));
    assert_eq!(memory.value(&Parameter::Relative(-2), 1), Err(FaultKind::NegativeAddress { address: -1 }));
    assert_eq!(memory.read_instruction(1), [20, 30, 0, 0]);
    assert_eq!(memory.read_instruction(usize::MAX), [0, 0, 0, 0]);
}

#[test]
fn a_queue_yields_each_value_once() {
    let mut queue = QueueInput::new(vec![4, 5]);
    assert_eq!(queue.next_input(), Some(4));
    assert_eq!(queue.next_input(), Some(5));
    assert_eq!(queue.next_input(), None);
    assert_eq!(queue.next_input(), None);
    queue.push(6);
    queue.push(7);
    assert_eq!(queue.next_input(), Some(6));
    assert_eq!(queue.next_input(), Some(7));
    assert_eq!(queue.next_input(), None);
}

#[test]
fn a_machine_resumes_when_its_queue_is_filled() {
    // Read three values, output each times ten.
    let program = vec![
        3, 50, 1002, 50, 10, 50, 4, 50, 3, 50, 1002, 50, 10, 50, 4, 50, 3, 50, 1002, 50, 10, 50,
        4, 50, 99,
    ];
    let mut computer = Computer::with_input(program, QueueInput::new(vec![1]));
    assert_eq!(computer.run_until_halt_or_paused(false), Ok(ExecutionState::Pause));
    assert_eq!(computer.all_outputs(), &[10]);
    assert_eq!(computer.run_until_halt_or_paused(false), Ok(ExecutionState::Pause));
    assert_eq!(computer.all_outputs(), &[10]);
    let mut queue = computer.take_input().unwrap();
    queue.push(2);
    queue.push(3);
    computer.set_input(queue);
    assert_eq!(computer.run_until_halt_or_paused(true), Ok(ExecutionState::Pause));
    assert_eq!(computer.all_outputs(), &[10, 20]);
    assert_eq!(computer.run_until_halt_or_paused(true), Ok(ExecutionState::Pause));
    assert_eq!(computer.all_outputs(), &[10, 20, 30]);
    assert_eq!(computer.run_until_halt_or_paused(true), Ok(ExecutionState::Halt));
    assert_eq!(computer.all_outputs(), &[10, 20, 30]);
}

#[test]
fn two_machines_in_a_row() {
    // Each machine reads a value and outputs it plus one, three times.
    let program = vec![
        3, 50, 1001, 50, 1, 50, 4, 50, 3, 50, 1001, 50, 1, 50, 4, 50, 3, 50, 1001, 50, 1, 50, 4,
        50, 99,
    ];
    let mut first = Computer::with_input(program.clone(), QueueInput::new(vec![10, 20, 30]));
    let mut second = Computer::with_input(program, QueueInput::new(vec![]));
    while !second.is_halted() {
        assert!(first.run_until_halt_or_paused(true).is_ok());
        assert_eq!(second.run_until_halt_or_paused(true), Ok(ExecutionState::Pause));
        if let Some(value) = first.last_output() {
            let mut queue = second.take_input().unwrap();
            queue.push(value);
            second.set_input(queue);
        }
        assert!(second.run_until_halt_or_paused(true).is_ok());
        if second.all_outputs().len() == 3 {
            assert_eq!(second.run_until_halt_or_paused(true), Ok(ExecutionState::Halt));
        }
    }
    assert_eq!(first.all_outputs(), &[11, 21, 31]);
    assert_eq!(second.all_outputs(), &[12, 22, 32]);
}
