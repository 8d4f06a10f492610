//! A virtual machine for programs encoded as a flat sequence of signed integers.
//!
//! The machine owns a growable memory, a program counter, a relative base and an
//! append-only sequence of outputs. It runs until it halts, faults, or suspends
//! because it waits for input or has just produced output.

use vstd::prelude::*;

verus! {

/// Why a program cannot be executed any further.
#[derive(Debug, Clone, Copy, PartialEq, Eq, Structural)]
pub enum FaultKind {
    /// The operation code is none of the ten that the machine knows.
    UnsupportedOpcode,
    /// The mode digit of an operand is none of 0, 1 and 2.
    UnsupportedMode { mode: usize },
    /// The operand that names where to store a result is in immediate mode.
    ImmediateWriteTarget,
    /// An operand or a jump target names an address below zero.
    NegativeAddress { address: isize },
    /// A result, an address or the program counter leaves the machine's range.
    Overflow,
}

/// A fatal error, with the instruction that caused it.
#[derive(Debug, Clone, Copy, PartialEq, Eq, Structural)]
pub struct Fault {
    pub kind: FaultKind,
    /// The value of the cell at the program counter.
    pub opcode: isize,
    /// The program counter at which execution stopped.
    pub ip: usize,
}

/// An operand together with its addressing mode.
#[derive(Debug, Clone, Copy, PartialEq, Eq, Structural)]
pub enum Parameter {
    /// The literal value.
    Immediate(isize),
    /// The value stored at this address.
    Position(usize),
    /// The value stored at this offset from the relative base.
    Relative(isize),
}

/// The parameter that a mode digit and a raw cell value stand for.
pub open spec fn spec_parameter(mode: int, value: isize) -> Result<Parameter, FaultKind> {
    if mode == 0 {
        if value < 0 {
            Err(FaultKind::NegativeAddress { address: value })
        } else {
            Ok(Parameter::Position(value as usize))
        }
    } else if mode == 1 {
        Ok(Parameter::Immediate(value))
    } else if mode == 2 {
        Ok(Parameter::Relative(value))
    } else {
        Err(FaultKind::UnsupportedMode { mode: mode as usize })
    }
}

/// As `spec_parameter`, for an operand that names where a result is stored.
pub open spec fn spec_target(mode: int, value: isize) -> Result<Parameter, FaultKind> {
    if mode == 1 {
        Err(FaultKind::ImmediateWriteTarget)
    } else {
        spec_parameter(mode, value)
    }
}

/// The address that a parameter names, given the relative base.
pub open spec fn resolve_address(parameter: Parameter, relative_base: isize) -> Result<
    usize,
    FaultKind,
> {
    match parameter {
        Parameter::Position(position) => Ok(position),
        Parameter::Relative(offset) => {
            if relative_base + offset > isize::MAX || relative_base + offset < isize::MIN {
                Err(FaultKind::Overflow)
            } else if relative_base + offset < 0 {
                Err(FaultKind::NegativeAddress { address: (relative_base + offset) as isize })
            } else {
                Ok((relative_base + offset) as usize)
            }
        },
        Parameter::Immediate(_) => Err(FaultKind::ImmediateWriteTarget),
    }
}

/// The value that a parameter stands for, given memory and the relative base.
pub open spec fn resolve_value(
    parameter: Parameter,
    memory: Map<int, isize>,
    relative_base: isize,
) -> Result<isize, FaultKind> {
    match parameter {
        Parameter::Immediate(value) => Ok(value),
        _ => match resolve_address(parameter, relative_base) {
            Ok(address) => Ok(memory[address as int]),
            Err(kind) => Err(kind),
        },
    }
}

impl Parameter {
    /// Builds the parameter for a mode digit and the raw value of its cell.
    pub fn new(mode: usize, value: isize) -> (parameter: Result<Self, FaultKind>)
        ensures
            parameter == spec_parameter(mode as int, value),
    {
        if mode == 0 {
            if value < 0 {
                Err(FaultKind::NegativeAddress { address: value })
            } else {
                Ok(Parameter::Position(value as usize))
            }
        } else if mode == 1 {
            Ok(Parameter::Immediate(value))
        } else if mode == 2 {
            Ok(Parameter::Relative(value))
        } else {
            Err(FaultKind::UnsupportedMode { mode })
        }
    }

    /// Builds the parameter for an operand that names where a result is stored.
    pub fn target(mode: usize, value: isize) -> (parameter: Result<Self, FaultKind>)
        ensures
            parameter == spec_target(mode as int, value),
    {
        if mode == 1 {
            Err(FaultKind::ImmediateWriteTarget)
        } else {
            Parameter::new(mode, value)
        }
    }

    /// The address that this parameter names.
    pub fn address(&self, relative_base: isize) -> (address: Result<usize, FaultKind>)
        ensures
            address == resolve_address(*self, relative_base),
    {
        match *self {
            Parameter::Position(position) => Ok(position),
            Parameter::Relative(offset) => match relative_base.checked_add(offset) {
                None => Err(FaultKind::Overflow),
                Some(sum) => if sum < 0 {
                    Err(FaultKind::NegativeAddress { address: sum })
                } else {
                    Ok(sum as usize)
                },
            },
            Parameter::Immediate(_) => Err(FaultKind::ImmediateWriteTarget),
        }
    }
}

/// The two arithmetic operations.
#[derive(Debug, Clone, Copy, PartialEq, Eq, Structural)]
pub enum Op {
    Add,
    Multiply,
}

/// When a conditional jump is taken.
#[derive(Debug, Clone, Copy, PartialEq, Eq, Structural)]
pub enum JumpCondition {
    IfTrue,
    IfFalse,
}

/// The two comparisons.
#[derive(Debug, Clone, Copy, PartialEq, Eq, Structural)]
pub enum ComparisonOp {
    LessThan,
    Equal,
}

/// One decoded instruction: the operation and its operands.
#[derive(Debug, Clone, Copy, PartialEq, Eq, Structural)]
pub enum Instruction {
    /// Stores the sum or the product of the first two operands at the third.
    Op(Op, Parameter, Parameter, Parameter),
    /// Stores the next input value at the operand.
    Input(Parameter),
    /// Appends the operand's value to the outputs.
    Output(Parameter),
    /// Sets the program counter to the second operand if the first fits the condition.
    ConditionalJump(JumpCondition, Parameter, Parameter),
    /// Stores 1 at the third operand if the comparison of the first two holds, else 0.
    Compare(ComparisonOp, Parameter, Parameter, Parameter),
    /// Adds the operand's value to the relative base.
    RelativeBaseAdjust(Parameter),
    /// Stops the machine for good.
    Halt,
}

/// The mode digit of operand 1, 2 or 3: the hundreds, thousands or
/// ten-thousands digit of a non-negative opcode.
pub open spec fn mode_digit(opcode: isize, operand: int) -> int {
    if operand == 1 {
        (opcode / 100) % 10
    } else if operand == 2 {
        (opcode / 1000) % 10
    } else {
        (opcode / 10000) % 10
    }
}

/// How many operands follow an operation code.
pub open spec fn operand_count(code: int) -> int {
    if code == 1 || code == 2 || code == 7 || code == 8 {
        3
    } else if code == 5 || code == 6 {
        2
    } else if code == 3 || code == 4 || code == 9 {
        1
    } else {
        0
    }
}

/// The instruction that starts with `cells[0]`, its operands taken from the
/// cells that follow. The operation code is the opcode modulo 100. Operands
/// are decoded first to last; the first that cannot be decoded decides the error.
pub open spec fn decode(cells: Seq<isize>) -> Result<Instruction, FaultKind> {
    let opcode = cells[0];
    let code = opcode % 100;
    if opcode < 0 || !(1 <= code <= 9 || code == 99) {
        Err(FaultKind::UnsupportedOpcode)
    } else if code == 99 {
        Ok(Instruction::Halt)
    } else {
        let first = if code == 3 {
            spec_target(mode_digit(opcode, 1), cells[1])
        } else {
            spec_parameter(mode_digit(opcode, 1), cells[1])
        };
        match first {
            Err(kind) => Err(kind),
            Ok(a) => if code == 3 {
                Ok(Instruction::Input(a))
            } else if code == 4 {
                Ok(Instruction::Output(a))
            } else if code == 9 {
                Ok(Instruction::RelativeBaseAdjust(a))
            } else {
                match spec_parameter(mode_digit(opcode, 2), cells[2]) {
                    Err(kind) => Err(kind),
                    Ok(b) => if code == 5 {
                        Ok(Instruction::ConditionalJump(JumpCondition::IfTrue, a, b))
                    } else if code == 6 {
                        Ok(Instruction::ConditionalJump(JumpCondition::IfFalse, a, b))
                    } else {
                        match spec_target(mode_digit(opcode, 3), cells[3]) {
                            Err(kind) => Err(kind),
                            Ok(c) => if code == 1 {
                                Ok(Instruction::Op(Op::Add, a, b, c))
                            } else if code == 2 {
                                Ok(Instruction::Op(Op::Multiply, a, b, c))
                            } else if code == 7 {
                                Ok(Instruction::Compare(ComparisonOp::LessThan, a, b, c))
                            } else {
                                Ok(Instruction::Compare(ComparisonOp::Equal, a, b, c))
                            },
                        }
                    },
                }
            },
        }
    }
}

impl Instruction {
    /// Number of cells that the instruction occupies, its opcode included.
    pub open spec fn spec_length(&self) -> usize {
        match self {
            Instruction::Op(_, _, _, _) | Instruction::Compare(_, _, _, _) => 4,
            Instruction::ConditionalJump(_, _, _) => 3,
            Instruction::Input(_) | Instruction::Output(_) | Instruction::RelativeBaseAdjust(_) => 2,
            Instruction::Halt => 1,
        }
    }

    /// Number of cells that the instruction occupies, its opcode included.
    #[verifier::when_used_as_spec(spec_length)]
    pub fn length(&self) -> (cells: usize)
        ensures
            cells == self.spec_length(),
    {
        match self {
            Instruction::Op(_, _, _, _) | Instruction::Compare(_, _, _, _) => 4,
            Instruction::ConditionalJump(_, _, _) => 3,
            Instruction::Input(_) | Instruction::Output(_) | Instruction::RelativeBaseAdjust(_) => 2,
            Instruction::Halt => 1,
        }
    }

    /// Decodes the instruction whose opcode is `input[0]`.
    pub fn parse(input: &[isize]) -> (instruction: Result<Self, FaultKind>)
        requires
            input@.len() >= 1,
            input@[0] >= 0 ==> input@.len() > operand_count((input@[0] % 100) as int),
        ensures
            instruction == decode(input@),
            instruction matches Ok(decoded) ==> decoded.length() == 1 + operand_count(
                (input@[0] % 100) as int,
            ),
    {
        let opcode = input[0];
        if opcode < 0 {
            return Err(FaultKind::UnsupportedOpcode);
        }
        let code = opcode % 100;
        let hundreds_digit = ((opcode / 100) % 10) as usize;
        let thousands_digit = ((opcode / 1000) % 10) as usize;
        let ten_thousands_digit = ((opcode / 10000) % 10) as usize;
        if code == 99 {
            Ok(Instruction::Halt)
        } else if code == 3 {
            match Parameter::target(hundreds_digit, input[1]) {
                Ok(a) => Ok(Instruction::Input(a)),
                Err(kind) => Err(kind),
            }
        } else if code == 4 || code == 9 {
            match Parameter::new(hundreds_digit, input[1]) {
                Ok(a) => Ok(
                    if code == 4 {
                        Instruction::Output(a)
                    } else {
                        Instruction::RelativeBaseAdjust(a)
                    },
                ),
                Err(kind) => Err(kind),
            }
        } else if code == 5 || code == 6 {
            let a = match Parameter::new(hundreds_digit, input[1]) {
                Ok(a) => a,
                Err(kind) => { return Err(kind); },
            };
            let b = match Parameter::new(thousands_digit, input[2]) {
                Ok(b) => b,
                Err(kind) => { return Err(kind); },
            };
            let condition = if code == 5 {
                JumpCondition::IfTrue
            } else {
                JumpCondition::IfFalse
            };
            Ok(Instruction::ConditionalJump(condition, a, b))
        } else if code == 1 || code == 2 || code == 7 || code == 8 {
            let a = match Parameter::new(hundreds_digit, input[1]) {
                Ok(a) => a,
                Err(kind) => { return Err(kind); },
            };
            let b = match Parameter::new(thousands_digit, input[2]) {
                Ok(b) => b,
                Err(kind) => { return Err(kind); },
            };
            let c = match Parameter::target(ten_thousands_digit, input[3]) {
                Ok(c) => c,
                Err(kind) => { return Err(kind); },
            };
            if code == 1 {
                Ok(Instruction::Op(Op::Add, a, b, c))
            } else if code == 2 {
                Ok(Instruction::Op(Op::Multiply, a, b, c))
            } else if code == 7 {
                Ok(Instruction::Compare(ComparisonOp::LessThan, a, b, c))
            } else {
                Ok(Instruction::Compare(ComparisonOp::Equal, a, b, c))
            }
        } else {
            Err(FaultKind::UnsupportedOpcode)
        }
    }
}

/// How one instruction, or a run, ended.
#[derive(Debug, Clone, Copy, PartialEq, Eq, Structural)]
pub enum ExecutionState {
    /// The machine has executed a halt instruction.
    Halt,
    /// The machine has suspended and can be resumed.
    Pause,
    /// The machine is ready for its next instruction.
    Continue,
}

/// Number of cells that the memory of a freshly built computer holds at least.
pub const INITIAL_MEMORY_SIZE: usize = 10_000;

/// The meaning of a program as memory contents: its cells in order, and zero
/// at every other address.
pub open spec fn program_image(program: Seq<isize>) -> Map<int, isize> {
    Map::total(|address: int| if 0 <= address < program.len() { program[address] } else { 0isize })
}

/// Zero-initialised memory that extends itself when an address beyond its
/// current length is touched.
pub struct GrowableMemory {
    storage: Vec<isize>,
}

impl View for GrowableMemory {
    type V = Map<int, isize>;

    /// The value of every address: what was stored there, or zero.
    closed spec fn view(&self) -> Map<int, isize> {
        program_image(self.storage@)
    }
}

impl GrowableMemory {
    /// Memory that holds `program` from address zero on and zero elsewhere,
    /// with room for at least `initial_size` cells.
    pub fn new(program: Vec<isize>, initial_size: usize) -> (memory: Self)
        ensures
            memory@ == program_image(program@),
            memory.spec_len() >= initial_size,
            memory.spec_len() >= program@.len(),
    {
        let mut storage = program;
        if storage.len() < initial_size {
            storage.resize(initial_size, 0);
        }
        let memory = GrowableMemory { storage };
        memory
    }

    /// Number of cells currently allocated.
    pub closed spec fn spec_len(&self) -> nat {
        self.storage@.len()
    }

    /// Number of cells currently allocated.
    pub fn len(&self) -> (n: usize)
        ensures
            n == self.spec_len(),
    {
        self.storage.len()
    }

    /// The value at `address`. Growth never changes what any address holds.
    pub fn read(&mut self, address: usize) -> (value: isize)
        ensures
            value == old(self)@[address as int],
            final(self)@ == old(self)@,
            final(self).spec_len() >= old(self).spec_len(),
            address < usize::MAX ==> final(self).spec_len() > address,
    {
        if address < self.storage.len() {
            self.storage[address]
        } else {
            if address < usize::MAX {
                self.grow(address);
            }
            0
        }
    }

    /// Stores `value` at `address` and leaves every other address as it was.
    pub fn write(&mut self, address: usize, value: isize)
        requires
            address < usize::MAX,
        ensures
            final(self)@ == old(self)@.insert(address as int, value),
            final(self).spec_len() >= old(self).spec_len(),
            final(self).spec_len() > address,
    {
        if address >= self.storage.len() {
            self.grow(address);
        }
        self.storage[address] = value;
    }

    /// The four cells from `address` on: an instruction and its operands.
    pub fn read_instruction(&mut self, address: usize) -> (cells: [isize; 4])
        ensures
            cells@ == fetch(old(self)@, address),
            final(self)@ == old(self)@,
    {
        let opcode = self.read(address);
        let first = match address.checked_add(1) {
            Some(next) => self.read(next),
            None => 0,
        };
        let second = match address.checked_add(2) {
            Some(next) => self.read(next),
            None => 0,
        };
        let third = match address.checked_add(3) {
            Some(next) => self.read(next),
            None => 0,
        };
        let cells = [opcode, first, second, third];
        proof {
            self.lemma_zero_beyond_range(address + 1);
            self.lemma_zero_beyond_range(address + 2);
            self.lemma_zero_beyond_range(address + 3);
        }
        cells
    }

    /// The value that `parameter` stands for.
    pub fn value(&mut self, parameter: &Parameter, relative_base: isize) -> (value: Result<
        isize,
        FaultKind,
    >)
        ensures
            value == resolve_value(*parameter, old(self)@, relative_base),
            final(self)@ == old(self)@,
    {
        match *parameter {
            Parameter::Immediate(value) => Ok(value),
            Parameter::Position(position) => Ok(self.read(position)),
            Parameter::Relative(_) => match parameter.address(relative_base) {
                Ok(address) => Ok(self.read(address)),
                Err(kind) => Err(kind),
            },
        }
    }

    /// No address beyond the range of `usize` holds anything but zero.
    pub proof fn lemma_zero_beyond_range(&self, address: int)
        ensures
            address > usize::MAX ==> self@[address] == 0,
    {
        assert(self.storage@.len() == self.storage.len());
    }

    /// Extends the storage with zeros so that `address` lies inside it.
    fn grow(&mut self, address: usize)
        requires
            address < usize::MAX,
            address >= old(self).storage@.len(),
        ensures
            final(self).storage@.len() > address,
            final(self).storage@ =~= old(self).storage@ + Seq::new(
                (final(self).storage@.len() - old(self).storage@.len()) as nat,
                |i: int| 0isize,
            ),
    {
        let needed: usize = address + 1;
        let target: usize = match self.storage.len().checked_mul(2) {
            Some(doubled) => if doubled > needed { doubled } else { needed },
            None => needed,
        };
        self.storage.resize(target, 0);
    }
}

/// A source that the machine polls for its next input value.
///
/// A source is a value: what the next poll yields and what the source is
/// afterwards depend on the source alone. A caller that learns of new input
/// between two runs hands the machine a new source.
pub trait InputSource: Sized {
    /// What the next poll yields: a value, or none for now.
    spec fn pending(&self) -> Option<isize>;

    /// The source as it is once that poll has been made.
    spec fn polled(&self) -> Self;

    /// Polls the source.
    fn next_input(&mut self) -> (value: Option<isize>)
        ensures
            value == old(self).pending(),
            *final(self) == old(self).polled(),
    ;
}

/// A source that yields the same answer at every poll: one value, or none.
#[derive(Debug, Clone, Copy, PartialEq, Eq, Structural)]
pub struct ConstantInput {
    pub value: Option<isize>,
}

impl ConstantInput {
    /// A source that always yields `value`.
    pub fn new(value: isize) -> (source: Self)
        ensures
            source.value == Some(value),
    {
        ConstantInput { value: Some(value) }
    }

    /// A source that never has a value.
    pub fn empty() -> (source: Self)
        ensures
            source.value.is_none(),
    {
        ConstantInput { value: None }
    }
}

impl InputSource for ConstantInput {
    open spec fn pending(&self) -> Option<isize> {
        self.value
    }

    open spec fn polled(&self) -> Self {
        *self
    }

    fn next_input(&mut self) -> (value: Option<isize>) {
        self.value
    }
}

/// A source that yields the values of a queue in order, each once, and
/// has none when the queue is used up. Values can be added at any time.
pub struct QueueInput {
    values: Vec<isize>,
    next: usize,
}

impl QueueInput {
    /// The values that have not been yielded yet, in order.
    pub closed spec fn waiting(&self) -> Seq<isize> {
        if self.next <= self.values@.len() {
            self.values@.skip(self.next as int)
        } else {
            Seq::empty()
        }
    }

    /// A queue that holds `values`.
    pub fn new(values: Vec<isize>) -> (source: Self)
        ensures
            source.waiting() == values@,
    {
        let source = QueueInput { values, next: 0 };
        source
    }

    /// Adds a value behind those that wait.
    pub fn push(&mut self, value: isize)
        ensures
            final(self).waiting() == old(self).waiting().push(value),
    {
        if self.next > self.values.len() {
            self.next = self.values.len();
        }
        self.values.push(value);
    }

    /// What a queue yields next and what waits after that is what stands
    /// first among the waiting values and what follows it.
    pub proof fn lemma_polls(&self)
        ensures
            self.pending() == if self.waiting().len() > 0 {
                Some(self.waiting()[0])
            } else {
                None
            },
            self.polled().waiting() == if self.waiting().len() > 0 {
                self.waiting().drop_first()
            } else {
                self.waiting()
            },
    {
        if self.next < self.values@.len() {
            assert(self.values@.len() == self.values.len());
        }
    }
}

impl InputSource for QueueInput {
    closed spec fn pending(&self) -> Option<isize> {
        if self.next < self.values@.len() {
            Some(self.values@[self.next as int])
        } else {
            None
        }
    }

    closed spec fn polled(&self) -> Self {
        if self.next < self.values@.len() {
            QueueInput { values: self.values, next: (self.next + 1) as usize }
        } else {
            *self
        }
    }

    fn next_input(&mut self) -> (value: Option<isize>) {
        if self.next < self.values.len() {
            let value = self.values[self.next];
            self.next = self.next + 1;
            Some(value)
        } else {
            None
        }
    }
}

/// A source that yields one value first and then whatever another source yields.
pub struct InitialValueInput<I> {
    pub initial_value: isize,
    pub has_yielded_initial_value: bool,
    pub dynamic_value: I,
}

impl<I: InputSource> InputSource for InitialValueInput<I> {
    open spec fn pending(&self) -> Option<isize> {
        if self.has_yielded_initial_value {
            self.dynamic_value.pending()
        } else {
            Some(self.initial_value)
        }
    }

    open spec fn polled(&self) -> Self {
        if self.has_yielded_initial_value {
            InitialValueInput {
                initial_value: self.initial_value,
                has_yielded_initial_value: true,
                dynamic_value: self.dynamic_value.polled(),
            }
        } else {
            InitialValueInput {
                initial_value: self.initial_value,
                has_yielded_initial_value: true,
                dynamic_value: self.dynamic_value,
            }
        }
    }

    fn next_input(&mut self) -> (value: Option<isize>) {
        if self.has_yielded_initial_value {
            self.dynamic_value.next_input()
        } else {
            self.has_yielded_initial_value = true;
            Some(self.initial_value)
        }
    }
}

/// A source that yields `initial_value` at its first poll and asks
/// `dynamic_value` from then on.
pub fn input_with_initial_value<I: InputSource>(initial_value: isize, dynamic_value: I) -> (source:
    InitialValueInput<I>)
    ensures
        source.initial_value == initial_value,
        !source.has_yielded_initial_value,
        source.dynamic_value == dynamic_value,
        source.pending() == Some(initial_value),
        source.polled().pending() == dynamic_value.pending(),
{
    InitialValueInput { initial_value, has_yielded_initial_value: false, dynamic_value }
}

/// The state of a machine: the model that the contracts of `Computer` speak of.
#[verifier::ext_equal]
pub struct Machine<I> {
    /// The value of every address.
    pub memory: Map<int, isize>,
    /// The program counter.
    pub ip: usize,
    pub relative_base: isize,
    /// Everything that output instructions have produced, oldest first.
    pub outputs: Seq<isize>,
    pub halted: bool,
    /// The input source, if one is set.
    pub input: Option<I>,
}

/// What a poll of the machine's input yields: none where no source is set.
pub open spec fn poll_value<I: InputSource>(input: Option<I>) -> Option<isize> {
    match input {
        Some(source) => source.pending(),
        None => None,
    }
}

/// The machine's input after a poll.
pub open spec fn poll_source<I: InputSource>(input: Option<I>) -> Option<I> {
    match input {
        Some(source) => Some(source.polled()),
        None => None,
    }
}

/// The four cells that start at the program counter.
pub open spec fn fetch(memory: Map<int, isize>, ip: usize) -> Seq<isize> {
    seq![memory[ip as int], memory[ip + 1], memory[ip + 2], memory[ip + 3]]
}

/// The result of an arithmetic operation, where it fits a machine word.
pub open spec fn arithmetic(op: Op, a: isize, b: isize) -> Option<isize> {
    let exact = match op {
        Op::Add => a + b,
        Op::Multiply => a * b,
    };
    if isize::MIN <= exact <= isize::MAX {
        Some(exact as isize)
    } else {
        None
    }
}

/// The result of a comparison: 1 where it holds, 0 where it does not.
pub open spec fn comparison(op: ComparisonOp, a: isize, b: isize) -> isize {
    let holds = match op {
        ComparisonOp::LessThan => a < b,
        ComparisonOp::Equal => a == b,
    };
    if holds {
        1
    } else {
        0
    }
}

/// Whether a conditional jump is taken for this value of its first operand.
pub open spec fn jump_taken(condition: JumpCondition, a: isize) -> bool {
    match condition {
        JumpCondition::IfTrue => a != 0,
        JumpCondition::IfFalse => a == 0,
    }
}

impl<I: InputSource> Machine<I> {
    /// A machine that has just been loaded with `program`.
    pub open spec fn load(program: Seq<isize>, input: Option<I>) -> Self {
        Machine {
            memory: program_image(program),
            ip: 0,
            relative_base: 0,
            outputs: Seq::empty(),
            halted: false,
            input,
        }
    }

    /// The fault of the given kind at the current instruction.
    pub open spec fn fault(self, kind: FaultKind) -> Fault {
        Fault { kind, opcode: self.memory[self.ip as int], ip: self.ip }
    }

    /// The machine stopped by a fault: nothing changes.
    pub open spec fn fail(self, kind: FaultKind) -> (Self, Result<ExecutionState, Fault>) {
        (self, Err(self.fault(kind)))
    }

    /// The machine after `value` is stored at `target` and the program
    /// counter has moved on by `length` cells.
    pub open spec fn store(self, target: Parameter, value: isize, length: usize) -> (
        Self,
        Result<ExecutionState, Fault>,
    ) {
        match resolve_address(target, self.relative_base) {
            Err(kind) => self.fail(kind),
            Ok(address) => if address >= usize::MAX || self.ip + length > usize::MAX {
                self.fail(FaultKind::Overflow)
            } else {
                (
                    Machine {
                        memory: self.memory.insert(address as int, value),
                        ip: (self.ip + length) as usize,
                        ..self
                    },
                    Ok(ExecutionState::Continue),
                )
            },
        }
    }

    /// The machine after one instruction, and how the instruction ended.
    ///
    /// A fault leaves the machine as it was, except that an input instruction
    /// has polled the source before its target is resolved. An input
    /// instruction that finds no value pauses without moving the program
    /// counter. An output instruction pauses after it has moved the program
    /// counter, where `stop_on_output` is set. No other instruction pauses.
    pub open spec fn execute(self, instruction: Instruction, stop_on_output: bool) -> (
        Self,
        Result<ExecutionState, Fault>,
    ) {
        match instruction {
            Instruction::Op(op, a, b, c) => match (
                resolve_value(a, self.memory, self.relative_base),
                resolve_value(b, self.memory, self.relative_base),
            ) {
                (Err(kind), _) => self.fail(kind),
                (Ok(_), Err(kind)) => self.fail(kind),
                (Ok(x), Ok(y)) => match arithmetic(op, x, y) {
                    None => match resolve_address(c, self.relative_base) {
                        Err(kind) => self.fail(kind),
                        Ok(_) => self.fail(FaultKind::Overflow),
                    },
                    Some(result) => self.store(c, result, 4),
                },
            },
            Instruction::Compare(op, a, b, c) => match (
                resolve_value(a, self.memory, self.relative_base),
                resolve_value(b, self.memory, self.relative_base),
            ) {
                (Err(kind), _) => self.fail(kind),
                (Ok(_), Err(kind)) => self.fail(kind),
                (Ok(x), Ok(y)) => self.store(c, comparison(op, x, y), 4),
            },
            Instruction::ConditionalJump(condition, a, b) => match (
                resolve_value(a, self.memory, self.relative_base),
                resolve_value(b, self.memory, self.relative_base),
            ) {
                (Err(kind), _) => self.fail(kind),
                (Ok(_), Err(kind)) => self.fail(kind),
                (Ok(x), Ok(y)) => if jump_taken(condition, x) {
                    if y < 0 {
                        self.fail(FaultKind::NegativeAddress { address: y })
                    } else {
                        (Machine { ip: y as usize, ..self }, Ok(ExecutionState::Continue))
                    }
                } else if self.ip + 3 > usize::MAX {
                    self.fail(FaultKind::Overflow)
                } else {
                    (Machine { ip: (self.ip + 3) as usize, ..self }, Ok(ExecutionState::Continue))
                },
            },
            Instruction::Input(a) => {
                let after_poll = Machine { input: poll_source(self.input), ..self };
                match poll_value(self.input) {
                    None => (after_poll, Ok(ExecutionState::Pause)),
                    Some(value) => after_poll.store(a, value, 2),
                }
            },
            Instruction::Output(a) => match resolve_value(a, self.memory, self.relative_base) {
                Err(kind) => self.fail(kind),
                Ok(value) => if self.ip + 2 > usize::MAX {
                    self.fail(FaultKind::Overflow)
                } else {
                    (
                        Machine {
                            outputs: self.outputs.push(value),
                            ip: (self.ip + 2) as usize,
                            ..self
                        },
                        Ok(
                            if stop_on_output {
                                ExecutionState::Pause
                            } else {
                                ExecutionState::Continue
                            },
                        ),
                    )
                },
            },
            Instruction::RelativeBaseAdjust(a) => match resolve_value(
                a,
                self.memory,
                self.relative_base,
            ) {
                Err(kind) => self.fail(kind),
                Ok(value) => if self.relative_base + value > isize::MAX || self.relative_base
                    + value < isize::MIN || self.ip + 2 > usize::MAX {
                    self.fail(FaultKind::Overflow)
                } else {
                    (
                        Machine {
                            relative_base: (self.relative_base + value) as isize,
                            ip: (self.ip + 2) as usize,
                            ..self
                        },
                        Ok(ExecutionState::Continue),
                    )
                },
            },
            Instruction::Halt => (Machine { halted: true, ..self }, Ok(ExecutionState::Halt)),
        }
    }

    /// One fetch-decode-execute cycle. A halted machine stays as it is.
    pub open spec fn step(self, stop_on_output: bool) -> (Self, Result<ExecutionState, Fault>) {
        if self.halted {
            (self, Ok(ExecutionState::Halt))
        } else {
            match decode(fetch(self.memory, self.ip)) {
                Err(kind) => self.fail(kind),
                Ok(instruction) => self.execute(instruction, stop_on_output),
            }
        }
    }

    /// Up to `cycles` cycles: the machine stops early at the first cycle
    /// that does not end in `Continue`. The result is `Continue` only where
    /// all `cycles` cycles ended so.
    pub open spec fn run(self, stop_on_output: bool, cycles: nat) -> (
        Self,
        Result<ExecutionState, Fault>,
    )
        decreases cycles,
    {
        if cycles == 0 {
            (self, Ok(ExecutionState::Continue))
        } else {
            let (next, result) = self.step(stop_on_output);
            if result == Ok::<ExecutionState, Fault>(ExecutionState::Continue) {
                next.run(stop_on_output, (cycles - 1) as nat)
            } else {
                (next, result)
            }
        }
    }
}

/// The largest number of instructions that one run executes.
pub const CYCLE_LIMIT: u64 = 0xffff_ffff_ffff_ffff;

/// The virtual machine: memory, registers, outputs and an input source.
pub struct Computer<I: InputSource> {
    input: Option<I>,
    outputs: Vec<isize>,
    program: GrowableMemory,
    did_halt: bool,
    ip: usize,
    relative_base: isize,
}

impl<I: InputSource> View for Computer<I> {
    type V = Machine<I>;

    closed spec fn view(&self) -> Machine<I> {
        Machine {
            memory: self.program@,
            ip: self.ip,
            relative_base: self.relative_base,
            outputs: self.outputs@,
            halted: self.did_halt,
            input: self.input,
        }
    }
}

impl<I: InputSource> Computer<I> {
    /// A computer loaded with `program`, with no input source.
    pub fn new(program: Vec<isize>) -> (computer: Self)
        ensures
            computer@ == Machine::<I>::load(program@, None),
    {
        Computer {
            input: None,
            outputs: Vec::new(),
            program: GrowableMemory::new(program, INITIAL_MEMORY_SIZE),
            did_halt: false,
            ip: 0,
            relative_base: 0,
        }
    }

    /// A computer loaded with `program` that polls `input`.
    pub fn with_input(program: Vec<isize>, input: I) -> (computer: Self)
        ensures
            computer@ == Machine::load(program@, Some(input)),
    {
        Computer {
            input: Some(input),
            outputs: Vec::new(),
            program: GrowableMemory::new(program, INITIAL_MEMORY_SIZE),
            did_halt: false,
            ip: 0,
            relative_base: 0,
        }
    }

    /// Whether the machine has executed a halt instruction.
    pub fn is_halted(&self) -> (halted: bool)
        ensures
            halted == self@.halted,
    {
        self.did_halt
    }

    /// Replaces the input source. Nothing else changes.
    pub fn set_input(&mut self, input: I)
        ensures
            final(self)@ == (Machine { input: Some(input), ..old(self)@ }),
    {
        self.input = Some(input);
    }

    /// Takes the input source out of the machine. Nothing else changes.
    pub fn take_input(&mut self) -> (input: Option<I>)
        ensures
            input == old(self)@.input,
            final(self)@ == (Machine { input: None, ..old(self)@ }),
    {
        self.input.take()
    }

    /// Runs until the machine halts, pauses or faults, for at most
    /// `CYCLE_LIMIT` instructions. The result is `Continue` only where that
    /// limit was reached.
    pub fn run_until_halt_or_paused(&mut self, stop_on_output: bool) -> (result: Result<
        ExecutionState,
        Fault,
    >)
        ensures
            (final(self)@, result) == old(self)@.run(stop_on_output, CYCLE_LIMIT as nat),
            old(self)@.outputs.is_prefix_of(final(self)@.outputs),
            stop_on_output ==> old(self)@.grew_by_at_most_one(final(self)@.outputs),
            old(self)@.halted ==> final(self)@ == old(self)@ && result == Ok::<
                ExecutionState,
                Fault,
            >(ExecutionState::Halt),
            old(self)@.waits_for_input() ==> final(self)@ == old(self)@.with_source(
                poll_source(old(self)@.input),
            ) && result == Ok::<ExecutionState, Fault>(ExecutionState::Pause),
    {
        self.run_cycles(stop_on_output, CYCLE_LIMIT)
    }

    /// Runs until the machine halts, pauses or faults, for at most `cycles`
    /// instructions. The result is `Continue` only where all of them ran.
    pub fn run_cycles(&mut self, stop_on_output: bool, cycles: u64) -> (result: Result<
        ExecutionState,
        Fault,
    >)
        ensures
            (final(self)@, result) == old(self)@.run(stop_on_output, cycles as nat),
            old(self)@.outputs.is_prefix_of(final(self)@.outputs),
            stop_on_output ==> old(self)@.grew_by_at_most_one(final(self)@.outputs),
    {
        proof {
            lemma_outputs_append_only(old(self)@, stop_on_output, cycles as nat);
            if stop_on_output {
                lemma_pause_on_output_granularity(old(self)@, cycles as nat);
            }
        }
        let mut remaining: u64 = cycles;
        while remaining > 0
            invariant
                old(self)@.run(stop_on_output, cycles as nat) == self@.run(
                    stop_on_output,
                    remaining as nat,
                ),
                old(self)@.outputs.is_prefix_of(
                    old(self)@.run(stop_on_output, cycles as nat).0.outputs,
                ),
                stop_on_output ==> old(self)@.grew_by_at_most_one(
                    old(self)@.run(stop_on_output, cycles as nat).0.outputs,
                ),
            decreases remaining,
        {
            let result = self.step(stop_on_output);
            match result {
                Ok(ExecutionState::Continue) => {},
                _ => {
                    return result;
                },
            }
            remaining = remaining - 1;
        }
        Ok(ExecutionState::Continue)
    }

    /// One fetch-decode-execute cycle.
    pub fn step(&mut self, stop_on_output: bool) -> (result: Result<ExecutionState, Fault>)
        ensures
            (final(self)@, result) == old(self)@.step(stop_on_output),
    {
        if self.did_halt {
            return Ok(ExecutionState::Halt);
        }
        let cells = self.program.read_instruction(self.ip);
        match Instruction::parse(cells.as_slice()) {
            Ok(instruction) => self.execute_instruction(&instruction, stop_on_output),
            Err(kind) => Err(Fault { kind, opcode: cells[0], ip: self.ip }),
        }
    }

    /// The most recent output, if there is one.
    pub fn last_output(&self) -> (output: Option<isize>)
        ensures
            output == if self@.outputs.len() == 0 {
                None
            } else {
                Some(self@.outputs.last())
            },
    {
        if self.outputs.len() == 0 {
            None
        } else {
            Some(self.outputs[self.outputs.len() - 1])
        }
    }

    /// Everything that the machine has output so far, oldest first.
    pub fn all_outputs(&self) -> (outputs: &[isize])
        ensures
            outputs@ == self@.outputs,
    {
        self.outputs.as_slice()
    }

    /// The machine's memory, for reading and patching.
    pub fn memory(&mut self) -> (memory: &mut GrowableMemory)
        ensures
            memory@ == old(self)@.memory,
            final(self)@ == (Machine { memory: final(memory)@, ..old(self)@ }),
    {
        &mut self.program
    }

    /// Polls the input source, if there is one.
    fn read_input(&mut self) -> (value: Option<isize>)
        ensures
            value == poll_value(old(self)@.input),
            final(self)@ == (Machine { input: poll_source(old(self)@.input), ..old(self)@ }),
    {
        match &mut self.input {
            Some(source) => source.next_input(),
            None => None,
        }
    }

    /// The fault of the given kind at the current instruction.
    fn fault(&mut self, kind: FaultKind) -> (fault: Fault)
        ensures
            fault == old(self)@.fault(kind),
            final(self)@ == old(self)@,
    {
        Fault { kind, opcode: self.program.read(self.ip), ip: self.ip }
    }

    /// Stores `value` at `target` and moves the program counter on.
    fn store(&mut self, target: &Parameter, value: isize, length: usize) -> (result: Result<
        ExecutionState,
        Fault,
    >)
        ensures
            (final(self)@, result) == old(self)@.store(*target, value, length),
    {
        match target.address(self.relative_base) {
            Err(kind) => Err(self.fault(kind)),
            Ok(address) => match self.ip.checked_add(length) {
                Some(next) if address < usize::MAX => {
                    self.program.write(address, value);
                    self.ip = next;
                    Ok(ExecutionState::Continue)
                },
                _ => Err(self.fault(FaultKind::Overflow)),
            },
        }
    }

    /// Applies one decoded instruction to the machine.
    pub fn execute_instruction(&mut self, instruction: &Instruction, stop_on_output: bool) -> (result:
        Result<ExecutionState, Fault>)
        ensures
            (final(self)@, result) == old(self)@.execute(*instruction, stop_on_output),
    {
        let relative_base = self.relative_base;
        match instruction {
            Instruction::Op(op, arg1, arg2, arg3) => {
                let a1 = match self.program.value(arg1, relative_base) {
                    Ok(value) => value,
                    Err(kind) => { return Err(self.fault(kind)); },
                };
                let a2 = match self.program.value(arg2, relative_base) {
                    Ok(value) => value,
                    Err(kind) => { return Err(self.fault(kind)); },
                };
                let result = match op {
                    Op::Add => a1.checked_add(a2),
                    Op::Multiply => a1.checked_mul(a2),
                };
                match result {
                    Some(value) => self.store(arg3, value, 4),
                    None => match arg3.address(relative_base) {
                        Err(kind) => Err(self.fault(kind)),
                        Ok(_) => Err(self.fault(FaultKind::Overflow)),
                    },
                }
            },
            Instruction::ConditionalJump(condition, arg1, arg2) => {
                let a1 = match self.program.value(arg1, relative_base) {
                    Ok(value) => value,
                    Err(kind) => { return Err(self.fault(kind)); },
                };
                let a2 = match self.program.value(arg2, relative_base) {
                    Ok(value) => value,
                    Err(kind) => { return Err(self.fault(kind)); },
                };
                let taken = match condition {
                    JumpCondition::IfTrue => a1 != 0,
                    JumpCondition::IfFalse => a1 == 0,
                };
                if taken {
                    if a2 < 0 {
                        Err(self.fault(FaultKind::NegativeAddress { address: a2 }))
                    } else {
                        self.ip = a2 as usize;
                        Ok(ExecutionState::Continue)
                    }
                } else {
                    match self.ip.checked_add(3) {
                        Some(next) => {
                            self.ip = next;
                            Ok(ExecutionState::Continue)
                        },
                        None => Err(self.fault(FaultKind::Overflow)),
                    }
                }
            },
            Instruction::Compare(op, arg1, arg2, arg3) => {
                let a1 = match self.program.value(arg1, relative_base) {
                    Ok(value) => value,
                    Err(kind) => { return Err(self.fault(kind)); },
                };
                let a2 = match self.program.value(arg2, relative_base) {
                    Ok(value) => value,
                    Err(kind) => { return Err(self.fault(kind)); },
                };
                let holds = match op {
                    ComparisonOp::LessThan => a1 < a2,
                    ComparisonOp::Equal => a1 == a2,
                };
                self.store(arg3, if holds { 1 } else { 0 }, 4)
            },
            Instruction::Input(arg1) => {
                match self.read_input() {
                    None => Ok(ExecutionState::Pause),
                    Some(input) => self.store(arg1, input, 2),
                }
            },
            Instruction::Output(arg1) => {
                let a1 = match self.program.value(arg1, relative_base) {
                    Ok(value) => value,
                    Err(kind) => { return Err(self.fault(kind)); },
                };
                match self.ip.checked_add(2) {
                    Some(next) => {
                        self.outputs.push(a1);
                        self.ip = next;
                        if stop_on_output {
                            Ok(ExecutionState::Pause)
                        } else {
                            Ok(ExecutionState::Continue)
                        }
                    },
                    None => Err(self.fault(FaultKind::Overflow)),
                }
            },
            Instruction::RelativeBaseAdjust(arg1) => {
                let a1 = match self.program.value(arg1, relative_base) {
                    Ok(value) => value,
                    Err(kind) => { return Err(self.fault(kind)); },
                };
                match (relative_base.checked_add(a1), self.ip.checked_add(2)) {
                    (Some(base), Some(next)) => {
                        self.relative_base = base;
                        self.ip = next;
                        Ok(ExecutionState::Continue)
                    },
                    _ => Err(self.fault(FaultKind::Overflow)),
                }
            },
            Instruction::Halt => {
                self.did_halt = true;
                Ok(ExecutionState::Halt)
            },
        }
    }
}

impl<I: InputSource> Machine<I> {
    /// Whether the machine stands at an input instruction and its source
    /// has no value for it.
    pub open spec fn waits_for_input(self) -> bool {
        &&& !self.halted
        &&& decode(fetch(self.memory, self.ip)) matches Ok(Instruction::Input(_))
        &&& poll_value(self.input) is None
    }

    /// The machine with another input and everything else as it is.
    pub open spec fn with_source(self, input: Option<I>) -> Self {
        Machine { input, ..self }
    }

    /// The machine after `calls` runs in a row, of at most `cycles` cycles each.
    pub open spec fn run_repeatedly(self, stop_on_output: bool, cycles: nat, calls: nat) -> Self
        decreases calls,
    {
        if calls == 0 {
            self
        } else {
            self.run(stop_on_output, cycles).0.run_repeatedly(
                stop_on_output,
                cycles,
                (calls - 1) as nat,
            )
        }
    }

    /// Whether `outputs` is what the machine had output, or that and one
    /// value more.
    pub open spec fn grew_by_at_most_one(self, outputs: Seq<isize>) -> bool {
        outputs == self.outputs || (outputs.len() == self.outputs.len() + 1 && outputs.drop_last()
            == self.outputs)
    }
}

/// The input after `polls` polls in a row.
pub open spec fn poll_repeatedly<I: InputSource>(input: Option<I>, polls: nat) -> Option<I>
    decreases polls,
{
    if polls == 0 {
        input
    } else {
        poll_repeatedly(poll_source(input), (polls - 1) as nat)
    }
}

/// Growing is transparent: a memory that was loaded with a program holds
/// the program's cells and zero everywhere else, however far away; a write
/// changes the address that it names, however far away, and no other.
pub proof fn lemma_memory_is_transparent(
    program: Seq<isize>,
    memory: Map<int, isize>,
    address: int,
    value: isize,
    other: int,
)
    ensures
        0 <= other < program.len() ==> program_image(program)[other] == program[other],
        other >= program.len() ==> program_image(program)[other] == 0,
        memory.insert(address, value)[address] == value,
        other != address && memory.contains_key(other) ==> memory.insert(address, value)[other]
            == memory[other],
{
}

/// A fault changes nothing but the input source, which an input
/// instruction has polled: program counter, memory, relative base and
/// outputs are as they were, and the machine has not halted.
pub proof fn lemma_fault_changes_nothing<I: InputSource>(machine: Machine<I>, stop_on_output: bool)
    requires
        machine.step(stop_on_output).1 is Err,
    ensures
        machine.step(stop_on_output).0.with_source(machine.input) == machine,
        machine.step(stop_on_output).1->Err_0.ip == machine.ip,
        machine.step(stop_on_output).1->Err_0.opcode == machine.memory[machine.ip as int],
{
}

/// A run of a halted machine changes nothing and reports the halt.
pub proof fn lemma_halted_run_is_idle<I: InputSource>(
    machine: Machine<I>,
    stop_on_output: bool,
    cycles: nat,
)
    requires
        machine.halted,
        cycles > 0,
    ensures
        machine.run(stop_on_output, cycles) == (machine, Ok::<ExecutionState, Fault>(
            ExecutionState::Halt,
        )),
{
}

/// A run of a machine that waits for input polls the source once, pauses,
/// and leaves program counter, memory, relative base and outputs as they were.
pub proof fn lemma_waiting_run_is_idle<I: InputSource>(
    machine: Machine<I>,
    stop_on_output: bool,
    cycles: nat,
)
    requires
        machine.waits_for_input(),
        cycles > 0,
    ensures
        machine.run(stop_on_output, cycles) == (
            machine.with_source(poll_source(machine.input)),
            Ok::<ExecutionState, Fault>(ExecutionState::Pause),
        ),
{
}

/// Suspending is idempotent: however often a machine that waits for input is
/// run while each poll of its source finds no value, only the source has been
/// polled; program counter, memory, relative base and outputs stay as they
/// were. So a source that is supplied afterwards meets the machine in the
/// state in which it first blocked, at the same input instruction.
pub proof fn lemma_suspend_resume<I: InputSource>(
    machine: Machine<I>,
    stop_on_output: bool,
    cycles: nat,
    calls: nat,
    supplied: I,
)
    requires
        machine.waits_for_input(),
        cycles > 0,
        forall|polls: nat| polls < calls ==> poll_value(#[trigger] poll_repeatedly(machine.input, polls)) is None,
    ensures
        machine.run_repeatedly(stop_on_output, cycles, calls) == machine.with_source(
            poll_repeatedly(machine.input, calls),
        ),
        machine.run_repeatedly(stop_on_output, cycles, calls).with_source(Some(supplied))
            == machine.with_source(Some(supplied)),
    decreases calls,
{
    if calls > 0 {
        let next = machine.with_source(poll_source(machine.input));
        assert forall|polls: nat| polls < calls - 1 implies poll_value(
            #[trigger] poll_repeatedly(next.input, polls),
        ) is None by {
            assert(poll_repeatedly(machine.input, polls + 1) == poll_repeatedly(next.input, polls));
        }
        if calls > 1 {
            assert(poll_repeatedly(machine.input, 1) == poll_repeatedly(next.input, 0));
            lemma_suspend_resume(next, stop_on_output, cycles, (calls - 1) as nat, supplied);
        }
        assert(poll_repeatedly(machine.input, calls) == poll_repeatedly(
            next.input,
            (calls - 1) as nat,
        ));
    }
}

/// A machine that waits for input and is given a source with a value
/// executes exactly that input instruction next: the value is stored at the
/// instruction's target and the program counter moves past it.
pub proof fn lemma_resume_executes_pending_input<I: InputSource>(
    machine: Machine<I>,
    stop_on_output: bool,
    supplied: I,
    value: isize,
)
    requires
        machine.waits_for_input(),
        supplied.pending() == Some(value),
    ensures
        decode(fetch(machine.memory, machine.ip)) matches Ok(Instruction::Input(target))
            && machine.with_source(Some(supplied)).step(stop_on_output) == machine.with_source(
            Some(supplied.polled()),
        ).store(target, value, 2),
{
}

/// There are two points of suspension and no other: a cycle pauses only at
/// an input instruction whose source has no value, and at an output
/// instruction where `stop_on_output` is set.
pub proof fn lemma_pause_points<I: InputSource>(machine: Machine<I>, stop_on_output: bool)
    requires
        machine.step(stop_on_output).1 == Ok::<ExecutionState, Fault>(ExecutionState::Pause),
    ensures
        !machine.halted,
        machine.waits_for_input() || (stop_on_output && decode(
            fetch(machine.memory, machine.ip),
        ) matches Ok(Instruction::Output(_))),
{
}

/// A run resumes where the run before it has left off: a run of as many
/// cycles as two runs together ends as the second of them does, unless the
/// first has ended before its cycles were spent.
pub proof fn lemma_run_resumes<I: InputSource>(
    machine: Machine<I>,
    stop_on_output: bool,
    first: nat,
    second: nat,
)
    ensures
        machine.run(stop_on_output, first + second) == if machine.run(stop_on_output, first).1
            == Ok::<ExecutionState, Fault>(ExecutionState::Continue) {
            machine.run(stop_on_output, first).0.run(stop_on_output, second)
        } else {
            machine.run(stop_on_output, first)
        },
    decreases first,
{
    if first > 0 {
        let (next, result) = machine.step(stop_on_output);
        if result == Ok::<ExecutionState, Fault>(ExecutionState::Continue) {
            lemma_run_resumes(next, stop_on_output, (first - 1) as nat, second);
            assert(machine.run(stop_on_output, first + second) == next.run(
                stop_on_output,
                (first + second - 1) as nat,
            ));
        }
    }
}

/// A machine whose source has the same value at every poll never pauses
/// unless it is asked to pause at its outputs, and its source stays as it is.
pub proof fn lemma_constant_input_never_pauses(machine: Machine<ConstantInput>, cycles: nat)
    requires
        machine.input matches Some(source) && source.value is Some,
    ensures
        machine.run(false, cycles).1 != Ok::<ExecutionState, Fault>(ExecutionState::Pause),
        machine.run(false, cycles).0.input == machine.input,
    decreases cycles,
{
    if cycles > 0 {
        let (next, result) = machine.step(false);
        if result == Ok::<ExecutionState, Fault>(ExecutionState::Continue) {
            lemma_constant_input_never_pauses(next, (cycles - 1) as nat);
        }
    }
}

/// The program that multiplies two literal numbers, stores the product
/// behind its own cells and outputs it.
pub open spec fn product_program(a: isize, b: isize) -> Seq<isize> {
    seq![1102isize, a, b, 7, 4, 7, 99, 0]
}

/// Large numbers: the program that multiplies two literal numbers outputs
/// their exact product and halts, whatever the numbers are, as long as a
/// machine word holds the product. The input source is never polled.
pub proof fn lemma_large_numbers<I: InputSource>(
    a: isize,
    b: isize,
    input: Option<I>,
    cycles: nat,
)
    requires
        isize::MIN <= a * b <= isize::MAX,
        cycles >= 3,
    ensures
        Machine::load(product_program(a, b), input).run(false, cycles).1 == Ok::<
            ExecutionState,
            Fault,
        >(ExecutionState::Halt),
        Machine::load(product_program(a, b), input).run(false, cycles).0.outputs == seq![
            (a * b) as isize,
        ],
        Machine::load(product_program(a, b), input).run(false, cycles).0.input == input,
{
    let machine = Machine::load(product_program(a, b), input);
    assert(decode(fetch(machine.memory, 0)) == Ok::<Instruction, FaultKind>(
        Instruction::Op(
            Op::Multiply,
            Parameter::Immediate(a),
            Parameter::Immediate(b),
            Parameter::Position(7),
        ),
    ));
    let (first, first_result) = machine.step(false);
    assert(first_result == Ok::<ExecutionState, Fault>(ExecutionState::Continue));
    assert(first.ip == 4 && first.memory[7] == a * b);
    assert(decode(fetch(first.memory, 4)) == Ok::<Instruction, FaultKind>(
        Instruction::Output(Parameter::Position(7)),
    ));
    let (second, second_result) = first.step(false);
    assert(second_result == Ok::<ExecutionState, Fault>(ExecutionState::Continue));
    assert(second.ip == 6);
    assert(second.outputs =~= seq![(a * b) as isize]);
    assert(decode(fetch(second.memory, 6)) == Ok::<Instruction, FaultKind>(Instruction::Halt));
    let (third, third_result) = second.step(false);
    assert(machine.run(false, cycles) == first.run(false, (cycles - 1) as nat));
    assert(first.run(false, (cycles - 1) as nat) == second.run(false, (cycles - 2) as nat));
    assert(second.run(false, (cycles - 2) as nat) == (third, third_result));
}

/// The program that outputs a literal number.
pub open spec fn literal_program(value: isize) -> Seq<isize> {
    seq![104isize, value, 99]
}

/// Immediate literal output: the program that outputs a literal number
/// outputs exactly that number and halts, whatever machine word the number is.
pub proof fn lemma_immediate_literal<I: InputSource>(value: isize, input: Option<I>, cycles: nat)
    requires
        cycles >= 2,
    ensures
        Machine::load(literal_program(value), input).run(false, cycles).1 == Ok::<
            ExecutionState,
            Fault,
        >(ExecutionState::Halt),
        Machine::load(literal_program(value), input).run(false, cycles).0.outputs == seq![value],
        Machine::load(literal_program(value), input).run(false, cycles).0.input == input,
{
    let machine = Machine::load(literal_program(value), input);
    assert(decode(fetch(machine.memory, 0)) == Ok::<Instruction, FaultKind>(
        Instruction::Output(Parameter::Immediate(value)),
    ));
    let (first, first_result) = machine.step(false);
    assert(first_result == Ok::<ExecutionState, Fault>(ExecutionState::Continue));
    assert(first.ip == 2);
    assert(first.outputs =~= seq![value]);
    assert(decode(fetch(first.memory, 2)) == Ok::<Instruction, FaultKind>(Instruction::Halt));
    let (second, second_result) = first.step(false);
    assert(machine.run(false, cycles) == first.run(false, (cycles - 1) as nat));
    assert(first.run(false, (cycles - 1) as nat) == (second, second_result));
}

/// One cycle appends at most one value to the outputs and changes none of
/// them; where it appends one while `stop_on_output` is set, it pauses.
pub proof fn lemma_step_outputs<I: InputSource>(machine: Machine<I>, stop_on_output: bool)
    ensures
        machine.grew_by_at_most_one(machine.step(stop_on_output).0.outputs),
        stop_on_output && machine.step(stop_on_output).0.outputs != machine.outputs
            ==> machine.step(stop_on_output).1 == Ok::<ExecutionState, Fault>(
            ExecutionState::Pause,
        ),
{
    let after = machine.step(stop_on_output).0;
    if after.outputs != machine.outputs {
        assert(after.outputs.drop_last() =~= machine.outputs);
    }
}

/// With pause on output a run appends at most one value to the outputs.
pub proof fn lemma_pause_on_output_granularity<I: InputSource>(machine: Machine<I>, cycles: nat)
    ensures
        machine.grew_by_at_most_one(machine.run(true, cycles).0.outputs),
    decreases cycles,
{
    if cycles > 0 {
        lemma_step_outputs(machine, true);
        let (next, result) = machine.step(true);
        if result == Ok::<ExecutionState, Fault>(ExecutionState::Continue) {
            lemma_pause_on_output_granularity(next, (cycles - 1) as nat);
        }
    }
}

/// Outputs are append-only: a run keeps what had been output, in order.
pub proof fn lemma_outputs_append_only<I: InputSource>(
    machine: Machine<I>,
    stop_on_output: bool,
    cycles: nat,
)
    ensures
        machine.outputs.is_prefix_of(machine.run(stop_on_output, cycles).0.outputs),
    decreases cycles,
{
    if cycles > 0 {
        let (next, result) = machine.step(stop_on_output);
        if result == Ok::<ExecutionState, Fault>(ExecutionState::Continue) {
            lemma_outputs_append_only(next, stop_on_output, (cycles - 1) as nat);
        }
    }
}

} // verus!
