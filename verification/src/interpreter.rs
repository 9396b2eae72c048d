//! The execution engine: a program, its tape and the two pointers.

use vstd::prelude::*;
use crate::instruction::Instruction;
use crate::machine::{
    blank, lemma_step_keeps_well_formed, lemma_stopped_run_stays, Machine, RuntimeError, Status,
    Step, Trace,
};
use crate::translator::CompiledCode;

verus! {

/// The number of cells of the tape that `Interpreter::new` starts with.
pub const MEMORY_INIT_ALLOCATE: usize = 1024;

/// The number of cells by which the tape of `Interpreter::new` grows.
pub const MEMORY_DYN_ALLOCATE: usize = 128;

/// A program under execution.
#[derive(Clone, Debug)]
pub struct Interpreter {
    memory: Vec<u8>,
    memory_pointer: usize,
    code: CompiledCode,
    instruction_pointer: usize,
    growth: usize,
}

impl View for Interpreter {
    type V = Machine;

    closed spec fn view(&self) -> Machine {
        Machine {
            code: self.code@,
            growth: self.growth as nat,
            tape: self.memory@,
            data_pointer: self.memory_pointer as int,
            instruction_pointer: self.instruction_pointer as int,
        }
    }
}

/// What a call of `Interpreter::run` did.
#[derive(Clone, Debug, PartialEq, Eq)]
pub struct Run {
    /// The bytes written out, in the order in which they were written.
    pub output: Vec<u8>,
    /// The number of input bytes taken.
    pub consumed: usize,
    /// How the run stands.
    pub status: Status,
}

/// A vector of `cells` zeros.
fn zeros(cells: usize) -> (tape: Vec<u8>)
    ensures
        tape@ == blank(cells as nat),
{
    let tape = vec![0u8; cells];
    tape
}

impl Interpreter {
    /// The state of the engine is one that a run can be in.
    pub open spec fn well_formed(&self) -> bool {
        self@.well_formed()
    }

    /// An engine at the start of `code`, on a blank tape of
    /// `MEMORY_INIT_ALLOCATE` cells that grows by `MEMORY_DYN_ALLOCATE`.
    pub fn new(code: CompiledCode) -> (interpreter: Interpreter)
        requires
            code.well_formed(),
        ensures
            interpreter.well_formed(),
            interpreter@ == Machine::fresh(
                code@,
                MEMORY_INIT_ALLOCATE as nat,
                MEMORY_DYN_ALLOCATE as nat,
            ),
    {
        Interpreter::with_tape(code, MEMORY_INIT_ALLOCATE, MEMORY_DYN_ALLOCATE)
    }

    /// An engine at the start of `code`, on a blank tape of `cells` cells
    /// that grows by `growth` cells at a time. Both must be positive: the
    /// data pointer always stands on a cell.
    pub fn with_tape(code: CompiledCode, cells: usize, growth: usize) -> (interpreter: Interpreter)
        requires
            code.well_formed(),
            cells > 0,
            growth > 0,
        ensures
            interpreter.well_formed(),
            interpreter@ == Machine::fresh(code@, cells as nat, growth as nat),
    {
        Interpreter {
            memory: zeros(cells),
            memory_pointer: 0,
            code,
            instruction_pointer: 0,
            growth,
        }
    }

    /// The tape.
    pub fn memory(&self) -> (tape: &Vec<u8>)
        ensures
            tape@ == self@.tape,
    {
        &self.memory
    }

    /// The data pointer.
    pub fn memory_pointer(&self) -> (pointer: usize)
        ensures
            pointer == self@.data_pointer,
    {
        self.memory_pointer
    }

    /// The instruction pointer.
    pub fn instruction_pointer(&self) -> (pointer: usize)
        ensures
            pointer == self@.instruction_pointer,
    {
        self.instruction_pointer
    }

    /// The program.
    pub fn code(&self) -> (code: &CompiledCode)
        ensures
            code@ == self@.code,
    {
        &self.code
    }

    /// The cell under the data pointer.
    pub fn current_memory(&self) -> (cell: u8)
        requires
            self.well_formed(),
        ensures
            cell == self@.cell(),
    {
        self.memory[self.memory_pointer]
    }

    /// The instruction that the next step executes.
    pub fn next_instruction(&self) -> (instruction: &Instruction)
        requires
            self.well_formed(),
            !self@.halted(),
        ensures
            *instruction == self@.instruction(),
    {
        &self.code.instructions()[self.instruction_pointer]
    }

    /// The instruction pointer is past the last instruction.
    pub fn is_halted(&self) -> (halted: bool)
        ensures
            halted == self@.halted(),
    {
        self.instruction_pointer >= self.code.len()
    }

    /// The next step is a `Read`, so it needs a byte of input.
    pub fn awaits_input(&self) -> (awaits: bool)
        ensures
            awaits == self@.awaits_input(),
    {
        match self.code.get(self.instruction_pointer) {
            Some(Instruction::Read) => true,
            _ => false,
        }
    }

    /// One step of the run. `input` is the byte that the input has to
    /// offer, if any; it is taken only when the step is a `Read`.
    pub fn step(&mut self, input: Option<u8>) -> (result: Result<Step, RuntimeError>)
        requires
            old(self).well_formed(),
        ensures
            final(self).well_formed(),
            final(self)@ == old(self)@.step(input).0,
            result == old(self)@.step(input).1,
    {
        proof {
            lemma_step_keeps_well_formed(self@, input);
        }
        if self.instruction_pointer >= self.code.len() {
            return Ok(Step::Halted);
        }
        let mut outcome = Step::Advanced;
        match *self.next_instruction() {
            Instruction::Right => right(self),
            Instruction::Left => match left(self) {
                Err(failure) => {
                    return Err(failure);
                },
                Ok(()) => {},
            },
            Instruction::Increment => increment(self),
            Instruction::Decrement => decrement(self),
            Instruction::Print => {
                outcome = Step::Emitted(output(self));
            },
            Instruction::Read => match self::input(self, input) {
                Err(failure) => {
                    return Err(failure);
                },
                Ok(()) => {},
            },
            Instruction::BeginLoop(loop_end) => {
                if self.current_memory() == 0 {
                    self.instruction_pointer = loop_end;
                }
            },
            Instruction::EndLoop(loop_start) => {
                if self.current_memory() != 0 {
                    self.instruction_pointer = loop_start;
                    return Ok(Step::Advanced);
                }
            },
        }
        self.instruction_pointer += 1;
        Ok(outcome)
    }

    /// Runs for at most `max_steps` steps, taking the bytes of `input` in
    /// order and collecting what is written out. A run that was suspended
    /// goes on where it stopped when called again with the input that is
    /// left.
    pub fn run(&mut self, input: &[u8], max_steps: usize) -> (run: Run)
        requires
            old(self).well_formed(),
        ensures
            final(self).well_formed(),
            final(self)@ == old(self)@.run(input@, max_steps as nat).machine,
            run.output@ == old(self)@.run(input@, max_steps as nat).output,
            run.consumed == old(self)@.run(input@, max_steps as nat).consumed,
            run.status == old(self)@.run(input@, max_steps as nat).status(),
    {
        let ghost start = self@;
        let mut output: Vec<u8> = Vec::new();
        let mut consumed: usize = 0;
        let mut steps: usize = 0;
        while steps < max_steps
            invariant
                steps <= max_steps,
                start == old(self)@,
                start.well_formed(),
                self.well_formed(),
                consumed <= input@.len(),
                start.run(input@, steps as nat) == (Trace {
                    machine: self@,
                    consumed: consumed as nat,
                    output: output@,
                    failure: None,
                }),
            decreases max_steps - steps,
        {
            if self.is_halted() {
                proof {
                    lemma_stopped_run_stays(start, input@, steps as nat, max_steps as nat);
                }
                return Run { output, consumed, status: Status::Finished };
            }
            let offered = if consumed < input.len() {
                Some(input[consumed])
            } else {
                None
            };
            let reads = self.awaits_input();
            match self.step(offered) {
                Err(failure) => {
                    proof {
                        lemma_stopped_run_stays(
                            start,
                            input@,
                            (steps + 1) as nat,
                            max_steps as nat,
                        );
                    }
                    return Run { output, consumed, status: Status::Failed(failure) };
                },
                Ok(Step::Emitted(byte)) => {
                    output.push(byte);
                },
                Ok(_) => {
                    if reads {
                        consumed += 1;
                    }
                },
            }
            steps += 1;
        }
        let status = if self.is_halted() {
            Status::Finished
        } else {
            Status::Suspended
        };
        Run { output, consumed, status }
    }
}

/// `Right`: moves the data pointer one cell to the right, and lets the
/// tape grow when the pointer leaves it.
pub fn right(context: &mut Interpreter)
    requires
        old(context).well_formed(),
    ensures
        final(context).well_formed(),
        final(context)@ == old(context)@.right(),
{
    assert(context.memory_pointer < context.memory.len());
    context.memory_pointer += 1;
    if context.memory_pointer >= context.memory.len() {
        let mut fresh = zeros(context.growth);
        context.memory.append(&mut fresh);
    }
}

/// `Left`: moves the data pointer one cell to the left, or fails on the
/// first cell and leaves the engine as it is.
pub fn left(context: &mut Interpreter) -> (result: Result<(), RuntimeError>)
    requires
        old(context).well_formed(),
    ensures
        final(context).well_formed(),
        old(context)@.data_pointer == 0 ==> *final(context) == *old(context) && result == Err::<
            (),
            RuntimeError,
        >(
            RuntimeError::OutOfBounds {
                position: old(context)@.instruction_pointer as usize,
            },
        ),
        old(context)@.data_pointer > 0 ==> final(context)@ == old(context)@.left() && result is Ok,
{
    if context.memory_pointer == 0 {
        return Err(RuntimeError::OutOfBounds { position: context.instruction_pointer });
    }
    context.memory_pointer -= 1;
    Ok(())
}

/// `Increment`: adds one to the current cell, 255 becoming 0.
pub fn increment(context: &mut Interpreter)
    requires
        old(context).well_formed(),
    ensures
        final(context).well_formed(),
        final(context)@ == old(context)@.increment(),
{
    if context.current_memory() == 255 {
        context.memory.set(context.memory_pointer, 0);
    } else {
        let cell = context.memory[context.memory_pointer];
        context.memory.set(context.memory_pointer, cell + 1);
    }
}

/// `Decrement`: subtracts one from the current cell, 0 becoming 255.
pub fn decrement(context: &mut Interpreter)
    requires
        old(context).well_formed(),
    ensures
        final(context).well_formed(),
        final(context)@ == old(context)@.decrement(),
{
    if context.current_memory() == 0 {
        context.memory.set(context.memory_pointer, 255);
    } else {
        let cell = context.memory[context.memory_pointer];
        context.memory.set(context.memory_pointer, cell - 1);
    }
}

/// `Read`: overwrites the current cell with `byte`, or fails when there
/// is none and leaves the engine as it is.
pub fn input(context: &mut Interpreter, byte: Option<u8>) -> (result: Result<(), RuntimeError>)
    requires
        old(context).well_formed(),
    ensures
        final(context).well_formed(),
        match byte {
            Some(value) => final(context)@ == old(context)@.store(value) && result is Ok,
            None => *final(context) == *old(context) && result == Err::<(), RuntimeError>(
                RuntimeError::Input { position: old(context)@.instruction_pointer as usize },
            ),
        },
{
    match byte {
        Some(value) => {
            context.memory.set(context.memory_pointer, value);
            Ok(())
        },
        None => Err(RuntimeError::Input { position: context.instruction_pointer }),
    }
}

/// `Print`: the byte to write out, which is the current cell.
pub fn output(context: &mut Interpreter) -> (byte: u8)
    requires
        old(context).well_formed(),
    ensures
        *final(context) == *old(context),
        byte == old(context)@.cell(),
{
    context.current_memory()
}

} // verus!
