//! The tape machine as a mathematical object: what one step does to a
//! state, and what a run of steps comes to.

use vstd::prelude::*;
use crate::instruction::Instruction;
use crate::nesting::resolved;

verus! {

/// Why a run was aborted. `position` is that of the instruction at fault.
#[derive(Clone, Copy, Debug, PartialEq, Eq, Structural)]
pub enum RuntimeError {
    /// `Left` with the data pointer on the first cell.
    OutOfBounds { position: usize },
    /// `Read` with no input byte to be had.
    Input { position: usize },
}

/// What one call of the engine did.
#[derive(Clone, Copy, Debug, PartialEq, Eq, Structural)]
pub enum Step {
    /// One instruction was executed, with nothing for the outside.
    Advanced,
    /// `Print` was executed: the byte is to be written out.
    Emitted(u8),
    /// Nothing was executed: the instruction pointer is past the end.
    Halted,
}

/// A state of the machine, with the program it runs and the number of
/// cells by which its tape grows.
pub struct Machine {
    pub code: Seq<Instruction>,
    pub growth: nat,
    pub tape: Seq<u8>,
    pub data_pointer: int,
    pub instruction_pointer: int,
}

/// A tape of `cells` zero cells.
pub open spec fn blank(cells: nat) -> Seq<u8> {
    Seq::new(cells, |i: int| 0u8)
}

impl Machine {
    /// The state in which a run starts: a blank tape, both pointers at zero.
    pub open spec fn fresh(code: Seq<Instruction>, cells: nat, growth: nat) -> Machine {
        Machine { code, growth, tape: blank(cells), data_pointer: 0, instruction_pointer: 0 }
    }

    /// The program is resolved, the data pointer is on the tape, the
    /// instruction pointer is in the program or just past its end, and the
    /// tape can grow.
    pub open spec fn well_formed(self) -> bool {
        &&& resolved(self.code)
        &&& self.growth > 0
        &&& 0 <= self.data_pointer < self.tape.len()
        &&& 0 <= self.instruction_pointer <= self.code.len()
    }

    /// The instruction pointer is past the last instruction.
    pub open spec fn halted(self) -> bool {
        self.instruction_pointer >= self.code.len()
    }

    /// The cell under the data pointer.
    pub open spec fn cell(self) -> u8 {
        self.tape[self.data_pointer]
    }

    /// The instruction under the instruction pointer.
    pub open spec fn instruction(self) -> Instruction {
        self.code[self.instruction_pointer]
    }

    /// The next step is a `Read`.
    pub open spec fn awaits_input(self) -> bool {
        !self.halted() && self.instruction() is Read
    }

    /// The data pointer moves one cell to the right; when that takes it
    /// off the tape, the tape grows by `growth` zero cells.
    pub open spec fn right(self) -> Machine {
        Machine {
            data_pointer: self.data_pointer + 1,
            tape: if self.data_pointer + 1 >= self.tape.len() {
                self.tape + blank(self.growth)
            } else {
                self.tape
            },
            ..self
        }
    }

    /// The data pointer moves one cell to the left.
    pub open spec fn left(self) -> Machine {
        Machine { data_pointer: self.data_pointer - 1, ..self }
    }

    /// The current cell holds `byte`.
    pub open spec fn store(self, byte: u8) -> Machine {
        Machine { tape: self.tape.update(self.data_pointer, byte), ..self }
    }

    /// One is added to the current cell, 255 becoming 0.
    pub open spec fn increment(self) -> Machine {
        self.store(((self.cell() + 1) % 256) as u8)
    }

    /// One is subtracted from the current cell, 0 becoming 255.
    pub open spec fn decrement(self) -> Machine {
        self.store(((self.cell() + 255) % 256) as u8)
    }

    /// The instruction pointer stands at `position`.
    pub open spec fn at(self, position: int) -> Machine {
        Machine { instruction_pointer: position, ..self }
    }

    /// The instruction pointer moves to the next instruction.
    pub open spec fn next(self) -> Machine {
        self.at(self.instruction_pointer + 1)
    }

    /// One step: the state it leads to and what it reports. `input` is the
    /// byte that the input has to offer, if any; only `Read` looks at it.
    /// A step that fails, and one taken when halted, leave the state as it is.
    pub open spec fn step(self, input: Option<u8>) -> (Machine, Result<Step, RuntimeError>) {
        if self.halted() {
            (self, Ok(Step::Halted))
        } else {
            match self.instruction() {
                Instruction::Right => (self.right().next(), Ok(Step::Advanced)),
                Instruction::Left => if self.data_pointer == 0 {
                    (
                        self,
                        Err(
                            RuntimeError::OutOfBounds {
                                position: self.instruction_pointer as usize,
                            },
                        ),
                    )
                } else {
                    (self.left().next(), Ok(Step::Advanced))
                },
                Instruction::Increment => (self.increment().next(), Ok(Step::Advanced)),
                Instruction::Decrement => (self.decrement().next(), Ok(Step::Advanced)),
                Instruction::Print => (self.next(), Ok(Step::Emitted(self.cell()))),
                Instruction::Read => match input {
                    Some(byte) => (self.store(byte).next(), Ok(Step::Advanced)),
                    None => (
                        self,
                        Err(RuntimeError::Input { position: self.instruction_pointer as usize }),
                    ),
                },
                Instruction::BeginLoop(target) => if self.cell() == 0 {
                    (self.at(target + 1), Ok(Step::Advanced))
                } else {
                    (self.next(), Ok(Step::Advanced))
                },
                Instruction::EndLoop(target) => if self.cell() != 0 {
                    (self.at(target as int), Ok(Step::Advanced))
                } else {
                    (self.next(), Ok(Step::Advanced))
                },
            }
        }
    }

    /// The state after `count` moves to the right.
    pub open spec fn right_by(self, count: nat) -> Machine
        decreases count,
    {
        if count == 0 {
            self
        } else {
            self.right_by((count - 1) as nat).right()
        }
    }
}

/// A step leads from a well-formed state to a well-formed state. It
/// changes neither the program nor the growth of the tape, and the tape
/// does not shrink.
pub proof fn lemma_step_keeps_well_formed(machine: Machine, input: Option<u8>)
    requires
        machine.well_formed(),
    ensures
        machine.step(input).0.well_formed(),
        machine.step(input).0.code == machine.code,
        machine.step(input).0.growth == machine.growth,
        machine.step(input).0.tape.len() >= machine.tape.len(),
{
}

/// Moving right, however often, never fails and never disturbs a cell:
/// the tape keeps what it held, and every cell that it gains holds zero.
pub proof fn lemma_right_exposes_zero_cells(machine: Machine, count: nat)
    requires
        machine.well_formed(),
    ensures
        machine.right_by(count).well_formed(),
        machine.right_by(count).data_pointer == machine.data_pointer + count,
        machine.right_by(count).instruction_pointer == machine.instruction_pointer,
        machine.right_by(count).tape.len() >= machine.tape.len(),
        machine.right_by(count).tape.subrange(0, machine.tape.len() as int) == machine.tape,
        forall|i: int|
            machine.tape.len() <= i < machine.right_by(count).tape.len()
                ==> machine.right_by(count).tape[i] == 0,
    decreases count,
{
    if count > 0 {
        let before = machine.right_by((count - 1) as nat);
        lemma_right_exposes_zero_cells(machine, (count - 1) as nat);
        let after = before.right();
        assert(after.tape.subrange(0, machine.tape.len() as int) =~= before.tape.subrange(
            0,
            machine.tape.len() as int,
        ));
    }
}

/// The cell that a move to the right reaches on a tape that had to grow
/// for it holds zero.
pub proof fn lemma_right_onto_new_cell(machine: Machine)
    requires
        machine.well_formed(),
        machine.data_pointer + 1 >= machine.tape.len(),
    ensures
        machine.right().cell() == 0,
        machine.right().tape.len() == machine.tape.len() + machine.growth,
{
}

/// Cell arithmetic is arithmetic modulo 256: adding one to 255 gives 0,
/// subtracting one from 0 gives 255, and each of the two undoes the other.
pub proof fn lemma_cell_arithmetic_wraps(machine: Machine)
    requires
        machine.well_formed(),
    ensures
        machine.cell() == 255 ==> machine.increment().cell() == 0,
        machine.cell() < 255 ==> machine.increment().cell() == machine.cell() + 1,
        machine.cell() == 0 ==> machine.decrement().cell() == 255,
        machine.cell() > 0 ==> machine.decrement().cell() == machine.cell() - 1,
        machine.increment().decrement() == machine,
        machine.decrement().increment() == machine,
{
    assert(machine.increment().decrement().tape =~= machine.tape);
    assert(machine.decrement().increment().tape =~= machine.tape);
}

/// How a run stands.
#[derive(Clone, Copy, Debug, PartialEq, Eq, Structural)]
pub enum Status {
    /// The instruction pointer went past the last instruction.
    Finished,
    /// The steps that were granted are used up, and the program is not done.
    Suspended,
    /// An instruction failed; the run is over.
    Failed(RuntimeError),
}

/// A run so far: the state reached, how many input bytes were taken,
/// the bytes written out, and the failure that ended it, if one did.
pub struct Trace {
    pub machine: Machine,
    pub consumed: nat,
    pub output: Seq<u8>,
    pub failure: Option<RuntimeError>,
}

impl Trace {
    /// The run before its first step.
    pub open spec fn start(machine: Machine) -> Trace {
        Trace { machine, consumed: 0, output: Seq::empty(), failure: None }
    }

    /// No further step will be taken.
    pub open spec fn stopped(self) -> bool {
        self.failure is Some || self.machine.halted()
    }

    /// The next byte of `input` that has not been taken, if one is left.
    pub open spec fn offered(self, input: Seq<u8>) -> Option<u8> {
        if self.consumed < input.len() {
            Some(input[self.consumed as int])
        } else {
            None
        }
    }

    /// The run one step further; a stopped run stays as it is. A `Read`
    /// that succeeds takes one byte of `input`, a `Print` adds one byte to
    /// the output, and a failure is recorded with the state left untouched.
    pub open spec fn advance(self, input: Seq<u8>) -> Trace {
        if self.stopped() {
            self
        } else {
            let (next, result) = self.machine.step(self.offered(input));
            match result {
                Err(failure) => Trace { failure: Some(failure), ..self },
                Ok(Step::Emitted(byte)) => Trace {
                    machine: next,
                    output: self.output.push(byte),
                    ..self
                },
                Ok(_) => Trace {
                    machine: next,
                    consumed: if self.machine.awaits_input() {
                        self.consumed + 1
                    } else {
                        self.consumed
                    },
                    ..self
                },
            }
        }
    }

    /// How the run stands.
    pub open spec fn status(self) -> Status {
        match self.failure {
            Some(failure) => Status::Failed(failure),
            None => if self.machine.halted() {
                Status::Finished
            } else {
                Status::Suspended
            },
        }
    }
}

impl Machine {
    /// The run of at most `steps` steps from this state, reading from
    /// `input`.
    pub open spec fn run(self, input: Seq<u8>, steps: nat) -> Trace
        decreases steps,
    {
        if steps == 0 {
            Trace::start(self)
        } else {
            self.run(input, (steps - 1) as nat).advance(input)
        }
    }
}

/// A run from a well-formed state stays well-formed, never shrinks the
/// tape, takes no more input than there is and writes at most one byte per
/// step.
pub proof fn lemma_run_keeps_well_formed(machine: Machine, input: Seq<u8>, steps: nat)
    requires
        machine.well_formed(),
    ensures
        machine.run(input, steps).machine.well_formed(),
        machine.run(input, steps).machine.code == machine.code,
        machine.run(input, steps).machine.growth == machine.growth,
        machine.run(input, steps).machine.tape.len() >= machine.tape.len(),
        machine.run(input, steps).consumed <= input.len(),
        machine.run(input, steps).output.len() <= steps,
    decreases steps,
{
    if steps > 0 {
        let before = machine.run(input, (steps - 1) as nat);
        lemma_run_keeps_well_formed(machine, input, (steps - 1) as nat);
        lemma_step_keeps_well_formed(before.machine, before.offered(input));
    }
}

/// Once a run has stopped, granting it more steps changes nothing.
pub proof fn lemma_stopped_run_stays(machine: Machine, input: Seq<u8>, steps: nat, more: nat)
    requires
        machine.run(input, steps).stopped(),
        steps <= more,
    ensures
        machine.run(input, more) == machine.run(input, steps),
    decreases more,
{
    if steps < more {
        lemma_stopped_run_stays(machine, input, steps, (more - 1) as nat);
    }
}

/// A run can be taken in two parts: the first part, if it did not fail,
/// followed by a run from the state it reached on the input it left, comes
/// to the same as the whole run in one go.
pub proof fn lemma_run_resumes(machine: Machine, input: Seq<u8>, first: nat, more: nat)
    requires
        machine.well_formed(),
        machine.run(input, first).failure is None,
    ensures
        ({
            let head = machine.run(input, first);
            let tail = head.machine.run(input.skip(head.consumed as int), more);
            let whole = machine.run(input, first + more);
            &&& whole.machine == tail.machine
            &&& whole.consumed == head.consumed + tail.consumed
            &&& whole.output == head.output + tail.output
            &&& whole.failure == tail.failure
        }),
    decreases more,
{
    let head = machine.run(input, first);
    let left = input.skip(head.consumed as int);
    lemma_run_keeps_well_formed(machine, input, first);
    if more == 0 {
    } else {
        lemma_run_resumes(machine, input, first, (more - 1) as nat);
        lemma_run_keeps_well_formed(head.machine, left, (more - 1) as nat);
        let tail = head.machine.run(left, (more - 1) as nat);
        let whole = machine.run(input, (first + more - 1) as nat);
        let whole_next = whole.advance(input);
        let tail_next = tail.advance(left);
    }
}

} // verus!
