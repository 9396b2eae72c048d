use tape_machine::instruction::Instruction;
use tape_machine::interpreter::{
    decrement, increment, input, left, output, right, Interpreter, MEMORY_DYN_ALLOCATE,
    MEMORY_INIT_ALLOCATE,
};
use tape_machine::machine::{RuntimeError, Status, Step};
use tape_machine::translator::translate;

fn engine(source: &str) -> Interpreter {
    Interpreter::new(translate(source).unwrap())
}

fn small_engine(source: &str, cells: usize, growth: usize) -> Interpreter {
    Interpreter::with_tape(translate(source).unwrap(), cells, growth)
}

#[test]
fn new_engine_stands_at_the_start_of_a_blank_tape() {
    let machine = engine("+");
    assert_eq!(MEMORY_INIT_ALLOCATE, 1024);
    assert_eq!(MEMORY_DYN_ALLOCATE, 128);
    assert_eq!(machine.memory().len(), 1024);
    assert!(machine.memory().iter().all(|cell| *cell == 0));
    assert_eq!(machine.memory_pointer(), 0);
    assert_eq!(machine.instruction_pointer(), 0);
    assert_eq!(machine.current_memory(), 0);
    assert_eq!(*machine.next_instruction(), Instruction::Increment);
    assert_eq!(machine.code().instructions(), &vec![Instruction::Increment]);
    assert!(!machine.is_halted());
}

#[test]
fn with_tape_sets_the_size_of_the_tape() {
    let machine = small_engine("", 3, 2);
    assert_eq!(machine.memory(), &vec![0, 0, 0]);
    assert_eq!(machine.memory_pointer(), 0);
    assert!(machine.is_halted());
}

#[test]
fn increment_wraps_from_255_to_0() {
    let mut machine = small_engine("", 1, 1);
    assert_eq!(input(&mut machine, Some(255)), Ok(()));
    assert_eq!(machine.current_memory(), 255);
    increment(&mut machine);
    assert_eq!(machine.current_memory(), 0);
    increment(&mut machine);
    assert_eq!(machine.current_memory(), 1);
}

#[test]
fn decrement_wraps_from_0_to_255() {
    let mut machine = small_engine("", 1, 1);
    assert_eq!(machine.current_memory(), 0);
    decrement(&mut machine);
    assert_eq!(machine.current_memory(), 255);
    decrement(&mut machine);
    assert_eq!(machine.current_memory(), 254);
}

#[test]
fn increment_and_decrement_undo_each_other() {
    let mut machine = small_engine("", 1, 1);
    for value in [0u8, 1, 127, 254, 255] {
        assert_eq!(input(&mut machine, Some(value)), Ok(()));
        increment(&mut machine);
        decrement(&mut machine);
        assert_eq!(machine.current_memory(), value);
        decrement(&mut machine);
        increment(&mut machine);
        assert_eq!(machine.current_memory(), value);
    }
}

#[test]
fn cell_arithmetic_touches_the_current_cell_only() {
    let mut machine = small_engine("", 3, 1);
    right(&mut machine);
    increment(&mut machine);
    increment(&mut machine);
    assert_eq!(machine.memory(), &vec![0, 2, 0]);
    right(&mut machine);
    decrement(&mut machine);
    assert_eq!(machine.memory(), &vec![0, 2, 255]);
    assert_eq!(machine.instruction_pointer(), 0);
}

#[test]
fn right_grows_the_tape_by_the_increment_with_zero_cells() {
    let mut machine = small_engine("", 2, 3);
    increment(&mut machine);
    right(&mut machine);
    assert_eq!(machine.memory_pointer(), 1);
    assert_eq!(machine.memory(), &vec![1, 0]);
    increment(&mut machine);
    right(&mut machine);
    assert_eq!(machine.memory_pointer(), 2);
    assert_eq!(machine.memory(), &vec![1, 1, 0, 0, 0]);
    assert_eq!(machine.current_memory(), 0);
    right(&mut machine);
    right(&mut machine);
    assert_eq!(machine.memory().len(), 5);
    right(&mut machine);
    assert_eq!(machine.memory_pointer(), 5);
    assert_eq!(machine.memory(), &vec![1, 1, 0, 0, 0, 0, 0, 0]);
}

#[test]
fn right_beyond_the_initial_tape_reads_zero() {
    let mut machine = engine("");
    for moved in 1..=3000usize {
        right(&mut machine);
        assert_eq!(machine.memory_pointer(), moved);
        assert_eq!(machine.current_memory(), 0);
        assert!(machine.memory().len() > moved);
    }
    assert_eq!(machine.memory().len(), 1024 + 16 * 128);
    assert!(machine.memory().iter().all(|cell| *cell == 0));
}

#[test]
fn tape_grows_exactly_when_the_pointer_leaves_it() {
    let mut machine = engine("");
    for _ in 0..1023 {
        right(&mut machine);
    }
    assert_eq!(machine.memory().len(), 1024);
    right(&mut machine);
    assert_eq!(machine.memory_pointer(), 1024);
    assert_eq!(machine.memory().len(), 1024 + 128);
}

#[test]
fn left_at_the_first_cell_is_out_of_bounds() {
    let mut machine = engine("");
    assert_eq!(left(&mut machine), Err(RuntimeError::OutOfBounds { position: 0 }));
    assert_eq!(machine.memory_pointer(), 0);
    assert_eq!(machine.instruction_pointer(), 0);
}

#[test]
fn left_undoes_right() {
    let mut machine = small_engine("", 1, 1);
    right(&mut machine);
    right(&mut machine);
    assert_eq!(left(&mut machine), Ok(()));
    assert_eq!(machine.memory_pointer(), 1);
    assert_eq!(left(&mut machine), Ok(()));
    assert_eq!(machine.memory_pointer(), 0);
    assert_eq!(machine.memory().len(), 3);
    assert_eq!(left(&mut machine), Err(RuntimeError::OutOfBounds { position: 0 }));
}

#[test]
fn stepping_left_at_the_first_cell_fails_and_changes_nothing() {
    let mut machine = engine("+<");
    assert_eq!(machine.step(None), Ok(Step::Advanced));
    assert_eq!(machine.step(None), Err(RuntimeError::OutOfBounds { position: 1 }));
    assert_eq!(machine.instruction_pointer(), 1);
    assert_eq!(machine.memory_pointer(), 0);
    assert_eq!(machine.current_memory(), 1);
    assert_eq!(machine.step(None), Err(RuntimeError::OutOfBounds { position: 1 }));
}

#[test]
fn input_overwrites_the_current_cell() {
    let mut machine = small_engine("", 2, 1);
    increment(&mut machine);
    assert_eq!(input(&mut machine, Some(65)), Ok(()));
    assert_eq!(machine.memory(), &vec![65, 0]);
    assert_eq!(input(&mut machine, Some(0)), Ok(()));
    assert_eq!(machine.memory(), &vec![0, 0]);
}

#[test]
fn input_without_a_byte_is_an_input_error() {
    let mut machine = small_engine("", 1, 1);
    increment(&mut machine);
    assert_eq!(input(&mut machine, None), Err(RuntimeError::Input { position: 0 }));
    assert_eq!(machine.current_memory(), 1);
}

#[test]
fn output_is_the_current_cell() {
    let mut machine = small_engine("", 2, 1);
    assert_eq!(output(&mut machine), 0);
    increment(&mut machine);
    increment(&mut machine);
    assert_eq!(output(&mut machine), 2);
    right(&mut machine);
    assert_eq!(output(&mut machine), 0);
    assert_eq!(machine.memory(), &vec![2, 0]);
}

#[test]
fn two_increments_then_print_output_2() {
    let mut machine = engine("++.");
    let run = machine.run(&[], 1000);
    assert_eq!(run.output, vec![2]);
    assert_eq!(run.consumed, 0);
    assert_eq!(run.status, Status::Finished);
    assert!(machine.is_halted());
    assert_eq!(machine.instruction_pointer(), 3);
}

#[test]
fn copy_loop_moves_the_first_cell_to_the_second() {
    let mut machine = engine("+[>+<-]");
    let run = machine.run(&[], 1000);
    assert_eq!(run.status, Status::Finished);
    assert_eq!(run.output, vec![]);
    assert_eq!(machine.memory()[0], 0);
    assert_eq!(machine.memory()[1], 1);
    assert_eq!(machine.memory_pointer(), 0);
    assert_eq!(machine.instruction_pointer(), 7);
}

#[test]
fn copy_loop_moves_any_count() {
    let mut machine = engine("+++++[>+<-]");
    let run = machine.run(&[], 1000);
    assert_eq!(run.status, Status::Finished);
    assert_eq!(machine.memory()[0], 0);
    assert_eq!(machine.memory()[1], 5);
}

#[test]
fn read_then_print_echoes_the_byte() {
    let mut machine = engine(",.");
    let run = machine.run(&[65], 1000);
    assert_eq!(run.output, vec![65]);
    assert_eq!(run.consumed, 1);
    assert_eq!(run.status, Status::Finished);
    assert_eq!(machine.current_memory(), 65);
}

#[test]
fn read_takes_any_byte_value() {
    let mut machine = engine(",.,.,.");
    let run = machine.run(&[0, 255, 128, 7], 1000);
    assert_eq!(run.output, vec![0, 255, 128]);
    assert_eq!(run.consumed, 3);
    assert_eq!(run.status, Status::Finished);
}

#[test]
fn read_on_empty_input_is_an_input_error() {
    let mut machine = engine(",");
    let run = machine.run(&[], 1000);
    assert_eq!(run.status, Status::Failed(RuntimeError::Input { position: 0 }));
    assert_eq!(run.output, vec![]);
    assert_eq!(run.consumed, 0);
    assert_eq!(machine.instruction_pointer(), 0);
}

#[test]
fn read_on_exhausted_input_keeps_what_was_written_before() {
    let mut machine = engine(",.,.,.");
    let run = machine.run(&[1, 2], 1000);
    assert_eq!(run.status, Status::Failed(RuntimeError::Input { position: 4 }));
    assert_eq!(run.output, vec![1, 2]);
    assert_eq!(run.consumed, 2);
    assert_eq!(machine.instruction_pointer(), 4);
    assert_eq!(machine.current_memory(), 2);
}

#[test]
fn empty_program_finishes_at_once() {
    let mut machine = engine("");
    assert!(machine.is_halted());
    assert!(!machine.awaits_input());
    assert_eq!(machine.step(Some(1)), Ok(Step::Halted));
    let run = machine.run(&[1, 2, 3], 10);
    assert_eq!(run.status, Status::Finished);
    assert_eq!(run.output, vec![]);
    assert_eq!(run.consumed, 0);
    let none = machine.run(&[], 0);
    assert_eq!(none.status, Status::Finished);
}

#[test]
fn a_loop_on_a_zero_cell_is_skipped_to_just_after_its_end() {
    let mut machine = engine("[+]+.");
    assert_eq!(machine.step(None), Ok(Step::Advanced));
    assert_eq!(machine.instruction_pointer(), 3);
    assert_eq!(machine.step(None), Ok(Step::Advanced));
    assert_eq!(machine.step(None), Ok(Step::Emitted(1)));
    assert_eq!(machine.step(None), Ok(Step::Halted));
    assert_eq!(machine.instruction_pointer(), 5);
}

#[test]
fn a_loop_on_a_nonzero_cell_is_entered() {
    let mut machine = engine("+[-]");
    assert_eq!(machine.step(None), Ok(Step::Advanced));
    assert_eq!(machine.step(None), Ok(Step::Advanced));
    assert_eq!(machine.instruction_pointer(), 2);
    assert_eq!(machine.step(None), Ok(Step::Advanced));
    assert_eq!(machine.current_memory(), 0);
    assert_eq!(machine.instruction_pointer(), 3);
    assert_eq!(machine.step(None), Ok(Step::Advanced));
    assert_eq!(machine.instruction_pointer(), 4);
    assert!(machine.is_halted());
}

#[test]
fn the_end_of_a_loop_goes_back_to_its_beginning_on_a_nonzero_cell() {
    let mut machine = engine("++[-]");
    for _ in 0..4 {
        assert_eq!(machine.step(None), Ok(Step::Advanced));
    }
    assert_eq!(machine.instruction_pointer(), 4);
    assert_eq!(machine.current_memory(), 1);
    assert_eq!(machine.step(None), Ok(Step::Advanced));
    assert_eq!(machine.instruction_pointer(), 2);
    assert_eq!(*machine.next_instruction(), Instruction::BeginLoop(4));
    assert_eq!(machine.step(None), Ok(Step::Advanced));
    assert_eq!(machine.instruction_pointer(), 3);
}

#[test]
fn a_loop_at_the_very_start_can_repeat() {
    let mut machine = small_engine("[-]", 1, 1);
    assert_eq!(input(&mut machine, Some(3)), Ok(()));
    let run = machine.run(&[], 100);
    assert_eq!(run.status, Status::Finished);
    assert_eq!(machine.current_memory(), 0);
    assert_eq!(machine.instruction_pointer(), 3);
}

#[test]
fn nested_loops_multiply() {
    let mut machine = engine("++[>+++[>++++<-]<-]>>.");
    let run = machine.run(&[], 10_000);
    assert_eq!(run.status, Status::Finished);
    assert_eq!(run.output, vec![24]);
}

#[test]
fn output_comes_in_execution_order() {
    let mut machine = engine("+.+.+.>.<-.");
    let run = machine.run(&[], 100);
    assert_eq!(run.output, vec![1, 2, 3, 0, 2]);
    assert_eq!(run.status, Status::Finished);
}

#[test]
fn echo_until_zero() {
    let mut machine = engine(",[.,]");
    let run = machine.run(&[104, 105, 0, 33], 1000);
    assert_eq!(run.output, vec![104, 105]);
    assert_eq!(run.consumed, 3);
    assert_eq!(run.status, Status::Finished);
}

#[test]
fn a_run_out_of_steps_is_suspended_and_can_go_on() {
    let mut machine = engine("+.+.+.");
    let first = machine.run(&[], 3);
    assert_eq!(first.status, Status::Suspended);
    assert_eq!(first.output, vec![1]);
    assert_eq!(machine.instruction_pointer(), 3);
    let none = machine.run(&[], 0);
    assert_eq!(none.status, Status::Suspended);
    assert_eq!(none.output, vec![]);
    let second = machine.run(&[], 3);
    assert_eq!(second.status, Status::Finished);
    assert_eq!(second.output, vec![2, 3]);
}

#[test]
fn a_run_that_uses_its_last_step_to_finish_is_finished() {
    let mut machine = engine("++.");
    let run = machine.run(&[], 3);
    assert_eq!(run.status, Status::Finished);
    assert_eq!(run.output, vec![2]);
}

#[test]
fn an_endless_loop_is_suspended_not_failed() {
    let mut machine = engine("+[]");
    let run = machine.run(&[], 100_000);
    assert_eq!(run.status, Status::Suspended);
    assert_eq!(machine.current_memory(), 1);
    assert!(!machine.is_halted());
}

#[test]
fn a_failed_run_leaves_the_engine_at_the_fault() {
    let mut machine = engine("+>+<<+");
    let run = machine.run(&[], 100);
    assert_eq!(run.status, Status::Failed(RuntimeError::OutOfBounds { position: 4 }));
    assert_eq!(machine.instruction_pointer(), 4);
    assert_eq!(machine.memory_pointer(), 0);
    assert_eq!(machine.memory()[0], 1);
    assert_eq!(machine.memory()[1], 1);
}

#[test]
fn awaits_input_only_before_a_read() {
    let mut machine = engine("+,");
    assert!(!machine.awaits_input());
    assert_eq!(machine.step(Some(9)), Ok(Step::Advanced));
    assert_eq!(machine.current_memory(), 1);
    assert!(machine.awaits_input());
    assert_eq!(machine.step(Some(9)), Ok(Step::Advanced));
    assert_eq!(machine.current_memory(), 9);
    assert!(!machine.awaits_input());
    assert!(machine.is_halted());
}

#[test]
fn a_step_reports_what_it_did() {
    let mut machine = engine(">+.,<");
    assert_eq!(machine.step(None), Ok(Step::Advanced));
    assert_eq!(machine.memory_pointer(), 1);
    assert_eq!(machine.step(None), Ok(Step::Advanced));
    assert_eq!(machine.step(None), Ok(Step::Emitted(1)));
    assert_eq!(machine.step(None), Err(RuntimeError::Input { position: 3 }));
    assert_eq!(machine.step(Some(200)), Ok(Step::Advanced));
    assert_eq!(machine.current_memory(), 200);
    assert_eq!(machine.step(None), Ok(Step::Advanced));
    assert_eq!(machine.memory_pointer(), 0);
    assert_eq!(machine.step(None), Ok(Step::Halted));
    assert_eq!(machine.step(None), Ok(Step::Halted));
    assert_eq!(machine.instruction_pointer(), 5);
}

#[test]
fn a_run_wraps_cells_like_single_steps() {
    let mut machine = engine("-.+.");
    let run = machine.run(&[], 10);
    assert_eq!(run.output, vec![255, 0]);
}

#[test]
fn a_long_walk_to_the_right_inside_a_run_grows_the_tape() {
    let source = ">".repeat(1500) + "+.";
    let mut machine = engine(&source);
    let run = machine.run(&[], 5000);
    assert_eq!(run.status, Status::Finished);
    assert_eq!(run.output, vec![1]);
    assert_eq!(machine.memory_pointer(), 1500);
    assert_eq!(machine.memory().len(), 1024 + 4 * 128);
}

#[test]
fn prints_a_letter_computed_by_a_loop() {
    let mut machine = engine("++++++++[>++++++++<-]>+.");
    let run = machine.run(&[], 10_000);
    assert_eq!(run.output, vec![65]);
    assert_eq!(run.status, Status::Finished);
}
