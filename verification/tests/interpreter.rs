use bfjit::interpreter::Interpreter;

fn run_program(src: &str) -> Vec<u8> {
    let mut it = Interpreter::new();
    it.set_input(String::from(src));
    it.execute();
    it.output().clone()
}

#[test]
fn three_increments_emit_three() {
    assert_eq!(run_program("+++."), vec![3u8]);
}

#[test]
fn move_right_then_emit() {
    // Cell zero is incremented twice but never emitted; the pointer moves
    // right and cell one, incremented three times, is emitted.
    assert_eq!(run_program("++>+++."), vec![3u8]);
}

#[test]
fn empty_program_emits_nothing() {
    assert_eq!(run_program(""), Vec::<u8>::new());
}

#[test]
fn zero_cell_loop_is_skipped() {
    // All cells start at zero, so the loop body never runs and nothing is
    // emitted; the cell stays zero, shown by the trailing emit.
    assert_eq!(run_program("[-]."), vec![0u8]);
}

#[test]
fn zero_cell_loop_alone_emits_nothing() {
    assert_eq!(run_program("[-]"), Vec::<u8>::new());
}

#[test]
fn loop_runs_once_then_halts() {
    // Cell zero starts at one; the loop body decrements it to zero and the
    // loop exits, in finite time, emitting nothing.
    assert_eq!(run_program("+[-]"), Vec::<u8>::new());
}

#[test]
fn loop_emits_on_each_iteration() {
    assert_eq!(run_program("++[-.]"), vec![1u8, 0u8]);
}

#[test]
fn cell_arithmetic_wraps() {
    assert_eq!(run_program("-."), vec![255u8]);
    assert_eq!(run_program("-+."), vec![0u8]);
}

#[test]
fn pointer_moves_both_ways() {
    assert_eq!(run_program("+>++>+++<."), vec![2u8]);
}

#[test]
fn two_fresh_runs_yield_identical_output() {
    // No state is carried across runs: a second fresh run of the same
    // program reproduces the output byte for byte.
    let first = run_program("++>+++.<.");
    let second = run_program("++>+++.<.");
    assert_eq!(first, second);
    assert_eq!(first, vec![3u8, 2u8]);
}
