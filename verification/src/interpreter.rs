//! A tree-walking interpreter over the raw source text: an alternate
//! execution backend that reproduces the externally observable output of
//! the generated code for conforming programs.
//!
//! Each step processes the character at the current index. Cell arithmetic
//! wraps modulo 256, matching the byte semantics of the generated
//! instructions. Reading input is unsupported, as in the generated code.
//! Emitted bytes are recorded in the run's output buffer; displaying them
//! is the caller's concern.

use crate::jit::zeroed_vec;
use crate::parser::{char_op, is_bf_char, parse_from, spec_parse, Ops};
use vstd::prelude::*;
use vstd::string::*;

verus! {

/// The abstract state of one interpreter run.
#[verifier::ext_equal]
pub ghost struct InterpState {
    /// The source text.
    pub input: Seq<char>,
    /// Index of the next character to process.
    pub index: int,
    /// Indexes of the `[` characters of the loops currently entered.
    pub loop_entry: Seq<int>,
    /// The data cells.
    pub data: Seq<u8>,
    /// Index of the current data cell.
    pub ptr: int,
    /// The bytes emitted so far.
    pub output: Seq<u8>,
}

/// `b + 1` modulo 256.
pub open spec fn wrap_inc(b: u8) -> u8 {
    if b == 255 {
        0
    } else {
        (b + 1) as u8
    }
}

/// `b - 1` modulo 256.
pub open spec fn wrap_dec(b: u8) -> u8 {
    if b == 0 {
        255
    } else {
        (b - 1) as u8
    }
}

/// The position of the first `]` at or after `j`, if any.
pub open spec fn find_close(s: Seq<char>, j: int) -> Option<int>
    decreases s.len() - j,
{
    if j < 0 || j >= s.len() {
        None
    } else if s[j] == ']' {
        Some(j)
    } else {
        find_close(s, j + 1)
    }
}

/// Whether processing the character `c` in state `m` faults: moving left
/// of cell zero, touching a cell outside the array, reading input (which
/// is unsupported), resuming a loop that was never entered, or exceeding a
/// machine index limit.
pub open spec fn step_ok(m: InterpState, c: char) -> bool {
    &&& (c == '>' ==> m.ptr + 1 <= usize::MAX)
    &&& (c == '<' ==> m.ptr > 0)
    &&& ((c == '+' || c == '-' || c == '.' || c == '[' || c == ']') ==> 0 <= m.ptr
        < m.data.len())
    &&& (c == ',' ==> false)
    &&& (c == ']' && m.data[m.ptr] != 0 ==> m.loop_entry.len() > 0 && m.loop_entry.last() + 1
        <= usize::MAX)
}

/// The effect of dispatching the character `c` in state `m`, before the
/// index advances: pointer moves, wrapping cell arithmetic, recording an
/// output byte, and loop control. A `[` over a zero cell skips ahead to
/// the first following `]`; over a non-zero cell it records its own index.
/// A `]` over a non-zero cell resumes at the most recent recorded entry;
/// over a zero cell it discards it. Unrecognized characters do nothing.
pub open spec fn dispatch(m: InterpState, c: char) -> InterpState
    recommends
        step_ok(m, c),
{
    if c == '>' {
        InterpState { ptr: m.ptr + 1, ..m }
    } else if c == '<' {
        InterpState { ptr: m.ptr - 1, ..m }
    } else if c == '+' {
        InterpState { data: m.data.update(m.ptr, wrap_inc(m.data[m.ptr])), ..m }
    } else if c == '-' {
        InterpState { data: m.data.update(m.ptr, wrap_dec(m.data[m.ptr])), ..m }
    } else if c == '.' {
        InterpState { output: m.output.push(m.data[m.ptr]), ..m }
    } else if c == '[' {
        if m.data[m.ptr] == 0 {
            match find_close(m.input, m.index) {
                Some(j) => InterpState { index: j, ..m },
                None => m,
            }
        } else {
            InterpState { loop_entry: m.loop_entry.push(m.index), ..m }
        }
    } else if c == ']' {
        if m.data[m.ptr] != 0 {
            InterpState { index: m.loop_entry.last(), ..m }
        } else {
            InterpState {
                loop_entry: if m.loop_entry.len() > 0 {
                    m.loop_entry.drop_last()
                } else {
                    m.loop_entry
                },
                ..m
            }
        }
    } else {
        m
    }
}

/// A run is finished when the index has left the source text.
pub open spec fn done(m: InterpState) -> bool {
    !(0 <= m.index < m.input.len())
}

/// Whether the next step of `m` faults.
pub open spec fn step_enabled(m: InterpState) -> bool {
    step_ok(m, m.input[m.index])
}

/// One full step: dispatch the current character, then advance the index.
pub open spec fn step(m: InterpState) -> InterpState
    recommends
        !done(m),
        step_enabled(m),
{
    let m2 = dispatch(m, m.input[m.index]);
    InterpState { index: m2.index + 1, ..m2 }
}

/// Up to `n` steps from `m`: the reached state, or `None` if a step
/// faults first. Once the run is finished the state no longer changes.
pub open spec fn run(m: InterpState, n: nat) -> Option<InterpState>
    decreases n,
{
    if n == 0 {
        Some(m)
    } else if done(m) {
        Some(m)
    } else if !step_enabled(m) {
        None
    } else {
        run(step(m), (n - 1) as nat)
    }
}

/// The run from `m` reaches a finished state without faulting.
pub open spec fn halts(m: InterpState) -> bool {
    exists|n: nat| #[trigger] run(m, n) is Some && done(run(m, n)->Some_0)
}

/// The state a fresh interpreter is in once given the source text
/// `input`: thirty thousand zeroed cells, everything else at zero.
pub open spec fn init_state(input: Seq<char>) -> InterpState {
    InterpState {
        input,
        index: 0,
        loop_entry: Seq::empty(),
        data: Seq::new(30000, |i: int| 0u8),
        ptr: 0,
        output: Seq::empty(),
    }
}

proof fn lemma_run_succ(m0: InterpState, m: InterpState, n: nat)
    requires
        run(m0, n) == Some(m),
        !done(m),
    ensures
        run(m0, n + 1) == (if step_enabled(m) {
            Some(step(m))
        } else {
            None::<InterpState>
        }),
    decreases n,
{
    if n == 0 {
        if step_enabled(m0) {
            assert(run(step(m0), 0) == Some(step(m0)));
        }
    } else if done(m0) {
    } else if step_enabled(m0) {
        lemma_run_succ(step(m0), m, (n - 1) as nat);
    }
}

proof fn lemma_find_close_range(s: Seq<char>, j: int)
    requires
        find_close(s, j) is Some,
    ensures
        j <= find_close(s, j)->Some_0 < s.len(),
    decreases s.len() - j,
{
    if !(j < 0 || j >= s.len()) && s[j] != ']' {
        lemma_find_close_range(s, j + 1);
    }
}

proof fn lemma_run_prefix(m0: InterpState, k: nat, n: nat)
    requires
        run(m0, n) is Some,
        k <= n,
    ensures
        run(m0, k) is Some,
    decreases k,
{
    if k > 0 && !done(m0) && step_enabled(m0) {
        lemma_run_prefix(step(m0), (k - 1) as nat, (n - 1) as nat);
    }
}

proof fn lemma_run_stable(m0: InterpState, m: InterpState, n: nat, k: nat)
    requires
        run(m0, n) == Some(m),
        done(m),
        n <= k,
    ensures
        run(m0, k) == Some(m),
    decreases n, k,
{
    if n == 0 {
        if k > 0 {
            lemma_run_stable(m0, m, n, (k - 1) as nat);
        }
    } else if done(m0) {
        lemma_run_stable(m0, m, 0, k);
    } else {
        lemma_run_stable(step(m0), m, (n - 1) as nat, (k - 1) as nat);
    }
}

/// Running one program twice from fresh, independent initial states
/// reaches the same finished state both times — in particular the same
/// output bytes — since no state is carried from one run into the next.
pub proof fn lemma_rerun_identical(input: Seq<char>, n1: nat, n2: nat)
    requires
        run(init_state(input), n1) is Some,
        done(run(init_state(input), n1)->Some_0),
        run(init_state(input), n2) is Some,
        done(run(init_state(input), n2)->Some_0),
    ensures
        run(init_state(input), n1) == run(init_state(input), n2),
{
    if n1 <= n2 {
        lemma_run_stable(init_state(input), run(init_state(input), n1)->Some_0, n1, n2);
    } else {
        lemma_run_stable(init_state(input), run(init_state(input), n2)->Some_0, n2, n1);
    }
}

/// Cells, cell pointer and output cursor: the state the generated
/// routine keeps in its scratch region and registers.
pub ghost struct CellMachine {
    /// The data cells.
    pub tape: Seq<u8>,
    /// Index of the current cell.
    pub ptr: int,
    /// The bytes written through the output cursor.
    pub out: Seq<u8>,
}

/// The effect of the instructions emitted for one operation outside loop
/// control: exactly what one pass over that operation's generated code
/// does to the cells, the cell pointer and the output cursor.
pub open spec fn straight_step(m: CellMachine, op: Ops) -> CellMachine {
    match op {
        Ops::IncrementPtr => CellMachine { ptr: m.ptr + 1, ..m },
        Ops::DecrementPtr => CellMachine { ptr: m.ptr - 1, ..m },
        Ops::Increment => CellMachine { tape: m.tape.update(m.ptr, wrap_inc(m.tape[m.ptr])), ..m },
        Ops::Decrement => CellMachine { tape: m.tape.update(m.ptr, wrap_dec(m.tape[m.ptr])), ..m },
        Ops::PutChar => CellMachine { out: m.out.push(m.tape[m.ptr]), ..m },
        _ => m,
    }
}

/// The effect of the straight-line routine emitted for a loop-free
/// operation sequence: each operation's code runs once, in order.
pub open spec fn straight_run(ops: Seq<Ops>, m: CellMachine) -> CellMachine
    decreases ops.len(),
{
    if ops.len() == 0 {
        m
    } else {
        straight_run(ops.drop_first(), straight_step(m, ops[0]))
    }
}

/// No loop operations and no reads: the generated code for such a
/// sequence is straight-line.
pub open spec fn loop_free(ops: Seq<Ops>) -> bool {
    forall|i: int|
        0 <= i < ops.len() ==> !(#[trigger] ops[i] is OpenLoop) && !(ops[i] is CloseLoop) && !(
        ops[i] is GetChar)
}

/// The cell machine a state of the interpreter presents: its cells,
/// pointer and output.
pub open spec fn cell_machine_of(m: InterpState) -> CellMachine {
    CellMachine { tape: m.data, ptr: m.ptr, out: m.output }
}

proof fn lemma_loop_free_rest(op: Ops, rest: Seq<Ops>)
    requires
        loop_free(seq![op] + rest),
    ensures
        loop_free(rest),
{
    assert forall|i: int| 0 <= i < rest.len() implies !(#[trigger] rest[i] is OpenLoop) && !(
    rest[i] is CloseLoop) && !(rest[i] is GetChar) by {
        assert((seq![op] + rest)[i + 1] == rest[i]);
    }
}

proof fn lemma_straight_sim(m: InterpState, n: nat)
    requires
        parse_from(m.input, m.index, 0) is Ok,
        loop_free(parse_from(m.input, m.index, 0)->Ok_0),
        run(m, n) is Some,
        done(run(m, n)->Some_0),
    ensures
        cell_machine_of(run(m, n)->Some_0) == straight_run(
            parse_from(m.input, m.index, 0)->Ok_0,
            cell_machine_of(m),
        ),
    decreases n,
{
    let ops = parse_from(m.input, m.index, 0)->Ok_0;
    if done(m) {
        assert(run(m, n) == Some(m));
        assert(ops =~= Seq::<Ops>::empty());
    } else {
        assert(n > 0);
        assert(step_enabled(m));
        let c = m.input[m.index];
        let m2 = step(m);
        assert(run(m, n) == run(m2, (n - 1) as nat));
        if is_bf_char(c) {
            let op = char_op(c);
            let rest = parse_from(m.input, m.index + 1, if c == '[' {
                1nat
            } else {
                0nat
            })->Ok_0;
            assert(c != ']');
            if c == '[' {
                assert(ops[0] is OpenLoop);
                assert(false);
            }
            if c == ',' {
                assert(ops[0] is GetChar);
                assert(false);
            }
            assert(ops == seq![op] + rest);
            assert(ops[0] == op);
            lemma_loop_free_rest(op, rest);
            assert(m2.input == m.input && m2.index == m.index + 1);
            assert(parse_from(m2.input, m2.index, 0) == Ok::<Seq<Ops>, int>(rest));
            assert(cell_machine_of(m2) =~= straight_step(cell_machine_of(m), op));
            lemma_straight_sim(m2, (n - 1) as nat);
            assert(ops.drop_first() =~= rest);
            assert(straight_run(ops, cell_machine_of(m)) == straight_run(
                rest,
                straight_step(cell_machine_of(m), op),
            ));
        } else {
            assert(parse_from(m.input, m.index + 1, 0) == Ok::<Seq<Ops>, int>(ops));
            assert(m2.input == m.input && m2.index == m.index + 1);
            assert(cell_machine_of(m2) =~= cell_machine_of(m));
            lemma_straight_sim(m2, (n - 1) as nat);
        }
    }
}

/// For a program that parses to a loop-free, read-free operation
/// sequence, the two backends agree: a finished interpreter run reaches
/// exactly the cells, pointer and output that the straight-line routine
/// emitted for those operations computes — in particular the same output
/// bytes — provided both start from the same zeroed cells. (The generated
/// routine's scratch region holds fewer cells than the interpreter's
/// array; the agreement is meaningful for programs that stay within the
/// cells both provide.)
pub proof fn lemma_straightline_backends_agree(input: Seq<char>, n: nat)
    requires
        spec_parse(input) is Ok,
        loop_free(spec_parse(input)->Ok_0),
        run(init_state(input), n) is Some,
        done(run(init_state(input), n)->Some_0),
    ensures
        cell_machine_of(run(init_state(input), n)->Some_0) == straight_run(
            spec_parse(input)->Ok_0,
            cell_machine_of(init_state(input)),
        ),
{
    lemma_straight_sim(init_state(input), n);
}

struct State {
    data: Vec<u8>,
    ptr: usize,
    output: Vec<u8>,
}

impl State {
    fn new() -> (s: State)
        ensures
            s.data@ == Seq::new(30000, |i: int| 0u8),
            s.ptr == 0,
            s.output@ == Seq::<u8>::empty(),
    {
        State { data: zeroed_vec(30000), ptr: 0, output: Vec::new() }
    }

    fn deref(&self) -> (b: u8)
        requires
            self.ptr < self.data@.len(),
        ensures
            b == self.data@[self.ptr as int],
    {
        self.data[self.ptr]
    }

    fn increment_ptr(&mut self)
        requires
            old(self).ptr + 1 <= usize::MAX,
        ensures
            *final(self) == (State { ptr: (old(self).ptr + 1) as usize, ..*old(self) }),
    {
        self.ptr = self.ptr + 1;
    }

    fn decrement_ptr(&mut self)
        requires
            old(self).ptr > 0,
        ensures
            *final(self) == (State { ptr: (old(self).ptr - 1) as usize, ..*old(self) }),
    {
        self.ptr = self.ptr - 1;
    }

    fn increment_value(&mut self)
        requires
            old(self).ptr < old(self).data@.len(),
        ensures
            final(self).data@ == old(self).data@.update(
                old(self).ptr as int,
                wrap_inc(old(self).data@[old(self).ptr as int]),
            ),
            final(self).ptr == old(self).ptr,
            final(self).output == old(self).output,
    {
        let v = self.data[self.ptr];
        self.data[self.ptr] = if v == 255 {
            0
        } else {
            v + 1
        };
    }

    fn decrement_value(&mut self)
        requires
            old(self).ptr < old(self).data@.len(),
        ensures
            final(self).data@ == old(self).data@.update(
                old(self).ptr as int,
                wrap_dec(old(self).data@[old(self).ptr as int]),
            ),
            final(self).ptr == old(self).ptr,
            final(self).output == old(self).output,
    {
        let v = self.data[self.ptr];
        self.data[self.ptr] = if v == 0 {
            255
        } else {
            v - 1
        };
    }

    fn putchar(&mut self)
        requires
            old(self).ptr < old(self).data@.len(),
        ensures
            final(self).output@ == old(self).output@.push(old(self).data@[old(self).ptr as int]),
            final(self).data == old(self).data,
            final(self).ptr == old(self).ptr,
    {
        let b = self.data[self.ptr];
        self.output.push(b);
    }
}

/// The tree-walking backend: executes source text directly, character by
/// character.
pub struct Interpreter {
    input: String,
    index: usize,
    loop_entry: Vec<usize>,
    state: State,
}

impl View for Interpreter {
    type V = InterpState;

    closed spec fn view(&self) -> InterpState {
        InterpState {
            input: self.input@,
            index: self.index as int,
            loop_entry: self.loop_entry@.map_values(|x: usize| x as int),
            data: self.state.data@,
            ptr: self.state.ptr as int,
            output: self.state.output@,
        }
    }
}

/// The position of the first `]` in `s` at or after `start`, if any.
fn find_close_from(s: &str, start: usize) -> (r: Option<usize>)
    ensures
        match r {
            Some(j) => find_close(s@, start as int) == Some(j as int),
            None => find_close(s@, start as int) is None,
        },
{
    let n: usize = s.unicode_len();
    let mut j: usize = start;
    while j < n
        invariant
            n == s@.len(),
            start <= j,
            find_close(s@, start as int) == find_close(s@, j as int),
        decreases n - j,
    {
        if s.get_char(j) == ']' {
            return Some(j);
        }
        j = j + 1;
    }
    None
}

impl Interpreter {
    /// A fresh interpreter with empty source text.
    pub fn new() -> (r: Interpreter)
        ensures
            r@ == init_state(Seq::<char>::empty()),
    {
        let r = Interpreter {
            input: String::new(),
            index: 0,
            loop_entry: Vec::new(),
            state: State::new(),
        };
        proof {
            assert(r@.loop_entry =~= Seq::<int>::empty());
            assert(r@ =~= init_state(Seq::<char>::empty()));
        }
        r
    }

    /// Replaces the source text; the rest of the state is kept.
    pub fn set_input(&mut self, s: String)
        ensures
            final(self)@ == (InterpState { input: s@, ..old(self)@ }),
    {
        self.input = s;
    }

    /// The bytes the run has emitted so far.
    pub fn output(&self) -> (r: &Vec<u8>)
        ensures
            r@ == self@.output,
    {
        &self.state.output
    }

    /// Dispatches one character against the current state.
    fn parse(&mut self, c: char)
        requires
            step_ok(old(self)@, c),
        ensures
            final(self)@ == dispatch(old(self)@, c),
    {
        match c {
            '>' => self.state.increment_ptr(),
            '<' => self.state.decrement_ptr(),
            '+' => self.state.increment_value(),
            '-' => self.state.decrement_value(),
            '.' => self.state.putchar(),
            '[' => {
                if self.state.deref() == 0u8 {
                    match find_close_from(self.input.as_str(), self.index) {
                        Some(j) => {
                            self.index = j;
                        },
                        None => {},
                    }
                } else {
                    self.loop_entry.push(self.index);
                    proof {
                        assert(self@.loop_entry =~= old(self)@.loop_entry.push(
                            old(self)@.index,
                        ));
                    }
                }
            },
            ']' => {
                if self.state.deref() != 0u8 {
                    let last_idx = self.loop_entry.len() - 1;
                    self.index = self.loop_entry[last_idx];
                } else {
                    if self.loop_entry.len() > 0 {
                        let _ = self.loop_entry.pop();
                        proof {
                            assert(self@.loop_entry =~= old(self)@.loop_entry.drop_last());
                        }
                    }
                }
            },
            _ => {},
        }
        proof {
            assert(self@ =~= dispatch(old(self)@, c));
        }
    }

    /// Runs the source text to completion: the final state is exactly the
    /// one the step semantics reaches. The caller vouches that the run
    /// finishes without faulting.
    pub fn execute(&mut self)
        requires
            halts(old(self)@),
        ensures
            exists|n: nat| run(old(self)@, n) == Some(final(self)@),
            done(final(self)@),
            final(self)@.input == old(self)@.input,
    {
        let n: usize = self.input.unicode_len();
        let ghost m0 = old(self)@;
        let ghost n0: nat = choose|k: nat| run(m0, k) is Some && done(run(m0, k)->Some_0);
        let ghost mut steps: nat = 0;
        while self.index < n
            invariant
                n == self@.input.len(),
                self@.input == m0.input,
                run(m0, steps) == Some(self@),
                steps <= n0,
                run(m0, n0) is Some,
                done(run(m0, n0)->Some_0),
            decreases n0 - steps,
        {
            let ghost prev = self@;
            proof {
                assert(!done(prev));
                assert(steps < n0);
                lemma_run_succ(m0, prev, steps);
                lemma_run_prefix(m0, steps + 1, n0);
                assert(run(m0, steps + 1) is Some);
            }
            let c = self.input.get_char(self.index);
            self.parse(c);
            proof {
                if c == '[' && prev.data[prev.ptr] == 0 && find_close(prev.input, prev.index)
                    is Some {
                    lemma_find_close_range(prev.input, prev.index);
                }
                assert(self@.index + 1 <= usize::MAX);
            }
            self.index = self.index + 1;
            proof {
                steps = steps + 1;
                assert(self@ =~= step(prev));
            }
        }
    }
}

} // verus!
