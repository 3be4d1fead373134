//! The mathematical model of the interpreter.
//!
//! A machine state holds the sparse tape, the cell pointer, the stack of
//! loop-start positions, the output produced so far, the input not yet
//! consumed, and the program counter. `step` gives the exact effect of one
//! instruction; `steps` iterates it; `machine_halts_with` says that a
//! program, run from the initial state on a given input, eventually halts
//! with a given output.

use vstd::prelude::*;

verus! {

use crate::command::Command;

/// A complete interpreter state, as a mathematical value.
#[verifier::ext_equal]
pub ghost struct MachineState {
    /// The sparse tape: only cells that were written have an entry.
    pub tape: Map<isize, u8>,
    /// The address of the cell under the cursor.
    pub pointer: isize,
    /// The loop-resolution stack of program positions, newest last.
    pub jumps: Seq<int>,
    /// Every character emitted so far, in order.
    pub output: Seq<char>,
    /// The bytes not yet consumed by input instructions.
    pub input: Seq<u8>,
    /// The position of the next instruction to execute.
    pub pc: int,
}

/// The value of a cell: its entry if one exists, otherwise 0.
pub open spec fn read_cell(tape: Map<isize, u8>, p: isize) -> u8 {
    if tape.contains_key(p) {
        tape[p]
    } else {
        0
    }
}

/// Increment materializes the cell and adds 1, wrapping 255 to 0.
pub open spec fn inc_cell(tape: Map<isize, u8>, p: isize) -> Map<isize, u8> {
    let v = read_cell(tape, p);
    tape.insert(p, if v == 255 { 0u8 } else { (v + 1) as u8 })
}

/// Decrement subtracts 1 from a non-zero cell, leaves a zero cell at
/// zero, and materializes a missing cell at 0 without decrementing.
pub open spec fn dec_cell(tape: Map<isize, u8>, p: isize) -> Map<isize, u8> {
    if tape.contains_key(p) {
        if tape[p] == 0 {
            tape
        } else {
            tape.insert(p, (tape[p] - 1) as u8)
        }
    } else {
        tape.insert(p, 0u8)
    }
}

/// The address one step to the right; the machine-word bound wraps.
pub open spec fn ptr_right(p: isize) -> isize {
    if p == isize::MAX {
        isize::MIN
    } else {
        (p + 1) as isize
    }
}

/// The address one step to the left; the machine-word bound wraps.
pub open spec fn ptr_left(p: isize) -> isize {
    if p == isize::MIN {
        isize::MAX
    } else {
        (p - 1) as isize
    }
}

/// The machine halts once the program counter leaves the program.
pub open spec fn halted(prog: Seq<Command>, s: MachineState) -> bool {
    !(0 <= s.pc < prog.len())
}

/// The effect of executing the single instruction at the current program
/// counter. Every instruction also advances the counter by one; a
/// backwards jump lands one past the stored loop-start position.
///
/// Loops are resolved at run time, not by bracket matching. A loop start
/// pushes its position unconditionally, so a body always runs at least
/// once. A loop end inspects the cell under the pointer only if the cell
/// has a materialized entry: non-zero jumps back, peeking at the stack
/// without popping; zero pops and falls through; a never-written cell
/// leaves both the stack and the flow of control untouched. A loop end
/// whose stack is empty falls through rather than failing.
pub open spec fn step(prog: Seq<Command>, s: MachineState) -> MachineState
    recommends
        !halted(prog, s),
{
    match prog[s.pc] {
        Command::MovePointerRight => MachineState { pointer: ptr_right(s.pointer), pc: s.pc + 1, ..s },
        Command::MovePointerLeft => MachineState { pointer: ptr_left(s.pointer), pc: s.pc + 1, ..s },
        Command::Increment => MachineState { tape: inc_cell(s.tape, s.pointer), pc: s.pc + 1, ..s },
        Command::Decrement => MachineState { tape: dec_cell(s.tape, s.pointer), pc: s.pc + 1, ..s },
        Command::Output => MachineState {
            output: s.output.push(read_cell(s.tape, s.pointer) as char),
            pc: s.pc + 1,
            ..s
        },
        Command::Input => if s.input.len() > 0 {
            MachineState {
                tape: s.tape.insert(s.pointer, s.input[0]),
                input: s.input.drop_first(),
                pc: s.pc + 1,
                ..s
            }
        } else {
            MachineState { pc: s.pc + 1, ..s }
        },
        Command::JumpStart => MachineState { jumps: s.jumps.push(s.pc), pc: s.pc + 1, ..s },
        Command::JumpEnd => if s.tape.contains_key(s.pointer) {
            if s.tape[s.pointer] != 0 {
                if s.jumps.len() > 0 {
                    MachineState { pc: s.jumps.last() + 1, ..s }
                } else {
                    MachineState { pc: s.pc + 1, ..s }
                }
            } else {
                MachineState {
                    jumps: if s.jumps.len() > 0 {
                        s.jumps.drop_last()
                    } else {
                        s.jumps
                    },
                    pc: s.pc + 1,
                    ..s
                }
            }
        } else {
            MachineState { pc: s.pc + 1, ..s }
        },
    }
}

/// The state after at most `n` instructions: iteration stops early once
/// the machine halts, so a halted state is a fixed point.
pub open spec fn steps(prog: Seq<Command>, s: MachineState, n: nat) -> MachineState
    decreases n,
{
    if n == 0 || halted(prog, s) {
        s
    } else {
        steps(prog, step(prog, s), (n - 1) as nat)
    }
}

/// The state every run starts from: empty tape, pointer at address 0,
/// empty loop stack, no output yet, the whole input ahead.
pub open spec fn init_state(input: Seq<u8>) -> MachineState {
    MachineState {
        tape: Map::empty(),
        pointer: 0isize,
        jumps: Seq::empty(),
        output: Seq::empty(),
        input: input,
        pc: 0,
    }
}

/// The program, run on the given input, eventually halts having emitted
/// exactly `out`.
pub open spec fn machine_halts_with(prog: Seq<Command>, input: Seq<u8>, out: Seq<char>) -> bool {
    exists|n: nat|
        {
            let s = #[trigger] steps(prog, init_state(input), n);
            halted(prog, s) && s.output == out
        }
}

/// Running one more step from a not-yet-halted state applies `step` once
/// more at the end.
pub proof fn lemma_steps_snoc(prog: Seq<Command>, s: MachineState, n: nat)
    requires
        !halted(prog, steps(prog, s, n)),
    ensures
        steps(prog, s, n + 1) == step(prog, steps(prog, s, n)),
    decreases n,
{
    if n == 0 {
        assert(steps(prog, s, 1) == steps(prog, step(prog, s), 0nat));
    } else if halted(prog, s) {
    } else {
        lemma_steps_snoc(prog, step(prog, s), (n - 1) as nat);
        assert(steps(prog, s, n + 1) == steps(prog, step(prog, s), n));
    }
}

/// One step from a live state is one application of `step`.
pub proof fn lemma_steps_one(prog: Seq<Command>, s: MachineState)
    requires
        !halted(prog, s),
    ensures
        steps(prog, s, 1) == step(prog, s),
{
    assert(steps(prog, step(prog, s), 0nat) == step(prog, s));
}

/// Step counts compose: `a + b` steps are `a` steps followed by `b`.
pub proof fn lemma_steps_add(prog: Seq<Command>, s: MachineState, a: nat, b: nat)
    ensures
        steps(prog, s, a + b) == steps(prog, steps(prog, s, a), b),
    decreases a,
{
    if a == 0 {
    } else if halted(prog, s) {
        assert(steps(prog, s, a + b) == s);
        assert(steps(prog, s, b) == s);
    } else {
        lemma_steps_add(prog, step(prog, s), (a - 1) as nat, b);
        assert(steps(prog, s, a + b) == steps(prog, step(prog, s), (a + b - 1) as nat));
    }
}

/// Once halted, the state never changes again.
pub proof fn lemma_steps_stable(prog: Seq<Command>, s: MachineState, n: nat, m: nat)
    requires
        n <= m,
        halted(prog, steps(prog, s, n)),
    ensures
        steps(prog, s, m) == steps(prog, s, n),
    decreases n,
{
    if n == 0 {
        assert(halted(prog, s));
    } else if halted(prog, s) {
    } else {
        lemma_steps_stable(prog, step(prog, s), (n - 1) as nat, (m - 1) as nat);
    }
}

/// Execution is deterministic: a program on a given input has at most one
/// halting output.
pub proof fn lemma_halt_output_unique(
    prog: Seq<Command>,
    input: Seq<u8>,
    out1: Seq<char>,
    out2: Seq<char>,
)
    requires
        machine_halts_with(prog, input, out1),
        machine_halts_with(prog, input, out2),
    ensures
        out1 == out2,
{
    let s0 = init_state(input);
    let n1 = choose|n: nat|
        halted(prog, #[trigger] steps(prog, s0, n)) && steps(prog, s0, n).output == out1;
    let n2 = choose|n: nat|
        halted(prog, #[trigger] steps(prog, s0, n)) && steps(prog, s0, n).output == out2;
    if n1 <= n2 {
        lemma_steps_stable(prog, s0, n1, n2);
    } else {
        lemma_steps_stable(prog, s0, n2, n1);
    }
}

} // verus!
