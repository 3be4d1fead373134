//! The executable fetch/decode/execute loop.
//!
//! `execute` runs a decoded program against a hash-map-backed sparse tape
//! and is proved to follow the step semantics of `crate::machine` exactly,
//! one loop iteration per abstract step. Termination has to be provable,
//! so a run is bounded by the step budget `MAX_STEPS`; within it, the
//! result is the machine's halting output.

use vstd::prelude::*;

use std::collections::HashMap;

verus! {

broadcast use vstd::std_specs::hash::group_hash_axioms;

use crate::command::Command;
use crate::machine::{
    MachineState, halted, init_state, machine_halts_with, ptr_left, ptr_right, step, steps,
};
use crate::machine::lemma_steps_snoc;

/// The abstract machine state that a set of concrete interpreter
/// variables stands for.
pub open spec fn abstracted(
    tape: Map<isize, u8>,
    pointer: isize,
    jumps: Seq<usize>,
    output: Seq<char>,
    input: Seq<u8>,
    pc: usize,
) -> MachineState {
    MachineState {
        tape: tape,
        pointer: pointer,
        jumps: jumps.map_values(|j: usize| j as int),
        output: output,
        input: input,
        pc: pc as int,
    }
}

/// Read the cell under the pointer: its entry if present, otherwise 0.
fn read_current(tape: &HashMap<isize, u8>, pointer: isize) -> (r: Option<u8>)
    ensures
        match r {
            Some(v) => tape@.contains_key(pointer) && tape@[pointer] == v,
            None => !tape@.contains_key(pointer),
        },
{
    match tape.get(&pointer) {
        Some(v) => Some(*v),
        None => None,
    }
}

/// The step budget of one run. Termination of the interpreter loop must
/// be provable, so the loop is bounded; the budget is far beyond what any
/// terminating program reaches in practice.
pub const MAX_STEPS: u64 = u64::MAX;

/// Run a program on the given input bytes.
///
/// The result is exactly the output of the abstract machine after at
/// most `MAX_STEPS` steps. When the machine halts within that budget --
/// every program that terminates in practice does -- the result is its
/// halting output; a program still looping when the budget runs out
/// yields the output it had produced by then.
pub fn execute(cmds: &Vec<Command>, input: Vec<u8>) -> (out: Vec<char>)
    ensures
        out@ == steps(cmds@, init_state(input@), MAX_STEPS as nat).output,
        halted(cmds@, steps(cmds@, init_state(input@), MAX_STEPS as nat)) ==> machine_halts_with(
            cmds@,
            input@,
            out@,
        ),
{
    let ghost prog = cmds@;
    let ghost input0 = input@;

    let mut tape: HashMap<isize, u8> = HashMap::new();
    let mut pointer: isize = 0;
    let mut jumps: Vec<usize> = Vec::new();
    let mut output: Vec<char> = Vec::new();
    let mut input = input;
    let mut pc: usize = 0;
    let mut left: u64 = MAX_STEPS;
    let ghost mut n: nat = 0;

    proof {
        assert(jumps@.map_values(|j: usize| j as int) =~= Seq::<int>::empty());
        assert(abstracted(tape@, pointer, jumps@, output@, input@, pc) == init_state(input0));
    }

    while pc < cmds.len() && left > 0
        invariant
            prog == cmds@,
            n + left == MAX_STEPS as nat,
            steps(prog, init_state(input0), n) == abstracted(
                tape@,
                pointer,
                jumps@,
                output@,
                input@,
                pc,
            ),
            forall|i: int| 0 <= i < jumps@.len() ==> jumps@[i] < cmds@.len(),
            pc <= cmds.len(),
        decreases left,
    {
        let ghost pre = abstracted(tape@, pointer, jumps@, output@, input@, pc);
        proof {
            assert(!halted(prog, pre));
            lemma_steps_snoc(prog, init_state(input0), n);
        }
        match cmds[pc] {
            Command::MovePointerRight => {
                if pointer == isize::MAX {
                    pointer = isize::MIN;
                } else {
                    pointer = pointer + 1;
                }
                proof {
                    assert(pointer == ptr_right(pre.pointer));
                }
            },
            Command::MovePointerLeft => {
                if pointer == isize::MIN {
                    pointer = isize::MAX;
                } else {
                    pointer = pointer - 1;
                }
                proof {
                    assert(pointer == ptr_left(pre.pointer));
                }
            },
            Command::Increment => {
                let v: u8 = match read_current(&tape, pointer) {
                    Some(v) => v,
                    None => 0,
                };
                let next: u8 = if v == 255 {
                    0
                } else {
                    v + 1
                };
                tape.insert(pointer, next);
            },
            Command::Decrement => {
                match read_current(&tape, pointer) {
                    Some(v) => {
                        if v != 0 {
                            tape.insert(pointer, v - 1);
                        }
                    },
                    None => {
                        tape.insert(pointer, 0);
                    },
                }
            },
            Command::Output => {
                let v: u8 = match read_current(&tape, pointer) {
                    Some(v) => v,
                    None => 0,
                };
                output.push(v as char);
            },
            Command::Input => {
                if input.len() > 0 {
                    let b: u8 = input.remove(0);
                    tape.insert(pointer, b);
                    proof {
                        assert(input@ =~= pre.input.drop_first());
                    }
                }
            },
            Command::JumpStart => {
                jumps.push(pc);
                proof {
                    assert(jumps@.map_values(|j: usize| j as int) =~= pre.jumps.push(pc as int));
                }
            },
            Command::JumpEnd => {
                match read_current(&tape, pointer) {
                    Some(v) => {
                        if v != 0 {
                            if jumps.len() > 0 {
                                pc = jumps[jumps.len() - 1];
                                proof {
                                    assert(pc as int == pre.jumps.last());
                                }
                            }
                        } else {
                            jumps.pop();
                            proof {
                                if pre.jumps.len() > 0 {
                                    assert(jumps@.map_values(|j: usize| j as int)
                                        =~= pre.jumps.drop_last());
                                } else {
                                    assert(jumps@.map_values(|j: usize| j as int) =~= pre.jumps);
                                }
                            }
                        }
                    },
                    None => {},
                }
            },
        }
        pc = pc + 1;
        left = left - 1;
        proof {
            n = n + 1;
            assert(abstracted(tape@, pointer, jumps@, output@, input@, pc) =~= step(prog, pre));
        }
    }

    proof {
        let fin = steps(prog, init_state(input0), n);
        if pc >= cmds.len() {
            assert(halted(prog, fin));
            crate::machine::lemma_steps_stable(prog, init_state(input0), n, MAX_STEPS as nat);
        }
        assert(steps(prog, init_state(input0), MAX_STEPS as nat).output == output@);
        if halted(prog, steps(prog, init_state(input0), MAX_STEPS as nat)) {
            assert(machine_halts_with(prog, input0, output@));
        }
    }
    output
}

} // verus!
