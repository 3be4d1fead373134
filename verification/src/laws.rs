//! Proved properties of the interpreter.
//!
//! Each proof function here states one law of the language over the spec
//! model: the decoder, the cell operations, and the step semantics of
//! `crate::machine`.

use vstd::prelude::*;

verus! {

use crate::command::{Command, command_of_char, decode};
use crate::machine::{
    MachineState, dec_cell, halted, inc_cell, init_state, lemma_steps_add, lemma_steps_one,
    lemma_steps_snoc, machine_halts_with, read_cell, step, steps,
};

/// The clear loop: enter, decrement, test.
pub open spec fn clear_loop() -> Seq<Command> {
    seq![Command::JumpStart, Command::Decrement, Command::JumpEnd]
}

/// A source string without a single recognized character decodes to the
/// empty program.
pub proof fn lemma_unrecognized_decodes_to_nothing(s: Seq<char>)
    requires
        forall|i: int| 0 <= i < s.len() ==> command_of_char(s[i]) is None,
    ensures
        decode(s) == Seq::<Command>::empty(),
    decreases s.len(),
{
    if s.len() == 0 {
    } else {
        lemma_unrecognized_decodes_to_nothing(s.drop_last());
        assert(command_of_char(s.last()) is None);
        assert(decode(s) =~= Seq::<Command>::empty());
    }
}

/// The empty program halts at once: every state it can reach is the
/// initial one, and the one output it can halt with is empty.
pub proof fn lemma_empty_program_does_nothing(prog: Seq<Command>, input: Seq<u8>)
    requires
        prog.len() == 0,
    ensures
        forall|n: nat| #[trigger] steps(prog, init_state(input), n) == init_state(input),
        machine_halts_with(prog, input, Seq::<char>::empty()),
{
    assert(halted(prog, init_state(input)));
    assert(steps(prog, init_state(input), 0nat) == init_state(input));
}

/// A run of a source string made only of unrecognized characters outputs
/// the empty string, whatever the input.
pub proof fn lemma_comment_only_source_outputs_nothing(s: Seq<char>, input: Seq<u8>)
    requires
        forall|i: int| 0 <= i < s.len() ==> command_of_char(s[i]) is None,
    ensures
        forall|n: nat|
            (#[trigger] steps(decode(s), init_state(input), n)).output == Seq::<char>::empty(),
        machine_halts_with(decode(s), input, Seq::<char>::empty()),
{
    lemma_unrecognized_decodes_to_nothing(s);
    lemma_empty_program_does_nothing(decode(s), input);
}

/// Incrementing a never-written cell and then decrementing it brings it
/// back to 0.
pub proof fn lemma_increment_then_decrement_fresh(tape: Map<isize, u8>, p: isize)
    requires
        !tape.contains_key(p),
    ensures
        read_cell(dec_cell(inc_cell(tape, p), p), p) == 0,
{
}

/// Decrementing a cell that reads 0 leaves it at 0, so any number of
/// further decrements leaves it at 0 as well.
pub proof fn lemma_decrement_floor_at_zero(tape: Map<isize, u8>, p: isize)
    requires
        read_cell(tape, p) == 0,
    ensures
        read_cell(dec_cell(tape, p), p) == 0,
{
}

/// The tape after `n` increments of the cell at `p`.
pub open spec fn inc_cell_n(tape: Map<isize, u8>, p: isize, n: nat) -> Map<isize, u8>
    decreases n,
{
    if n == 0 {
        tape
    } else {
        inc_cell(inc_cell_n(tape, p, (n - 1) as nat), p)
    }
}

/// `n` increments add `n` to the cell, modulo 256.
pub proof fn lemma_increment_adds_mod_256(tape: Map<isize, u8>, p: isize, n: nat)
    ensures
        read_cell(inc_cell_n(tape, p, n), p) == (read_cell(tape, p) + n) % 256,
    decreases n,
{
    if n == 0 {
    } else {
        lemma_increment_adds_mod_256(tape, p, (n - 1) as nat);
    }
}

/// 256 increments wrap an eight-bit cell all the way around: it reads
/// exactly what it read before.
pub proof fn lemma_increment_wraps_after_256(tape: Map<isize, u8>, p: isize)
    ensures
        read_cell(inc_cell_n(tape, p, 256), p) == read_cell(tape, p),
{
    lemma_increment_adds_mod_256(tape, p, 256);
}

/// From the start of the clear loop's body: the loop keeps decrementing
/// until the cell reads 0, then pops its stack entry and falls off the
/// end. It emits nothing, consumes nothing and moves nothing.
proof fn lemma_clear_loop_from_body(s: MachineState)
    requires
        s.pc == 1,
        s.jumps.len() > 0,
        s.jumps.last() == 0,
    ensures
        exists|n: nat|
            {
                let fin = #[trigger] steps(clear_loop(), s, n);
                &&& halted(clear_loop(), fin)
                &&& fin.pointer == s.pointer
                &&& fin.output == s.output
                &&& fin.input == s.input
                &&& fin.jumps == s.jumps.drop_last()
                &&& read_cell(fin.tape, s.pointer) == 0
            },
    decreases read_cell(s.tape, s.pointer),
{
    let prog = clear_loop();
    let v = read_cell(s.tape, s.pointer);
    let s1 = step(prog, s);
    let s2 = step(prog, s1);
    lemma_steps_one(prog, s);
    lemma_steps_add(prog, s, 1, 1);
    lemma_steps_one(prog, s1);
    assert(steps(prog, s, 2) == s2);
    assert(s1.tape.contains_key(s.pointer));
    if v > 1 {
        assert(s2.pc == 1 && s2.jumps == s.jumps && read_cell(s2.tape, s2.pointer) == v - 1);
        lemma_clear_loop_from_body(s2);
        let m = choose|n: nat|
            {
                let fin = #[trigger] steps(prog, s2, n);
                &&& halted(prog, fin)
                &&& fin.pointer == s2.pointer
                &&& fin.output == s2.output
                &&& fin.input == s2.input
                &&& fin.jumps == s2.jumps.drop_last()
                &&& read_cell(fin.tape, s2.pointer) == 0
            };
        lemma_steps_add(prog, s, 2, m);
        assert(steps(prog, s, 2 + m) == steps(prog, s2, m));
    } else {
        assert(read_cell(s1.tape, s.pointer) == 0);
        assert(s2.pc == 3 && s2.jumps == s.jumps.drop_last());
        assert(halted(prog, s2));
        assert(steps(prog, s, 2nat) == s2);
    }
}

/// The clear loop drains the cell under the pointer to exactly 0 from any
/// starting value, materialized or not -- its body runs at least once even
/// on a cell that already reads 0 -- and then halts, leaving the pointer,
/// the loop stack, the output and the input exactly as they were.
pub proof fn lemma_clear_loop_drains_cell(s: MachineState)
    requires
        s.pc == 0,
    ensures
        exists|n: nat|
            {
                let fin = #[trigger] steps(clear_loop(), s, n);
                &&& halted(clear_loop(), fin)
                &&& fin.pointer == s.pointer
                &&& fin.output == s.output
                &&& fin.input == s.input
                &&& fin.jumps == s.jumps
                &&& read_cell(fin.tape, s.pointer) == 0
            },
{
    let prog = clear_loop();
    let s1 = step(prog, s);
    lemma_steps_one(prog, s);
    assert(s1.pc == 1 && s1.jumps == s.jumps.push(0));
    lemma_clear_loop_from_body(s1);
    let m = choose|n: nat|
        {
            let fin = #[trigger] steps(prog, s1, n);
            &&& halted(prog, fin)
            &&& fin.pointer == s1.pointer
            &&& fin.output == s1.output
            &&& fin.input == s1.input
            &&& fin.jumps == s1.jumps.drop_last()
            &&& read_cell(fin.tape, s1.pointer) == 0
        };
    lemma_steps_add(prog, s, 1, m);
    assert(steps(prog, s, 1 + m) == steps(prog, s1, m));
    assert(s.jumps.push(0).drop_last() =~= s.jumps);
}

/// The clear loop's three instructions are what its three-character
/// source form decodes to.
pub proof fn lemma_clear_loop_source_decodes()
    ensures
        decode(seq!['[', '-', ']']) == clear_loop(),
{
    reveal_with_fuel(decode, 4);
    let s1 = seq!['['];
    let s2 = seq!['[', '-'];
    let s3 = seq!['[', '-', ']'];
    assert(s1.drop_last() =~= Seq::<char>::empty());
    assert(s2.drop_last() =~= s1);
    assert(s3.drop_last() =~= s2);
    assert(decode(s1) =~= seq![Command::JumpStart]);
    assert(decode(s2) =~= seq![Command::JumpStart, Command::Decrement]);
    assert(decode(s3) =~= clear_loop());
}

/// A program of `n` increments followed by one output instruction.
pub open spec fn unary_program(n: nat) -> Seq<Command> {
    Seq::new(n, |i: int| Command::Increment).push(Command::Output)
}

/// The source text of the unary program: `+` repeated `n` times, then `.`.
pub open spec fn unary_source(n: nat) -> Seq<char> {
    Seq::new(n, |i: int| '+').push('.')
}

/// A run of `n` plus signs decodes to `n` increments.
proof fn lemma_plus_run_decodes(n: nat)
    ensures
        decode(Seq::new(n, |i: int| '+')) == Seq::new(n, |i: int| Command::Increment),
    decreases n,
{
    let s = Seq::new(n, |i: int| '+');
    if n == 0 {
        assert(decode(s) =~= Seq::new(n, |i: int| Command::Increment));
    } else {
        assert(s.drop_last() =~= Seq::new((n - 1) as nat, |i: int| '+'));
        lemma_plus_run_decodes((n - 1) as nat);
        assert(decode(s) =~= Seq::new(n, |i: int| Command::Increment));
    }
}

/// The unary program is what its source text decodes to.
pub proof fn lemma_unary_source_decodes(n: nat)
    ensures
        decode(unary_source(n)) == unary_program(n),
{
    let s = unary_source(n);
    assert(s.drop_last() =~= Seq::new(n, |i: int| '+'));
    lemma_plus_run_decodes(n);
    assert(decode(s) =~= unary_program(n));
}

/// After `k` of the increments of the unary program, the cell at address
/// 0 reads `k` and nothing else has happened.
proof fn lemma_unary_progress(n: nat, input: Seq<u8>, k: nat)
    requires
        n < 256,
        k <= n,
    ensures
        ({
            let sk = steps(unary_program(n), init_state(input), k);
            &&& sk.pc == k
            &&& sk.pointer == 0
            &&& sk.jumps == Seq::<int>::empty()
            &&& sk.output == Seq::<char>::empty()
            &&& sk.input == input
            &&& read_cell(sk.tape, 0) == k
        }),
    decreases k,
{
    let prog = unary_program(n);
    if k == 0 {
        assert(steps(prog, init_state(input), 0nat) == init_state(input));
    } else {
        lemma_unary_progress(n, input, (k - 1) as nat);
        let sp = steps(prog, init_state(input), (k - 1) as nat);
        assert(prog[k - 1] == Command::Increment);
        lemma_steps_snoc(prog, init_state(input), (k - 1) as nat);
        assert(steps(prog, init_state(input), k) == step(prog, sp));
    }
}

/// Round trip through the eight-bit cell: for any `n` below 256, a
/// program of `n` increments followed by an output emits exactly one
/// character, the one with code point `n`. It halts after `n + 1` steps.
pub proof fn lemma_unary_program_outputs_its_count(n: nat, input: Seq<u8>)
    requires
        n < 256,
    ensures
        machine_halts_with(unary_program(n), input, seq![((n as u8) as char)]),
        halted(unary_program(n), steps(unary_program(n), init_state(input), n + 1)),
        steps(unary_program(n), init_state(input), n + 1).output == seq![((n as u8) as char)],
{
    let prog = unary_program(n);
    lemma_unary_progress(n, input, n);
    let sn = steps(prog, init_state(input), n);
    assert(prog[n as int] == Command::Output);
    lemma_steps_snoc(prog, init_state(input), n);
    let fin = steps(prog, init_state(input), n + 1);
    assert(fin == step(prog, sn));
    assert(fin.output =~= seq![((n as u8) as char)]);
    assert(halted(prog, fin));
}

/// Round trip from source text: for any `n` below 256, the source `+`
/// repeated `n` times followed by `.` halts with exactly one output
/// character, the one with code point `n`.
pub proof fn lemma_unary_source_round_trip(n: nat, input: Seq<u8>)
    requires
        n < 256,
    ensures
        machine_halts_with(decode(unary_source(n)), input, seq![((n as u8) as char)]),
{
    lemma_unary_source_decodes(n);
    lemma_unary_program_outputs_its_count(n, input);
}

} // verus!
