//! An interpreter for an eight-instruction tape language.
//!
//! A source string is decoded into a sequence of instructions, which a
//! fetch/decode/execute loop then runs against a sparse byte tape. Loops are
//! resolved at run time through a stack of bracket positions; the exact
//! push/peek/pop policy of that stack is part of the specified semantics.

use vstd::prelude::*;

pub mod command;
pub mod engine;
pub mod laws;
pub mod machine;
pub mod text;

verus! {

use crate::command::decode;
use crate::engine::MAX_STEPS;
use crate::machine::{halted, init_state, machine_halts_with, steps};
use crate::text::join_words;
use vstd::utf8::encode_utf8;

/// Interpret the program in `s` with the given input words.
///
/// The words are joined with single spaces and their UTF-8 bytes feed the
/// program's input instructions. The result is exactly the output of the
/// abstract machine of `crate::machine` on the decoded program, run for
/// at most `MAX_STEPS` steps; a program that halts within that budget --
/// every program that terminates in practice does -- yields its halting
/// output.
pub fn run(s: &str, args: Vec<String>) -> (r: String)
    ensures
        ({
            let prog = decode(s@);
            let input = encode_utf8(join_words(args.deep_view()));
            &&& r@ == steps(prog, init_state(input), MAX_STEPS as nat).output
            &&& halted(prog, steps(prog, init_state(input), MAX_STEPS as nat))
                ==> machine_halts_with(prog, input, r@)
        }),
{
    let cmds = crate::command::get_commands(s);
    let joined = crate::text::join_args(&args);
    let input = joined.as_str().as_bytes_vec();
    let out = crate::engine::execute(&cmds, input);
    crate::text::collect_string(&out)
}

} // verus!
