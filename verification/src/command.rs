//! Decoding source text into instructions.
//!
//! Each of the eight recognized characters maps to one instruction;
//! every other character is skipped, so arbitrary prose in a source
//! string acts as a comment. Decoding never fails.

use vstd::prelude::*;
use vstd::string::StrSliceExecFns;

verus! {

/// One instruction of the language.
#[derive(Clone, Copy, Debug, PartialEq, Eq, Structural)]
pub enum Command {
    MovePointerRight,
    MovePointerLeft,
    Increment,
    Decrement,
    Output,
    Input,
    JumpStart,
    JumpEnd,
}

/// The instruction a single character decodes to, if any.
pub open spec fn command_of_char(ch: char) -> Option<Command> {
    if ch == '>' {
        Some(Command::MovePointerRight)
    } else if ch == '<' {
        Some(Command::MovePointerLeft)
    } else if ch == '+' {
        Some(Command::Increment)
    } else if ch == '-' {
        Some(Command::Decrement)
    } else if ch == '.' {
        Some(Command::Output)
    } else if ch == ',' {
        Some(Command::Input)
    } else if ch == '[' {
        Some(Command::JumpStart)
    } else if ch == ']' {
        Some(Command::JumpEnd)
    } else {
        None
    }
}

/// The instruction sequence a source string decodes to: recognized
/// characters in source order, everything else dropped.
pub open spec fn decode(s: Seq<char>) -> Seq<Command>
    decreases s.len(),
{
    if s.len() == 0 {
        Seq::empty()
    } else {
        decode(s.drop_last()) + match command_of_char(s.last()) {
            Some(c) => seq![c],
            None => Seq::<Command>::empty(),
        }
    }
}

impl Command {
    /// Decode one character.
    pub fn from_char(ch: char) -> (r: Option<Self>)
        ensures
            r == command_of_char(ch),
    {
        match ch {
            '>' => Some(Self::MovePointerRight),
            '<' => Some(Self::MovePointerLeft),
            '+' => Some(Self::Increment),
            '-' => Some(Self::Decrement),
            '.' => Some(Self::Output),
            ',' => Some(Self::Input),
            '[' => Some(Self::JumpStart),
            ']' => Some(Self::JumpEnd),
            _ => None,
        }
    }
}

/// Extending a decoded prefix by one character appends at most one command.
proof fn lemma_decode_take_step(s: Seq<char>, i: int)
    requires
        0 <= i < s.len(),
    ensures
        decode(s.take(i + 1)) == decode(s.take(i)) + match command_of_char(s[i]) {
            Some(c) => seq![c],
            None => Seq::<Command>::empty(),
        },
{
    let t = s.take(i + 1);
    assert(t.drop_last() =~= s.take(i));
    assert(t.last() == s[i]);
}

/// Decode a whole source string.
pub fn get_commands(s: &str) -> (r: Vec<Command>)
    ensures
        r@ == decode(s@),
{
    let n = s.unicode_len();
    let mut r: Vec<Command> = Vec::new();
    let mut i: usize = 0;
    while i < n
        invariant
            n == s@.len(),
            i <= n,
            r@ == decode(s@.take(i as int)),
        decreases n - i,
    {
        let ch = s.get_char(i);
        proof {
            lemma_decode_take_step(s@, i as int);
        }
        match Command::from_char(ch) {
            Some(c) => {
                r.push(c);
            },
            None => {},
        }
        i = i + 1;
    }
    proof {
        assert(s@.take(n as int) =~= s@);
    }
    r
}

} // verus!
