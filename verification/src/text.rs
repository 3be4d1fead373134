//! Text adaptation around the engine.
//!
//! The engine consumes bytes and produces characters. This module joins
//! the caller's input words into one string, a single space before each
//! word that follows a non-empty prefix, whose UTF-8 bytes feed the
//! engine; and it turns the engine's character output into the final
//! string.

use vstd::prelude::*;
use vstd::string::StringExecFns;

verus! {

/// The characters of the input words joined left to right: a word is
/// appended as-is while the accumulated text is empty, and after a single
/// space otherwise.
pub open spec fn join_words(words: Seq<Seq<char>>) -> Seq<char>
    decreases words.len(),
{
    if words.len() == 0 {
        Seq::empty()
    } else {
        let acc = join_words(words.drop_last());
        if acc.len() == 0 {
            words.last()
        } else {
            acc + seq![' '] + words.last()
        }
    }
}

/// Join the input words into one string, as `join_words` describes.
pub fn join_args(args: &Vec<String>) -> (r: String)
    ensures
        r@ == join_words(args.deep_view()),
{
    let ghost words = args.deep_view();
    let mut acc = String::new();
    let mut i: usize = 0;
    while i < args.len()
        invariant
            words == args.deep_view(),
            i <= args.len(),
            acc@ == join_words(words.take(i as int)),
        decreases args.len() - i,
    {
        proof {
            assert(words.take(i + 1).drop_last() =~= words.take(i as int));
            assert(words.take(i + 1).last() == args@[i as int]@);
        }
        if !acc.as_str().is_empty() {
            acc.append(" ");
            proof {
                reveal_strlit(" ");
                assert(" "@ =~= seq![' ']);
            }
        }
        acc.append(args[i].as_str());
        i = i + 1;
    }
    proof {
        assert(words.take(args@.len() as int) =~= words);
    }
    acc
}

/// Relies on `String::push`: appends the given character to the end of
/// the string.
#[verifier::external_body]
fn push_char(s: &mut String, c: char)
    ensures
        final(s)@ == old(s)@.push(c),
{
    s.push(c);
}

/// Collect a character sequence into a string with exactly those
/// characters.
pub fn collect_string(chars: &Vec<char>) -> (r: String)
    ensures
        r@ == chars@,
{
    let mut r = String::new();
    let mut i: usize = 0;
    while i < chars.len()
        invariant
            i <= chars.len(),
            r@ == chars@.take(i as int),
        decreases chars.len() - i,
    {
        push_char(&mut r, chars[i]);
        proof {
            assert(chars@.take(i + 1) =~= chars@.take(i as int).push(chars@[i as int]));
        }
        i = i + 1;
    }
    proof {
        assert(chars@.take(chars@.len() as int) =~= chars@);
    }
    r
}

} // verus!
