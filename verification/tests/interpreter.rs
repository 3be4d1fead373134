use bf::command::Command;
use bf::run;

#[test]
fn prints_hello_world() {
    assert_eq!(&run("++++++++[>++++[>++>+++>+++>+<<<<-]>+>+>->>+[<]<-]>>.>---.+++++++..+++.>>.<-.<.+++.------.--------.>>+.>++.", Vec::new()), "Hello World!\n")
}

#[test]
fn reads_hello_world() {
    assert_eq!(
        &run(
            "+++++++++++[>,.<-]",
            vec!["Hello".to_string(), "World".to_string()]
        ),
        "Hello World"
    );
}

#[test]
fn comment_only_source_outputs_nothing() {
    assert_eq!(&run("hello there, nothing here is an instruction?!", Vec::new()), "");
}

#[test]
fn empty_source_outputs_nothing() {
    assert_eq!(&run("", Vec::new()), "");
}

#[test]
fn unrecognized_characters_are_skipped() {
    assert_eq!(&run("a+b+c.", Vec::new()), "\u{2}");
}

#[test]
fn increment_then_decrement_returns_to_zero() {
    assert_eq!(&run("+-.", Vec::new()), "\u{0}");
}

#[test]
fn decrement_floors_at_zero() {
    assert_eq!(&run("---.", Vec::new()), "\u{0}");
    assert_eq!(&run("+----.", Vec::new()), "\u{0}");
}

#[test]
fn increment_wraps_after_256() {
    let source = "+".repeat(256) + ".";
    assert_eq!(&run(&source, Vec::new()), "\u{0}");
}

#[test]
fn clear_loop_drains_cell() {
    assert_eq!(&run("+++++[-].", Vec::new()), "\u{0}");
}

#[test]
fn clear_loop_terminates_on_zero_cell() {
    assert_eq!(&run("[-].", Vec::new()), "\u{0}");
}

#[test]
fn unary_count_round_trips_through_output() {
    let source = "+".repeat(65) + ".";
    assert_eq!(&run(&source, Vec::new()), "A");
    let source = "+".repeat(10) + ".";
    assert_eq!(&run(&source, Vec::new()), "\n");
}

#[test]
fn exhausted_input_leaves_cell_untouched() {
    assert_eq!(&run(",.,.,.,", vec!["A".to_string()]), "AAA");
}

#[test]
fn input_words_are_joined_with_single_spaces() {
    assert_eq!(&run(",.,.,.", vec!["A".to_string(), "B".to_string()]), "A B");
}

#[test]
fn empty_words_absorb_into_the_join() {
    assert_eq!(&run(",.", vec!["".to_string(), "A".to_string()]), "A");
    assert_eq!(&run(",.,.", vec!["A".to_string(), "".to_string()]), "A ");
}

#[test]
fn input_without_words_is_a_no_op() {
    assert_eq!(&run(",.", Vec::new()), "\u{0}");
}

#[test]
fn loop_end_on_missing_cell_does_nothing() {
    assert_eq!(&run("]", Vec::new()), "");
    assert_eq!(&run("+[>]", Vec::new()), "");
}

#[test]
fn unbalanced_loop_end_falls_through() {
    assert_eq!(&run("+].", Vec::new()), "\u{1}");
}

#[test]
fn pointer_moves_between_cells() {
    assert_eq!(&run("++>+.<.", Vec::new()), "\u{1}\u{2}");
}

#[test]
fn engine_runs_decoded_commands_on_bytes() {
    let cmds = bf::command::get_commands(",+.");
    let out = bf::engine::execute(&cmds, vec![64u8]);
    let s = bf::text::collect_string(&out);
    assert_eq!(&s, "A");
}

#[test]
fn from_char_recognizes_exactly_the_eight_symbols() {
    assert_eq!(Command::from_char('>'), Some(Command::MovePointerRight));
    assert_eq!(Command::from_char('<'), Some(Command::MovePointerLeft));
    assert_eq!(Command::from_char('+'), Some(Command::Increment));
    assert_eq!(Command::from_char('-'), Some(Command::Decrement));
    assert_eq!(Command::from_char('.'), Some(Command::Output));
    assert_eq!(Command::from_char(','), Some(Command::Input));
    assert_eq!(Command::from_char('['), Some(Command::JumpStart));
    assert_eq!(Command::from_char(']'), Some(Command::JumpEnd));
    assert_eq!(Command::from_char(' '), None);
    assert_eq!(Command::from_char('x'), None);
}
