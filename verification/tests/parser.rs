use bfjit::parser::{parse, Ops, ParseError};

#[test]
fn parse_maps_each_symbol_in_order() {
    let ops = parse("+-><.,").unwrap();
    assert_eq!(
        ops,
        vec![
            Ops::Increment,
            Ops::Decrement,
            Ops::IncrementPtr,
            Ops::DecrementPtr,
            Ops::PutChar,
            Ops::GetChar,
        ]
    );
}

#[test]
fn parse_recognizes_loops() {
    let ops = parse("[[]]").unwrap();
    assert_eq!(
        ops,
        vec![Ops::OpenLoop, Ops::OpenLoop, Ops::CloseLoop, Ops::CloseLoop]
    );
}

#[test]
fn parse_ignores_unrecognized_characters() {
    // Order is preserved on recognized symbols, everything else is skipped:
    // the commented program parses to the same operations as the bare one.
    let commented = parse("a+b\nc[ d ]e-f").unwrap();
    let bare = parse("+[]-").unwrap();
    assert_eq!(commented, bare);
    assert_eq!(
        commented,
        vec![Ops::Increment, Ops::OpenLoop, Ops::CloseLoop, Ops::Decrement]
    );
}

#[test]
fn parse_empty_program() {
    let ops = parse("").unwrap();
    assert!(ops.is_empty());
}

#[test]
fn parse_rejects_close_at_start() {
    assert_eq!(parse("]"), Err(ParseError::UnexpectedLoopClose(0)));
}

#[test]
fn parse_rejects_close_after_balanced_loop() {
    assert_eq!(parse("[]]"), Err(ParseError::UnexpectedLoopClose(2)));
}

#[test]
fn parse_reports_character_position_not_symbol_position() {
    // The index counts every character, including ignored ones.
    assert_eq!(parse("ab]"), Err(ParseError::UnexpectedLoopClose(2)));
}

#[test]
fn parse_error_message_names_the_position() {
    let err = parse("]").unwrap_err();
    assert_eq!(err.message(), "Unexpected loop close at character: 0");
}

#[test]
fn parse_error_message_renders_multi_digit_positions() {
    let err = parse("++++++++++++]").unwrap_err();
    assert_eq!(err.message(), "Unexpected loop close at character: 12");
}
