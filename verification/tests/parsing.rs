use whitespace::ast::{Arith, Ast, Command, Flow, Heap, Io, Label, Number, Stack};
use whitespace::parser::{parse_program, ParseError, Parser};
use whitespace::tokens::Token;

#[test]
fn parser_peek_next_consume() {
    let mut p = Parser::new(" \t\n");
    assert_eq!(p.peek(), Some(Token::Space));
    assert_eq!(p.next(), Some(Token::Space));
    assert!(!p.consume(Token::LineFeed));
    assert!(p.consume(Token::Tab));
    assert_eq!(p.next(), Some(Token::LineFeed));
    assert_eq!(p.next(), None);
    assert_eq!(p.peek(), None);
}

#[test]
fn number_space_space_tab_linefeed_is_one() {
    let mut p = Parser::new("  \t\n");
    let n: Number = p.parse().unwrap();
    assert_eq!(n, Number(1));
}

#[test]
fn number_tab_space_tab_linefeed_is_minus_one() {
    let mut p = Parser::new("\t \t\n");
    let n: Number = p.parse().unwrap();
    assert_eq!(n, Number(-1));
}

#[test]
fn number_space_linefeed_is_zero() {
    let mut p = Parser::new(" \n");
    let n: Number = p.parse().unwrap();
    assert_eq!(n, Number(0));
}

#[test]
fn number_leading_zero_digits() {
    // sign +, digits 0,0,1,0,1 -> 5
    let mut p = Parser::new("   \t \t\n");
    let n: Number = p.parse().unwrap();
    assert_eq!(n, Number(5));
}

#[test]
fn number_without_linefeed_is_malformed() {
    let mut p = Parser::new(" \t\t");
    let r: Result<Number, ParseError> = p.parse();
    assert_eq!(r, Err(ParseError::MalformedNumber));
}

#[test]
fn number_with_no_tokens_is_malformed() {
    let mut p = Parser::new("");
    let r: Result<Number, ParseError> = p.parse();
    assert_eq!(r, Err(ParseError::MalformedNumber));
}

#[test]
fn number_overflow_is_malformed_not_wrapped() {
    // sign +, then 64 one-digits: needs a 64-bit magnitude, which overflows.
    let mut text = String::from(" ");
    for _ in 0..64 {
        text.push('\t');
    }
    text.push('\n');
    let mut p = Parser::new(&text);
    let r: Result<Number, ParseError> = p.parse();
    assert_eq!(r, Err(ParseError::MalformedNumber));
}

#[test]
fn number_largest_magnitudes_parse() {
    // sign +, then 63 one-digits: i64::MAX.
    let mut text = String::from(" ");
    for _ in 0..63 {
        text.push('\t');
    }
    text.push('\n');
    let mut p = Parser::new(&text);
    let n: Number = p.parse().unwrap();
    assert_eq!(n, Number(i64::MAX));
}

#[test]
fn label_tab_space_linefeed_is_true_false() {
    let mut p = Parser::new("\t \n");
    let l: Label = p.parse().unwrap();
    assert_eq!(l, Label(vec![true, false]));
}

#[test]
fn label_immediate_linefeed_is_empty() {
    let mut p = Parser::new("\n");
    let l: Label = p.parse().unwrap();
    assert_eq!(l, Label(vec![]));
}

#[test]
fn label_without_linefeed_is_malformed() {
    let mut p = Parser::new("\t \t");
    let r: Result<Label, ParseError> = p.parse();
    assert_eq!(r, Err(ParseError::MalformedLabel));
}

#[test]
fn empty_text_parses_to_empty_program() {
    let ast = parse_program("").unwrap();
    assert_eq!(ast.commands, vec![]);
}

#[test]
fn push_one_parses() {
    // stack family, push, sign +, digit 1, end of literal
    let ast = parse_program("   \t\n").unwrap();
    assert_eq!(
        ast.commands,
        vec![Command::Stack(Stack::Push(Number(1)))]
    );
}

#[test]
fn every_command_parses() {
    let pieces = [
        "  \t\t \n",   // push -2
        " \n ",        // duplicate
        " \n\t",       // swap
        " \n\n",       // discard
        " \t  \t\n",   // copy 1
        " \t\n \t \n", // slide 2
        "\t\t ",       // store
        "\t\t\t",      // retrieve
        "\t   ",       // add
        "\t  \t",      // sub
        "\t  \n",      // mul
        "\t \t ",      // div
        "\t \t\t",     // mod
        "\n  \t\n",    // mark [true]
        "\n \t\t\n",   // call [true]
        "\n \n\t\n",   // jump [true]
        "\n\t \t\n",   // jump-if-zero [true]
        "\n\t\t\t\n",  // jump-if-neg [true]
        "\n\t\n",      // return
        "\n\n\n",      // exit
        "\t\n  ",      // output char
        "\t\n \t",     // output num
        "\t\n\t ",     // read char
        "\t\n\t\t",    // read num
    ];
    let text: String = pieces.iter().copied().collect();
    let ast = parse_program(&text).unwrap();
    let l = || Label(vec![true]);
    assert_eq!(
        ast.commands,
        vec![
            Command::Stack(Stack::Push(Number(-2))),
            Command::Stack(Stack::Duplicate),
            Command::Stack(Stack::Swap),
            Command::Stack(Stack::Discard),
            Command::Stack(Stack::Copy(Number(1))),
            Command::Stack(Stack::Slide(Number(2))),
            Command::Heap(Heap::Store),
            Command::Heap(Heap::Retrieve),
            Command::Arith(Arith::Add),
            Command::Arith(Arith::Sub),
            Command::Arith(Arith::Mul),
            Command::Arith(Arith::Div),
            Command::Arith(Arith::Mod),
            Command::Flow(Flow::Mark(l())),
            Command::Flow(Flow::Call(l())),
            Command::Flow(Flow::Jump(l())),
            Command::Flow(Flow::JumpIfZero(l())),
            Command::Flow(Flow::JumpIfNeg(l())),
            Command::Flow(Flow::Return),
            Command::Flow(Flow::Exit),
            Command::Io(Io::OutputChar),
            Command::Io(Io::OutputNum),
            Command::Io(Io::ReadChar),
            Command::Io(Io::ReadNum),
        ]
    );
}

#[test]
fn other_characters_are_ignored_inside_commands() {
    // the same push-one text, interleaved with commentary characters
    let ast = parse_program("a b c d\te\n").unwrap();
    assert_eq!(
        ast.commands,
        vec![Command::Stack(Stack::Push(Number(1)))]
    );
}

#[test]
fn lone_tab_is_unexpected_end_of_input() {
    assert_eq!(parse_program("\t"), Err(ParseError::UnexpectedEndOfInput));
}

#[test]
fn stack_tab_tab_is_unrecognized() {
    assert_eq!(parse_program(" \t\t"), Err(ParseError::UnrecognizedCommand));
}

#[test]
fn heap_linefeed_is_unrecognized() {
    assert_eq!(
        parse_program("\t\t\n"),
        Err(ParseError::UnrecognizedCommand)
    );
}

#[test]
fn arith_tab_linefeed_is_unrecognized() {
    assert_eq!(
        parse_program("\t \t\n \n"),
        Err(ParseError::UnrecognizedCommand)
    );
}

#[test]
fn flow_linefeed_space_is_unrecognized() {
    assert_eq!(
        parse_program("\n\n \n"),
        Err(ParseError::UnrecognizedCommand)
    );
}

#[test]
fn truncated_label_fails_the_whole_parse() {
    // mark command whose label never ends
    assert_eq!(parse_program("\n  \t\t"), Err(ParseError::MalformedLabel));
}

#[test]
fn a_failed_command_fails_the_whole_program() {
    // a valid exit followed by garbage: the program is not used
    assert_eq!(
        parse_program("\n\n\n \t\t"),
        Err(ParseError::UnrecognizedCommand)
    );
}

#[test]
fn ast_parses_through_the_parser_type() {
    let mut p = Parser::new("   \t\n\n\n\n");
    let ast: Ast = p.parse().unwrap();
    assert_eq!(
        ast.commands,
        vec![
            Command::Stack(Stack::Push(Number(1))),
            Command::Flow(Flow::Exit),
        ]
    );
}

#[test]
fn negative_zero_decodes_to_zero() {
    let mut p = Parser::new("\t\n");
    let n: Number = p.parse().unwrap();
    assert_eq!(n, Number(0));
}
