use whitespace::tokens::{lex, Token};

#[test]
fn from_char_recognizes_the_three_tokens() {
    assert_eq!(Token::from_char('\t'), Some(Token::Tab));
    assert_eq!(Token::from_char('\n'), Some(Token::LineFeed));
    assert_eq!(Token::from_char(' '), Some(Token::Space));
    assert_eq!(Token::from_char('a'), None);
    assert_eq!(Token::from_char('\r'), None);
    assert_eq!(Token::from_char('\u{a0}'), None);
}

#[test]
fn lex_empty_text_yields_no_tokens() {
    assert_eq!(lex(""), vec![]);
}

#[test]
fn lex_text_without_whitespace_yields_no_tokens() {
    assert_eq!(lex("abcdefXYZ123;#!?"), vec![]);
    assert_eq!(lex("\r\u{b}\u{c}"), vec![]);
}

#[test]
fn lex_keeps_whitespace_in_order_and_skips_the_rest() {
    assert_eq!(
        lex("a \tb\nc"),
        vec![Token::Space, Token::Tab, Token::LineFeed]
    );
    assert_eq!(
        lex(" \t\n \t\n"),
        vec![
            Token::Space,
            Token::Tab,
            Token::LineFeed,
            Token::Space,
            Token::Tab,
            Token::LineFeed
        ]
    );
}
