//! The lexer: turns raw source text into a sequence of the three tokens,
//! skipping every other character.

use vstd::prelude::*;
use vstd::string::StrSliceExecFns;

verus! {

/// One recognized character of source text.
#[derive(Clone, Copy, Debug, PartialEq, Eq, Structural)]
pub enum Token {
    Tab,
    LineFeed,
    Space,
}

/// The token a single character lexes to, if any.
pub open spec fn token_of_char(c: char) -> Option<Token> {
    if c == '\t' {
        Some(Token::Tab)
    } else if c == '\n' {
        Some(Token::LineFeed)
    } else if c == ' ' {
        Some(Token::Space)
    } else {
        None
    }
}

/// The token stream of a text: one token per recognized whitespace character,
/// in order; all other characters are skipped.
pub open spec fn lex_spec(s: Seq<char>) -> Seq<Token>
    decreases s.len(),
{
    if s.len() == 0 {
        Seq::empty()
    } else {
        match token_of_char(s[0]) {
            Some(t) => seq![t] + lex_spec(s.drop_first()),
            None => lex_spec(s.drop_first()),
        }
    }
}

impl Token {
    /// Classifies one character; characters other than the three whitespace
    /// characters are not tokens.
    pub fn from_char(c: char) -> (r: Option<Token>)
        ensures
            r == token_of_char(c),
    {
        match c {
            '\t' => Some(Token::Tab),
            '\n' => Some(Token::LineFeed),
            ' ' => Some(Token::Space),
            _ => None,
        }
    }
}

/// Lexes a text in a single pass. No failure mode: a text without any
/// whitespace character yields an empty token sequence.
pub fn lex(text: &str) -> (r: Vec<Token>)
    ensures
        r@ == lex_spec(text@),
{
    let n = text.unicode_len();
    let mut toks: Vec<Token> = Vec::new();
    let mut i: usize = 0;
    proof {
        assert(text@.skip(0) =~= text@);
        assert(toks@ + lex_spec(text@) =~= lex_spec(text@));
    }
    while i < n
        invariant
            n == text@.len(),
            0 <= i <= n,
            toks@ + lex_spec(text@.skip(i as int)) == lex_spec(text@),
        decreases n - i,
    {
        let c = text.get_char(i);
        proof {
            assert(text@.skip(i as int).len() > 0);
            assert(text@.skip(i as int)[0] == text@[i as int]);
            assert(text@.skip(i as int).drop_first() =~= text@.skip(i + 1));
        }
        let ghost prev = toks@;
        match Token::from_char(c) {
            Some(t) => {
                toks.push(t);
                proof {
                    assert(toks@ + lex_spec(text@.skip(i + 1)) =~= prev + lex_spec(
                        text@.skip(i as int),
                    ));
                }
            },
            None => {},
        }
        i = i + 1;
    }
    proof {
        assert(text@.skip(n as int) =~= Seq::<char>::empty());
        assert(toks@ + lex_spec(text@.skip(n as int)) =~= toks@);
    }
    toks
}

/// A text containing no whitespace character lexes to the empty token stream.
pub proof fn lemma_lex_no_whitespace_is_empty(s: Seq<char>)
    requires
        forall|i: int| 0 <= i < s.len() ==> token_of_char(#[trigger] s[i]) is None,
    ensures
        lex_spec(s).len() == 0,
    decreases s.len(),
{
    if s.len() > 0 {
        assert(forall|i: int|
            0 <= i < s.drop_first().len() ==> token_of_char(#[trigger] s.drop_first()[i])
                is None);
        lemma_lex_no_whitespace_is_empty(s.drop_first());
    }
}

} // verus!
