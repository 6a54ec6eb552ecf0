//! A predictive recursive-descent parser over the token stream. Each command
//! is classified by its leading tokens into one of five families, and the
//! operand-bearing commands invoke the number and label sub-parsers.
//!
//! Every parsing function is specified against a spec-level parse function on
//! `Seq<Token>`; the spec functions together form the grammar.

use crate::ast::{Arith, Ast, CmdV, Command, Flow, Heap, Io, Label, Number, Stack};
use crate::tokens::{lex, lex_spec, Token};
use vstd::prelude::*;

verus! {

/// Why parsing failed. Any of these aborts the whole compilation: the program
/// produced so far is not used.
#[derive(Clone, Copy, Debug, PartialEq, Eq, Structural)]
pub enum ParseError {
    /// A number literal with no terminating linefeed, or whose magnitude
    /// overflows the signed 64-bit range.
    MalformedNumber,
    /// A label with no terminating linefeed.
    MalformedLabel,
    /// The token stream ended at a point where a command needed more tokens.
    UnexpectedEndOfInput,
    /// A token sequence that starts no command.
    UnrecognizedCommand,
}

/// The outcome a parsing function is specified by: the parsed value together
/// with the unconsumed rest of the stream, or the parse error.
#[verifier::ext_equal]
pub enum Parsed<T> {
    Found(T, Seq<Token>),
    Failed(ParseError),
}

/// Digits of a number literal, most significant first: space is 0, tab is 1,
/// a linefeed ends the literal. `acc` is the value of the digits already read.
/// Overflow of the signed 64-bit range is a hard failure.
pub open spec fn spec_parse_digits(toks: Seq<Token>, acc: i64) -> Parsed<i64>
    decreases toks.len(),
{
    if toks.len() == 0 {
        Parsed::Failed(ParseError::MalformedNumber)
    } else {
        match toks[0] {
            Token::LineFeed => Parsed::Found(acc, toks.drop_first()),
            Token::Space => if acc > i64::MAX / 2 {
                Parsed::Failed(ParseError::MalformedNumber)
            } else {
                spec_parse_digits(toks.drop_first(), (2 * acc) as i64)
            },
            Token::Tab => if acc > i64::MAX / 2 {
                Parsed::Failed(ParseError::MalformedNumber)
            } else {
                spec_parse_digits(toks.drop_first(), (2 * acc + 1) as i64)
            },
        }
    }
}

/// A number literal: a sign token (space non-negative, tab negative), then
/// binary digits until a linefeed. An empty digit sequence denotes zero.
pub open spec fn spec_parse_number(toks: Seq<Token>) -> Parsed<i64> {
    if toks.len() == 0 {
        Parsed::Failed(ParseError::MalformedNumber)
    } else {
        match toks[0] {
            Token::Space => spec_parse_digits(toks.drop_first(), 0),
            Token::Tab => match spec_parse_digits(toks.drop_first(), 0) {
                Parsed::Found(m, rest) => Parsed::Found((-m) as i64, rest),
                Parsed::Failed(e) => Parsed::Failed(e),
            },
            Token::LineFeed => Parsed::Failed(ParseError::MalformedNumber),
        }
    }
}

/// A label literal: tab is true, space is false, a linefeed ends the literal.
/// The empty bit-string is a valid label.
pub open spec fn spec_parse_label(toks: Seq<Token>) -> Parsed<Seq<bool>>
    decreases toks.len(),
{
    if toks.len() == 0 {
        Parsed::Failed(ParseError::MalformedLabel)
    } else {
        match toks[0] {
            Token::LineFeed => Parsed::Found(Seq::empty(), toks.drop_first()),
            Token::Space => match spec_parse_label(toks.drop_first()) {
                Parsed::Found(bits, rest) => Parsed::Found(seq![false] + bits, rest),
                Parsed::Failed(e) => Parsed::Failed(e),
            },
            Token::Tab => match spec_parse_label(toks.drop_first()) {
                Parsed::Found(bits, rest) => Parsed::Found(seq![true] + bits, rest),
                Parsed::Failed(e) => Parsed::Failed(e),
            },
        }
    }
}

/// A stack command, after its leading space has been consumed.
pub open spec fn spec_parse_stack(toks: Seq<Token>) -> Parsed<CmdV> {
    if toks.len() == 0 {
        Parsed::Failed(ParseError::UnexpectedEndOfInput)
    } else {
        match toks[0] {
            Token::Space => match spec_parse_number(toks.drop_first()) {
                Parsed::Found(n, rest) => Parsed::Found(CmdV::Push(n), rest),
                Parsed::Failed(e) => Parsed::Failed(e),
            },
            Token::LineFeed => if toks.len() < 2 {
                Parsed::Failed(ParseError::UnexpectedEndOfInput)
            } else {
                match toks[1] {
                    Token::Space => Parsed::Found(CmdV::Duplicate, toks.skip(2)),
                    Token::Tab => Parsed::Found(CmdV::Swap, toks.skip(2)),
                    Token::LineFeed => Parsed::Found(CmdV::Discard, toks.skip(2)),
                }
            },
            Token::Tab => if toks.len() < 2 {
                Parsed::Failed(ParseError::UnexpectedEndOfInput)
            } else {
                match toks[1] {
                    Token::Space => match spec_parse_number(toks.skip(2)) {
                        Parsed::Found(n, rest) => Parsed::Found(CmdV::Copy(n), rest),
                        Parsed::Failed(e) => Parsed::Failed(e),
                    },
                    Token::LineFeed => match spec_parse_number(toks.skip(2)) {
                        Parsed::Found(n, rest) => Parsed::Found(CmdV::Slide(n), rest),
                        Parsed::Failed(e) => Parsed::Failed(e),
                    },
                    Token::Tab => Parsed::Failed(ParseError::UnrecognizedCommand),
                }
            },
        }
    }
}

/// A heap command, after its leading tab-tab has been consumed.
pub open spec fn spec_parse_heap(toks: Seq<Token>) -> Parsed<CmdV> {
    if toks.len() == 0 {
        Parsed::Failed(ParseError::UnexpectedEndOfInput)
    } else {
        match toks[0] {
            Token::Space => Parsed::Found(CmdV::Store, toks.drop_first()),
            Token::Tab => Parsed::Found(CmdV::Retrieve, toks.drop_first()),
            Token::LineFeed => Parsed::Failed(ParseError::UnrecognizedCommand),
        }
    }
}

/// An arithmetic command, after its leading tab-space has been consumed.
pub open spec fn spec_parse_arith(toks: Seq<Token>) -> Parsed<CmdV> {
    if toks.len() == 0 {
        Parsed::Failed(ParseError::UnexpectedEndOfInput)
    } else {
        match toks[0] {
            Token::Space => if toks.len() < 2 {
                Parsed::Failed(ParseError::UnexpectedEndOfInput)
            } else {
                match toks[1] {
                    Token::Space => Parsed::Found(CmdV::Add, toks.skip(2)),
                    Token::Tab => Parsed::Found(CmdV::Sub, toks.skip(2)),
                    Token::LineFeed => Parsed::Found(CmdV::Mul, toks.skip(2)),
                }
            },
            Token::Tab => if toks.len() < 2 {
                Parsed::Failed(ParseError::UnexpectedEndOfInput)
            } else {
                match toks[1] {
                    Token::Space => Parsed::Found(CmdV::Div, toks.skip(2)),
                    Token::Tab => Parsed::Found(CmdV::Mod, toks.skip(2)),
                    Token::LineFeed => Parsed::Failed(ParseError::UnrecognizedCommand),
                }
            },
            Token::LineFeed => Parsed::Failed(ParseError::UnrecognizedCommand),
        }
    }
}

/// A control-flow command, after its leading linefeed has been consumed.
pub open spec fn spec_parse_flow(toks: Seq<Token>) -> Parsed<CmdV> {
    if toks.len() == 0 {
        Parsed::Failed(ParseError::UnexpectedEndOfInput)
    } else {
        match toks[0] {
            Token::Space => if toks.len() < 2 {
                Parsed::Failed(ParseError::UnexpectedEndOfInput)
            } else {
                match toks[1] {
                    Token::Space => match spec_parse_label(toks.skip(2)) {
                        Parsed::Found(l, rest) => Parsed::Found(CmdV::Mark(l), rest),
                        Parsed::Failed(e) => Parsed::Failed(e),
                    },
                    Token::Tab => match spec_parse_label(toks.skip(2)) {
                        Parsed::Found(l, rest) => Parsed::Found(CmdV::Call(l), rest),
                        Parsed::Failed(e) => Parsed::Failed(e),
                    },
                    Token::LineFeed => match spec_parse_label(toks.skip(2)) {
                        Parsed::Found(l, rest) => Parsed::Found(CmdV::Jump(l), rest),
                        Parsed::Failed(e) => Parsed::Failed(e),
                    },
                }
            },
            Token::Tab => if toks.len() < 2 {
                Parsed::Failed(ParseError::UnexpectedEndOfInput)
            } else {
                match toks[1] {
                    Token::Space => match spec_parse_label(toks.skip(2)) {
                        Parsed::Found(l, rest) => Parsed::Found(CmdV::JumpIfZero(l), rest),
                        Parsed::Failed(e) => Parsed::Failed(e),
                    },
                    Token::Tab => match spec_parse_label(toks.skip(2)) {
                        Parsed::Found(l, rest) => Parsed::Found(CmdV::JumpIfNeg(l), rest),
                        Parsed::Failed(e) => Parsed::Failed(e),
                    },
                    Token::LineFeed => Parsed::Found(CmdV::Return, toks.skip(2)),
                }
            },
            Token::LineFeed => if toks.len() < 2 {
                Parsed::Failed(ParseError::UnexpectedEndOfInput)
            } else {
                match toks[1] {
                    Token::LineFeed => Parsed::Found(CmdV::Exit, toks.skip(2)),
                    Token::Space => Parsed::Failed(ParseError::UnrecognizedCommand),
                    Token::Tab => Parsed::Failed(ParseError::UnrecognizedCommand),
                }
            },
        }
    }
}

/// An I/O command, after its leading tab-linefeed has been consumed.
pub open spec fn spec_parse_io(toks: Seq<Token>) -> Parsed<CmdV> {
    if toks.len() == 0 {
        Parsed::Failed(ParseError::UnexpectedEndOfInput)
    } else {
        match toks[0] {
            Token::Space => if toks.len() < 2 {
                Parsed::Failed(ParseError::UnexpectedEndOfInput)
            } else {
                match toks[1] {
                    Token::Space => Parsed::Found(CmdV::OutputChar, toks.skip(2)),
                    Token::Tab => Parsed::Found(CmdV::OutputNum, toks.skip(2)),
                    Token::LineFeed => Parsed::Failed(ParseError::UnrecognizedCommand),
                }
            },
            Token::Tab => if toks.len() < 2 {
                Parsed::Failed(ParseError::UnexpectedEndOfInput)
            } else {
                match toks[1] {
                    Token::Space => Parsed::Found(CmdV::ReadChar, toks.skip(2)),
                    Token::Tab => Parsed::Found(CmdV::ReadNum, toks.skip(2)),
                    Token::LineFeed => Parsed::Failed(ParseError::UnrecognizedCommand),
                }
            },
            Token::LineFeed => Parsed::Failed(ParseError::UnrecognizedCommand),
        }
    }
}

/// One command: the first token picks the family (space: stack; linefeed:
/// flow; tab: a second token picks heap, arithmetic, or I/O).
pub open spec fn spec_parse_command(toks: Seq<Token>) -> Parsed<CmdV> {
    if toks.len() == 0 {
        Parsed::Failed(ParseError::UnexpectedEndOfInput)
    } else {
        match toks[0] {
            Token::Space => spec_parse_stack(toks.drop_first()),
            Token::LineFeed => spec_parse_flow(toks.drop_first()),
            Token::Tab => if toks.len() < 2 {
                Parsed::Failed(ParseError::UnexpectedEndOfInput)
            } else {
                match toks[1] {
                    Token::Tab => spec_parse_heap(toks.skip(2)),
                    Token::Space => spec_parse_arith(toks.skip(2)),
                    Token::LineFeed => spec_parse_io(toks.skip(2)),
                }
            },
        }
    }
}

/// The whole program: one command per iteration until the stream is
/// exhausted. Parsing is greedy and total; any command error is the result.
pub open spec fn spec_parse_program(toks: Seq<Token>) -> Result<Seq<CmdV>, ParseError>
    decreases toks.len(),
    via spec_parse_program_decreases
{
    if toks.len() == 0 {
        Ok(Seq::empty())
    } else {
        match spec_parse_command(toks) {
            Parsed::Found(c, rest) => match spec_parse_program(rest) {
                Ok(cs) => Ok(seq![c] + cs),
                Err(e) => Err(e),
            },
            Parsed::Failed(e) => Err(e),
        }
    }
}

#[via_fn]
proof fn spec_parse_program_decreases(toks: Seq<Token>) {
    lemma_spec_parse_command_consumes(toks);
}

/// The digit sub-parser keeps a non-negative accumulator non-negative and
/// always consumes at least its terminating linefeed.
pub proof fn lemma_spec_parse_digits_consumes(toks: Seq<Token>, acc: i64)
    requires
        acc >= 0,
    ensures
        match spec_parse_digits(toks, acc) {
            Parsed::Found(m, rest) => m >= 0 && rest.len() < toks.len(),
            Parsed::Failed(_) => true,
        },
    decreases toks.len(),
{
    if toks.len() > 0 {
        match toks[0] {
            Token::LineFeed => {},
            Token::Space => {
                if acc <= i64::MAX / 2 {
                    lemma_spec_parse_digits_consumes(toks.drop_first(), (2 * acc) as i64);
                }
            },
            Token::Tab => {
                if acc <= i64::MAX / 2 {
                    lemma_spec_parse_digits_consumes(toks.drop_first(), (2 * acc + 1) as i64);
                }
            },
        }
    }
}

/// A parsed number leaves a strictly shorter stream.
pub proof fn lemma_spec_parse_number_consumes(toks: Seq<Token>)
    ensures
        match spec_parse_number(toks) {
            Parsed::Found(_, rest) => rest.len() < toks.len(),
            Parsed::Failed(_) => true,
        },
{
    if toks.len() > 0 {
        lemma_spec_parse_digits_consumes(toks.drop_first(), 0);
    }
}

/// A parsed label leaves a strictly shorter stream.
pub proof fn lemma_spec_parse_label_consumes(toks: Seq<Token>)
    ensures
        match spec_parse_label(toks) {
            Parsed::Found(_, rest) => rest.len() < toks.len(),
            Parsed::Failed(_) => true,
        },
    decreases toks.len(),
{
    if toks.len() > 0 {
        match toks[0] {
            Token::LineFeed => {},
            Token::Space => lemma_spec_parse_label_consumes(toks.drop_first()),
            Token::Tab => lemma_spec_parse_label_consumes(toks.drop_first()),
        }
    }
}

/// A parsed command consumes at least one token.
pub proof fn lemma_spec_parse_command_consumes(toks: Seq<Token>)
    ensures
        match spec_parse_command(toks) {
            Parsed::Found(_, rest) => rest.len() < toks.len(),
            Parsed::Failed(_) => true,
        },
{
    if toks.len() > 0 {
        let tail = toks.drop_first();
        match toks[0] {
            Token::Space => {
                if tail.len() > 0 {
                    match tail[0] {
                        Token::Space => lemma_spec_parse_number_consumes(tail.drop_first()),
                        Token::Tab => {
                            if tail.len() >= 2 {
                                lemma_spec_parse_number_consumes(tail.skip(2));
                            }
                        },
                        Token::LineFeed => {},
                    }
                }
            },
            Token::LineFeed => {
                if tail.len() > 0 {
                    match tail[0] {
                        Token::Space => {
                            if tail.len() >= 2 {
                                lemma_spec_parse_label_consumes(tail.skip(2));
                            }
                        },
                        Token::Tab => {
                            if tail.len() >= 2 {
                                lemma_spec_parse_label_consumes(tail.skip(2));
                            }
                        },
                        Token::LineFeed => {},
                    }
                }
            },
            Token::Tab => {},
        }
    }
}

/// A stream of tokens with a cursor; parsing consumes from the front. The
/// view is the unconsumed rest of the stream.
pub struct Parser {
    tokens: Vec<Token>,
    pos: usize,
}

impl View for Parser {
    type V = Seq<Token>;

    closed spec fn view(&self) -> Seq<Token> {
        self.tokens@.skip(self.pos as int)
    }
}

impl Parser {
    /// The cursor never runs past the end of the stream.
    pub closed spec fn wf(&self) -> bool {
        self.pos <= self.tokens@.len()
    }

    /// Lexes a text and positions the cursor at its first token.
    pub fn new(buf: &str) -> (p: Parser)
        ensures
            p.wf(),
            p@ == lex_spec(buf@),
    {
        let tokens = lex(buf);
        let p = Parser { tokens, pos: 0 };
        proof {
            assert(p@ =~= lex_spec(buf@));
        }
        p
    }

    /// The next token, without consuming it.
    pub fn peek(&self) -> (r: Option<Token>)
        requires
            self.wf(),
        ensures
            r == if self@.len() > 0 {
                Some(self@[0])
            } else {
                None::<Token>
            },
    {
        if self.pos < self.tokens.len() {
            Some(self.tokens[self.pos])
        } else {
            None
        }
    }

    /// Consumes and returns the next token, if any.
    pub fn next(&mut self) -> (r: Option<Token>)
        requires
            old(self).wf(),
        ensures
            final(self).wf(),
            old(self)@.len() > 0 ==> r == Some(old(self)@[0]) && final(self)@ == old(
                self,
            )@.drop_first(),
            old(self)@.len() == 0 ==> r == None::<Token> && final(self)@ == old(self)@,
    {
        if self.pos < self.tokens.len() {
            let t = self.tokens[self.pos];
            self.pos = self.pos + 1;
            proof {
                assert(self@ =~= old(self)@.drop_first());
            }
            Some(t)
        } else {
            None
        }
    }

    /// Consumes the next token iff it equals `token`.
    pub fn consume(&mut self, token: Token) -> (r: bool)
        requires
            old(self).wf(),
        ensures
            final(self).wf(),
            r == (old(self)@.len() > 0 && old(self)@[0] == token),
            r ==> final(self)@ == old(self)@.drop_first(),
            !r ==> final(self)@ == old(self)@,
    {
        match self.peek() {
            Some(t) => if t == token {
                let _ = self.next();
                true
            } else {
                false
            },
            None => false,
        }
    }

    /// Parses one value of type `T` off the front of the stream.
    pub fn parse<T: Parse>(&mut self) -> (r: Result<T, ParseError>)
        requires
            old(self).wf(),
        ensures
            final(self).wf(),
            match r {
                Ok(v) => T::spec_parse(old(self)@) == Parsed::Found(v@, final(self)@),
                Err(e) => T::spec_parse(old(self)@) == Parsed::<T::V>::Failed(e),
            },
    {
        T::parse(self)
    }
}

/// A type that can be parsed off the front of a token stream, exactly as its
/// spec-level parse function describes.
pub trait Parse: View + Sized {
    /// What parsing means for this type.
    spec fn spec_parse(toks: Seq<Token>) -> Parsed<Self::V>;

    /// Parses one value, consuming the tokens that `spec_parse` consumes.
    fn parse(parser: &mut Parser) -> (r: Result<Self, ParseError>)
        requires
            old(parser).wf(),
        ensures
            final(parser).wf(),
            match r {
                Ok(v) => Self::spec_parse(old(parser)@) == Parsed::Found(v@, final(parser)@),
                Err(e) => Self::spec_parse(old(parser)@) == Parsed::<Self::V>::Failed(e),
            },
    ;
}

impl Parse for Number {
    open spec fn spec_parse(toks: Seq<Token>) -> Parsed<i64> {
        spec_parse_number(toks)
    }

    fn parse(parser: &mut Parser) -> (r: Result<Self, ParseError>) {
        let ghost toks0 = parser@;
        proof {
            assert(Number::spec_parse(toks0) == spec_parse_number(toks0));
        }
        let neg: bool;
        match parser.next() {
            Some(Token::Space) => {
                neg = false;
            },
            Some(Token::Tab) => {
                neg = true;
            },
            Some(Token::LineFeed) => {
                return Err(ParseError::MalformedNumber);
            },
            None => {
                return Err(ParseError::MalformedNumber);
            },
        }
        let ghost digits0 = parser@;
        let mut acc: i64 = 0;
        loop
            invariant
                parser.wf(),
                0 <= acc,
                toks0 == old(parser)@,
                Number::spec_parse(toks0) == spec_parse_number(toks0),
                spec_parse_digits(digits0, 0) == spec_parse_digits(parser@, acc),
                toks0.len() > 0,
                digits0 == toks0.drop_first(),
                neg <==> toks0[0] == Token::Tab,
                toks0[0] == Token::Space || toks0[0] == Token::Tab,
            decreases parser@.len(),
        {
            match parser.next() {
                None => {
                    return Err(ParseError::MalformedNumber);
                },
                Some(Token::LineFeed) => {
                    if neg {
                        return Ok(Number(-acc));
                    } else {
                        return Ok(Number(acc));
                    }
                },
                Some(Token::Space) => {
                    if acc > i64::MAX / 2 {
                        return Err(ParseError::MalformedNumber);
                    }
                    acc = acc * 2;
                },
                Some(Token::Tab) => {
                    if acc > i64::MAX / 2 {
                        return Err(ParseError::MalformedNumber);
                    }
                    acc = acc * 2 + 1;
                },
            }
        }
    }
}

impl Parse for Label {
    open spec fn spec_parse(toks: Seq<Token>) -> Parsed<Seq<bool>> {
        spec_parse_label(toks)
    }

    fn parse(parser: &mut Parser) -> (r: Result<Self, ParseError>) {
        let ghost toks0 = parser@;
        proof {
            assert(Label::spec_parse(toks0) == spec_parse_label(toks0));
        }
        let mut bits: Vec<bool> = Vec::new();
        loop
            invariant
                parser.wf(),
                toks0 == old(parser)@,
                Label::spec_parse(toks0) == spec_parse_label(toks0),
                spec_parse_label(toks0) == (match spec_parse_label(parser@) {
                    Parsed::Found(more, rest) => Parsed::Found(bits@ + more, rest),
                    Parsed::Failed(e) => Parsed::Failed(e),
                }),
            decreases parser@.len(),
        {
            let ghost head = parser@;
            let ghost prev = bits@;
            match parser.next() {
                None => {
                    return Err(ParseError::MalformedLabel);
                },
                Some(Token::LineFeed) => {
                    proof {
                        assert(bits@ + Seq::<bool>::empty() =~= bits@);
                    }
                    return Ok(Label(bits));
                },
                Some(Token::Space) => {
                    bits.push(false);
                    proof {
                        match spec_parse_label(parser@) {
                            Parsed::Found(more, rest) => {
                                assert(prev + (seq![false] + more) =~= bits@ + more);
                            },
                            Parsed::Failed(_) => {},
                        }
                    }
                },
                Some(Token::Tab) => {
                    bits.push(true);
                    proof {
                        match spec_parse_label(parser@) {
                            Parsed::Found(more, rest) => {
                                assert(prev + (seq![true] + more) =~= bits@ + more);
                            },
                            Parsed::Failed(_) => {},
                        }
                    }
                },
            }
        }
    }
}

impl Parse for Stack {
    open spec fn spec_parse(toks: Seq<Token>) -> Parsed<CmdV> {
        spec_parse_stack(toks)
    }

    fn parse(parser: &mut Parser) -> (r: Result<Self, ParseError>) {
        let ghost toks0 = parser@;
        proof {
            assert(Stack::spec_parse(toks0) == spec_parse_stack(toks0));
        }
        match parser.next() {
            None => Err(ParseError::UnexpectedEndOfInput),
            Some(Token::Space) => match Number::parse(parser) {
                Ok(n) => Ok(Stack::Push(n)),
                Err(e) => Err(e),
            },
            Some(Token::LineFeed) => {
                let ghost tail = parser@;
                match parser.next() {
                    None => Err(ParseError::UnexpectedEndOfInput),
                    Some(t) => {
                        proof {
                            assert(tail.drop_first() =~= toks0.skip(2));
                        }
                        match t {
                            Token::Space => Ok(Stack::Duplicate),
                            Token::Tab => Ok(Stack::Swap),
                            Token::LineFeed => Ok(Stack::Discard),
                        }
                    },
                }
            },
            Some(Token::Tab) => {
                let ghost tail = parser@;
                match parser.next() {
                    None => Err(ParseError::UnexpectedEndOfInput),
                    Some(t) => {
                        proof {
                            assert(tail.drop_first() =~= toks0.skip(2));
                        }
                        match t {
                            Token::Space => match Number::parse(parser) {
                                Ok(n) => Ok(Stack::Copy(n)),
                                Err(e) => Err(e),
                            },
                            Token::LineFeed => match Number::parse(parser) {
                                Ok(n) => Ok(Stack::Slide(n)),
                                Err(e) => Err(e),
                            },
                            Token::Tab => Err(ParseError::UnrecognizedCommand),
                        }
                    },
                }
            },
        }
    }
}

impl Parse for Heap {
    open spec fn spec_parse(toks: Seq<Token>) -> Parsed<CmdV> {
        spec_parse_heap(toks)
    }

    fn parse(parser: &mut Parser) -> (r: Result<Self, ParseError>) {
        let ghost toks0 = parser@;
        proof {
            assert(Heap::spec_parse(toks0) == spec_parse_heap(toks0));
        }
        match parser.next() {
            None => Err(ParseError::UnexpectedEndOfInput),
            Some(Token::Space) => Ok(Heap::Store),
            Some(Token::Tab) => Ok(Heap::Retrieve),
            Some(Token::LineFeed) => Err(ParseError::UnrecognizedCommand),
        }
    }
}

impl Parse for Arith {
    open spec fn spec_parse(toks: Seq<Token>) -> Parsed<CmdV> {
        spec_parse_arith(toks)
    }

    fn parse(parser: &mut Parser) -> (r: Result<Self, ParseError>) {
        let ghost toks0 = parser@;
        proof {
            assert(Arith::spec_parse(toks0) == spec_parse_arith(toks0));
        }
        match parser.next() {
            None => Err(ParseError::UnexpectedEndOfInput),
            Some(first) => {
                let ghost tail = parser@;
                match parser.next() {
                    None => match first {
                        Token::LineFeed => Err(ParseError::UnrecognizedCommand),
                        _ => Err(ParseError::UnexpectedEndOfInput),
                    },
                    Some(second) => {
                        proof {
                            assert(tail.drop_first() =~= toks0.skip(2));
                        }
                        match (first, second) {
                            (Token::Space, Token::Space) => Ok(Arith::Add),
                            (Token::Space, Token::Tab) => Ok(Arith::Sub),
                            (Token::Space, Token::LineFeed) => Ok(Arith::Mul),
                            (Token::Tab, Token::Space) => Ok(Arith::Div),
                            (Token::Tab, Token::Tab) => Ok(Arith::Mod),
                            _ => Err(ParseError::UnrecognizedCommand),
                        }
                    },
                }
            },
        }
    }
}

impl Parse for Flow {
    open spec fn spec_parse(toks: Seq<Token>) -> Parsed<CmdV> {
        spec_parse_flow(toks)
    }

    fn parse(parser: &mut Parser) -> (r: Result<Self, ParseError>) {
        let ghost toks0 = parser@;
        proof {
            assert(Flow::spec_parse(toks0) == spec_parse_flow(toks0));
        }
        match parser.next() {
            None => Err(ParseError::UnexpectedEndOfInput),
            Some(first) => {
                let ghost tail = parser@;
                match parser.next() {
                    None => Err(ParseError::UnexpectedEndOfInput),
                    Some(second) => {
                        proof {
                            assert(tail.drop_first() =~= toks0.skip(2));
                        }
                        match (first, second) {
                            (Token::Space, Token::Space) => match Label::parse(parser) {
                                Ok(l) => Ok(Flow::Mark(l)),
                                Err(e) => Err(e),
                            },
                            (Token::Space, Token::Tab) => match Label::parse(parser) {
                                Ok(l) => Ok(Flow::Call(l)),
                                Err(e) => Err(e),
                            },
                            (Token::Space, Token::LineFeed) => match Label::parse(parser) {
                                Ok(l) => Ok(Flow::Jump(l)),
                                Err(e) => Err(e),
                            },
                            (Token::Tab, Token::Space) => match Label::parse(parser) {
                                Ok(l) => Ok(Flow::JumpIfZero(l)),
                                Err(e) => Err(e),
                            },
                            (Token::Tab, Token::Tab) => match Label::parse(parser) {
                                Ok(l) => Ok(Flow::JumpIfNeg(l)),
                                Err(e) => Err(e),
                            },
                            (Token::Tab, Token::LineFeed) => Ok(Flow::Return),
                            (Token::LineFeed, Token::LineFeed) => Ok(Flow::Exit),
                            (Token::LineFeed, Token::Space) => Err(
                                ParseError::UnrecognizedCommand,
                            ),
                            (Token::LineFeed, Token::Tab) => Err(ParseError::UnrecognizedCommand),
                        }
                    },
                }
            },
        }
    }
}

impl Parse for Io {
    open spec fn spec_parse(toks: Seq<Token>) -> Parsed<CmdV> {
        spec_parse_io(toks)
    }

    fn parse(parser: &mut Parser) -> (r: Result<Self, ParseError>) {
        let ghost toks0 = parser@;
        proof {
            assert(Io::spec_parse(toks0) == spec_parse_io(toks0));
        }
        match parser.next() {
            None => Err(ParseError::UnexpectedEndOfInput),
            Some(first) => {
                let ghost tail = parser@;
                match parser.next() {
                    None => match first {
                        Token::LineFeed => Err(ParseError::UnrecognizedCommand),
                        _ => Err(ParseError::UnexpectedEndOfInput),
                    },
                    Some(second) => {
                        proof {
                            assert(tail.drop_first() =~= toks0.skip(2));
                        }
                        match (first, second) {
                            (Token::Space, Token::Space) => Ok(Io::OutputChar),
                            (Token::Space, Token::Tab) => Ok(Io::OutputNum),
                            (Token::Tab, Token::Space) => Ok(Io::ReadChar),
                            (Token::Tab, Token::Tab) => Ok(Io::ReadNum),
                            _ => Err(ParseError::UnrecognizedCommand),
                        }
                    },
                }
            },
        }
    }
}

impl Parse for Command {
    open spec fn spec_parse(toks: Seq<Token>) -> Parsed<CmdV> {
        spec_parse_command(toks)
    }

    fn parse(parser: &mut Parser) -> (r: Result<Self, ParseError>) {
        let ghost toks0 = parser@;
        proof {
            assert(Command::spec_parse(toks0) == spec_parse_command(toks0));
        }
        match parser.next() {
            None => Err(ParseError::UnexpectedEndOfInput),
            Some(Token::Space) => match Stack::parse(parser) {
                Ok(c) => Ok(Command::Stack(c)),
                Err(e) => Err(e),
            },
            Some(Token::LineFeed) => match Flow::parse(parser) {
                Ok(c) => Ok(Command::Flow(c)),
                Err(e) => Err(e),
            },
            Some(Token::Tab) => {
                let ghost tail = parser@;
                proof {
                    if tail.len() > 0 {
                        assert(tail.drop_first() =~= toks0.skip(2));
                    }
                }
                if parser.consume(Token::Tab) {
                    match Heap::parse(parser) {
                        Ok(c) => Ok(Command::Heap(c)),
                        Err(e) => Err(e),
                    }
                } else if parser.consume(Token::Space) {
                    match Arith::parse(parser) {
                        Ok(c) => Ok(Command::Arith(c)),
                        Err(e) => Err(e),
                    }
                } else if parser.consume(Token::LineFeed) {
                    match Io::parse(parser) {
                        Ok(c) => Ok(Command::Io(c)),
                        Err(e) => Err(e),
                    }
                } else {
                    proof {
                        if tail.len() > 0 {
                            match tail[0] {
                                Token::Space => {},
                                Token::Tab => {},
                                Token::LineFeed => {},
                            }
                        }
                    }
                    Err(ParseError::UnexpectedEndOfInput)
                }
            },
        }
    }
}

impl Parse for Ast {
    open spec fn spec_parse(toks: Seq<Token>) -> Parsed<Seq<CmdV>> {
        match spec_parse_program(toks) {
            Ok(cs) => Parsed::Found(cs, Seq::empty()),
            Err(e) => Parsed::Failed(e),
        }
    }

    fn parse(parser: &mut Parser) -> (r: Result<Self, ParseError>) {
        let ghost toks0 = parser@;
        proof {
            assert(Ast::spec_parse(toks0) == (match spec_parse_program(toks0) {
                Ok(cs) => Parsed::Found(cs, Seq::<Token>::empty()),
                Err(e) => Parsed::<Seq<CmdV>>::Failed(e),
            }));
        }
        let mut commands: Vec<Command> = Vec::new();
        proof {
            match spec_parse_program(toks0) {
                Ok(cs) => {
                    assert(commands@.map_values(|c: Command| c@) + cs =~= cs);
                },
                Err(_) => {},
            }
        }
        loop
            invariant
                parser.wf(),
                toks0 == old(parser)@,
                Ast::spec_parse(toks0) == (match spec_parse_program(toks0) {
                    Ok(cs) => Parsed::Found(cs, Seq::<Token>::empty()),
                    Err(e) => Parsed::<Seq<CmdV>>::Failed(e),
                }),
                spec_parse_program(toks0) == (match spec_parse_program(parser@) {
                    Ok(cs) => Ok(commands@.map_values(|c: Command| c@) + cs),
                    Err(e) => Err::<Seq<CmdV>, ParseError>(e),
                }),
            decreases parser@.len(),
        {
            let ghost head = parser@;
            let ghost prev = commands@.map_values(|c: Command| c@);
            if let None = parser.peek() {
                proof {
                    assert(head =~= Seq::<Token>::empty());
                    assert(prev + Seq::<CmdV>::empty() =~= prev);
                    assert(parser@ =~= Seq::<Token>::empty());
                }
                return Ok(Ast { commands });
            }
            match Command::parse(parser) {
                Ok(c) => {
                    commands.push(c);
                    proof {
                        lemma_spec_parse_command_consumes(head);
                        match spec_parse_program(parser@) {
                            Ok(cs) => {
                                assert(prev + (seq![c@] + cs) =~= commands@.map_values(
                                    |x: Command| x@,
                                ) + cs);
                            },
                            Err(_) => {},
                        }
                    }
                },
                Err(e) => {
                    return Err(e);
                },
            }
        }
    }
}

/// Lexes and parses a whole text: the program, or the first parse error.
pub fn parse_program(text: &str) -> (r: Result<Ast, ParseError>)
    ensures
        match r {
            Ok(ast) => spec_parse_program(lex_spec(text@)) == Ok::<Seq<CmdV>, ParseError>(ast@),
            Err(e) => spec_parse_program(lex_spec(text@)) == Err::<Seq<CmdV>, ParseError>(e),
        },
{
    let mut parser = Parser::new(text);
    parser.parse::<Ast>()
}

} // verus!
