//! The program representation: an ordered sequence of commands, grouped in
//! five families, together with the mathematical view that contracts and the
//! execution semantics are stated over.

use vstd::prelude::*;

verus! {

/// A signed 64-bit operand literal.
#[derive(Clone, Copy, Debug, PartialEq, Eq, Structural)]
pub struct Number(pub i64);

/// A bit-string naming a control-flow target. Two labels are equal iff their
/// bit sequences are equal; the empty bit-string is a valid label.
#[derive(Clone, Debug, PartialEq, Eq)]
pub struct Label(pub Vec<bool>);

/// Operand-stack commands.
#[derive(Clone, Debug, PartialEq, Eq)]
pub enum Stack {
    Push(Number),
    Duplicate,
    Swap,
    Discard,
    Copy(Number),
    Slide(Number),
}

/// Heap commands.
#[derive(Clone, Copy, Debug, PartialEq, Eq, Structural)]
pub enum Heap {
    Store,
    Retrieve,
}

/// Arithmetic commands.
#[derive(Clone, Copy, Debug, PartialEq, Eq, Structural)]
pub enum Arith {
    Add,
    Sub,
    Mul,
    Div,
    Mod,
}

/// Control-flow commands.
#[derive(Clone, Debug, PartialEq, Eq)]
pub enum Flow {
    Mark(Label),
    Call(Label),
    Jump(Label),
    JumpIfZero(Label),
    JumpIfNeg(Label),
    Return,
    Exit,
}

/// Console I/O commands.
#[derive(Clone, Copy, Debug, PartialEq, Eq, Structural)]
pub enum Io {
    OutputChar,
    OutputNum,
    ReadChar,
    ReadNum,
}

/// One command, tagged by family.
#[derive(Clone, Debug, PartialEq, Eq)]
pub enum Command {
    Stack(Stack),
    Heap(Heap),
    Arith(Arith),
    Flow(Flow),
    Io(Io),
}

/// The parsed program: an ordered sequence of commands. Order is the
/// instruction sequencing for execution.
#[derive(Clone, Debug, PartialEq, Eq)]
pub struct Ast {
    pub commands: Vec<Command>,
}

/// The mathematical form of one command: the flat instruction the execution
/// semantics are written over, with labels as bit sequences.
#[verifier::ext_equal]
pub enum CmdV {
    Push(i64),
    Duplicate,
    Swap,
    Discard,
    Copy(i64),
    Slide(i64),
    Store,
    Retrieve,
    Add,
    Sub,
    Mul,
    Div,
    Mod,
    Mark(Seq<bool>),
    Call(Seq<bool>),
    Jump(Seq<bool>),
    JumpIfZero(Seq<bool>),
    JumpIfNeg(Seq<bool>),
    Return,
    Exit,
    OutputChar,
    OutputNum,
    ReadChar,
    ReadNum,
}

impl View for Number {
    type V = i64;

    open spec fn view(&self) -> i64 {
        self.0
    }
}

impl View for Label {
    type V = Seq<bool>;

    open spec fn view(&self) -> Seq<bool> {
        self.0@
    }
}

impl View for Stack {
    type V = CmdV;

    open spec fn view(&self) -> CmdV {
        match self {
            Stack::Push(n) => CmdV::Push(n.0),
            Stack::Duplicate => CmdV::Duplicate,
            Stack::Swap => CmdV::Swap,
            Stack::Discard => CmdV::Discard,
            Stack::Copy(n) => CmdV::Copy(n.0),
            Stack::Slide(n) => CmdV::Slide(n.0),
        }
    }
}

impl View for Heap {
    type V = CmdV;

    open spec fn view(&self) -> CmdV {
        match self {
            Heap::Store => CmdV::Store,
            Heap::Retrieve => CmdV::Retrieve,
        }
    }
}

impl View for Arith {
    type V = CmdV;

    open spec fn view(&self) -> CmdV {
        match self {
            Arith::Add => CmdV::Add,
            Arith::Sub => CmdV::Sub,
            Arith::Mul => CmdV::Mul,
            Arith::Div => CmdV::Div,
            Arith::Mod => CmdV::Mod,
        }
    }
}

impl View for Flow {
    type V = CmdV;

    open spec fn view(&self) -> CmdV {
        match self {
            Flow::Mark(l) => CmdV::Mark(l@),
            Flow::Call(l) => CmdV::Call(l@),
            Flow::Jump(l) => CmdV::Jump(l@),
            Flow::JumpIfZero(l) => CmdV::JumpIfZero(l@),
            Flow::JumpIfNeg(l) => CmdV::JumpIfNeg(l@),
            Flow::Return => CmdV::Return,
            Flow::Exit => CmdV::Exit,
        }
    }
}

impl View for Io {
    type V = CmdV;

    open spec fn view(&self) -> CmdV {
        match self {
            Io::OutputChar => CmdV::OutputChar,
            Io::OutputNum => CmdV::OutputNum,
            Io::ReadChar => CmdV::ReadChar,
            Io::ReadNum => CmdV::ReadNum,
        }
    }
}

impl View for Command {
    type V = CmdV;

    open spec fn view(&self) -> CmdV {
        match self {
            Command::Stack(c) => c@,
            Command::Heap(c) => c@,
            Command::Arith(c) => c@,
            Command::Flow(c) => c@,
            Command::Io(c) => c@,
        }
    }
}

impl View for Ast {
    type V = Seq<CmdV>;

    open spec fn view(&self) -> Seq<CmdV> {
        self.commands@.map_values(|c: Command| c@)
    }
}

} // verus!
