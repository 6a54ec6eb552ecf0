//! The execution engine: a stack machine that walks the program with an
//! instruction pointer. It owns the operand stack, the heap, the call stack,
//! and the label table; console I/O is surfaced as effects that the caller
//! performs between steps.

use crate::ast::{Arith, Ast, CmdV, Command, Flow, Heap, Io, Label, Stack};
use std::collections::HashMap;
use vstd::assert_by_contradiction;
use vstd::prelude::*;

verus! {

broadcast use vstd::std_specs::hash::group_hash_axioms;

/// The kind of a fatal failure. Every kind is terminal: no retry, no
/// recovery, no partial continuation.
#[derive(Clone, Copy, Debug, PartialEq, Eq, Structural)]
pub enum ErrorKind {
    /// A command needed more operands than the stack holds.
    StackUnderflow,
    /// A copy or slide depth that is negative or not less than the stack depth.
    IndexOutOfRange,
    /// A retrieve from an address with no binding.
    UnboundHeapAddress,
    /// A division or remainder with zero divisor.
    DivisionByZero,
    /// Two marks with the same label, found before execution starts.
    DuplicateLabel,
    /// A transfer to a label with no mark site.
    UndefinedLabel,
    /// A return with an empty call stack.
    ReturnWithoutCall,
    /// A read that the outside world could not satisfy.
    IoError,
}

/// A fatal error: its kind and the instruction position where it occurred.
#[derive(Clone, Copy, Debug, PartialEq, Eq, Structural)]
pub struct RunError {
    pub kind: ErrorKind,
    pub pos: usize,
}

/// Whether two marks anywhere in the program share one label.
pub open spec fn has_duplicate_marks(prog: Seq<CmdV>) -> bool {
    exists|i: int, j: int|
        {
            &&& 0 <= i < j < prog.len()
            &&& (#[trigger] prog[i]) matches CmdV::Mark(l1)
            &&& (#[trigger] prog[j]) matches CmdV::Mark(l2)
            &&& l1 == l2
        }
}

/// The label table of a program: each marked label bound to the index of a
/// mark site. When no label is marked twice, every site is unique.
pub open spec fn mark_table(prog: Seq<CmdV>) -> Map<Seq<bool>, int>
    decreases prog.len(),
{
    if prog.len() == 0 {
        Map::empty()
    } else {
        let rest = mark_table(prog.drop_last());
        match prog.last() {
            CmdV::Mark(l) => rest.insert(l, prog.len() - 1),
            _ => rest,
        }
    }
}

/// The label table binds exactly the marked labels, each to a mark site of
/// that label inside the program.
pub proof fn lemma_mark_table_props(prog: Seq<CmdV>)
    ensures
        forall|l: Seq<bool>|
            #[trigger] mark_table(prog).contains_key(l) <==> (exists|j: int|
                0 <= j < prog.len() && prog[j] == CmdV::Mark(l)),
        forall|l: Seq<bool>|
            #[trigger] mark_table(prog).contains_key(l) ==> 0 <= mark_table(prog)[l]
                < prog.len() && prog[mark_table(prog)[l]] == CmdV::Mark(l),
    decreases prog.len(),
{
    if prog.len() > 0 {
        let prefix = prog.drop_last();
        lemma_mark_table_props(prefix);
        assert forall|l: Seq<bool>| #[trigger]
            mark_table(prog).contains_key(l) implies (exists|j: int|
            0 <= j < prog.len() && prog[j] == CmdV::Mark(l)) by {
            if prog.last() matches CmdV::Mark(l0) && l0 == l {
                assert(prog[prog.len() - 1] == CmdV::Mark(l));
            } else {
                let j = choose|j: int| 0 <= j < prefix.len() && prefix[j] == CmdV::Mark(l);
                assert(prog[j] == CmdV::Mark(l));
            }
        }
        assert forall|l: Seq<bool>| (exists|j: int|
            0 <= j < prog.len() && prog[j] == CmdV::Mark(l)) implies #[trigger] mark_table(
            prog,
        ).contains_key(l) by {
            let j = choose|j: int| 0 <= j < prog.len() && prog[j] == CmdV::Mark(l);
            if j < prog.len() - 1 {
                assert(prefix[j] == CmdV::Mark(l));
            }
        }
        assert forall|l: Seq<bool>| #[trigger]
            mark_table(prog).contains_key(l) implies 0 <= mark_table(prog)[l] < prog.len()
            && prog[mark_table(prog)[l]] == CmdV::Mark(l) by {
            let v = mark_table(prog)[l];
            if prog.last() matches CmdV::Mark(l0) && l0 == l {
                assert(v == prog.len() - 1);
            } else {
                assert(mark_table(prefix).contains_key(l));
                assert(prefix[v] == prog[v]);
            }
        }
    }
}

/// A duplicate pair inside a prefix is a duplicate pair of the whole program.
pub proof fn lemma_duplicate_marks_in_prefix(prog: Seq<CmdV>, k: int)
    requires
        0 <= k <= prog.len(),
        has_duplicate_marks(prog.take(k)),
    ensures
        has_duplicate_marks(prog),
{
    let (i, j) = choose|i: int, j: int|
        {
            &&& 0 <= i < j < prog.take(k).len()
            &&& (#[trigger] prog.take(k)[i]) matches CmdV::Mark(l1)
            &&& (#[trigger] prog.take(k)[j]) matches CmdV::Mark(l2)
            &&& l1 == l2
        };
    assert(prog[i] == prog.take(k)[i]);
    assert(prog[j] == prog.take(k)[j]);
}

/// The label table: each marked label and the index of its mark site, built
/// once before execution begins.
pub struct LabelTable {
    entries: Vec<(Label, usize)>,
}

/// The map an association list denotes; a later entry would win, though the
/// table never holds one key twice.
pub open spec fn assoc_label_map(s: Seq<(Label, usize)>) -> Map<Seq<bool>, int>
    decreases s.len(),
{
    if s.len() == 0 {
        Map::empty()
    } else {
        assoc_label_map(s.drop_last()).insert(s.last().0@, s.last().1 as int)
    }
}

proof fn lemma_assoc_contains(s: Seq<(Label, usize)>, l: Seq<bool>)
    ensures
        assoc_label_map(s).contains_key(l) <==> (exists|i: int|
            0 <= i < s.len() && (#[trigger] s[i]).0@ == l),
    decreases s.len(),
{
    if s.len() > 0 {
        lemma_assoc_contains(s.drop_last(), l);
        if s.last().0@ == l {
            assert(s[s.len() - 1].0@ == l);
        } else if exists|i: int| 0 <= i < s.drop_last().len() && (#[trigger] s.drop_last()[i]).0@
            == l {
            let i = choose|i: int| 0 <= i < s.drop_last().len() && (#[trigger] s.drop_last()[i]).0@
                == l;
            assert(s[i].0@ == l);
        } else if exists|i: int| 0 <= i < s.len() && (#[trigger] s[i]).0@ == l {
            let i = choose|i: int| 0 <= i < s.len() && (#[trigger] s[i]).0@ == l;
            assert(i < s.len() - 1);
            assert(s.drop_last()[i].0@ == l);
        }
    }
}

proof fn lemma_assoc_value(s: Seq<(Label, usize)>, l: Seq<bool>, i: int)
    requires
        forall|p: int, q: int| 0 <= p < q < s.len() ==> (#[trigger] s[p]).0@ != (#[trigger] s[q]).0@,
        0 <= i < s.len(),
        s[i].0@ == l,
    ensures
        assoc_label_map(s).contains_key(l),
        assoc_label_map(s)[l] == s[i].1 as int,
    decreases s.len(),
{
    if i == s.len() - 1 {
    } else {
        assert(s.last().0@ != l);
        assert(s.drop_last()[i].0@ == l);
        lemma_assoc_value(s.drop_last(), l, i);
    }
}

/// Whether two labels hold the same bit sequence.
fn label_eq(a: &Label, b: &Label) -> (r: bool)
    ensures
        r == (a@ == b@),
{
    if a.0.len() != b.0.len() {
        return false;
    }
    let n = a.0.len();
    let mut i: usize = 0;
    while i < n
        invariant
            n == a.0.len() == b.0.len(),
            0 <= i <= n,
            forall|k: int| 0 <= k < i ==> a.0@[k] == b.0@[k],
        decreases n - i,
    {
        if a.0[i] != b.0[i] {
            return false;
        }
        i = i + 1;
    }
    proof {
        assert(a@ =~= b@);
    }
    true
}

/// A fresh label holding the same bit sequence.
fn copy_label(l: &Label) -> (r: Label)
    ensures
        r@ == l@,
{
    let n = l.0.len();
    let mut bits: Vec<bool> = Vec::new();
    let mut i: usize = 0;
    while i < n
        invariant
            n == l.0.len(),
            0 <= i <= n,
            bits@ =~= l.0@.take(i as int),
        decreases n - i,
    {
        bits.push(l.0[i]);
        proof {
            assert(bits@ =~= l.0@.take(i + 1));
        }
        i = i + 1;
    }
    proof {
        assert(l.0@.take(n as int) =~= l.0@);
    }
    Label(bits)
}

impl View for LabelTable {
    type V = Map<Seq<bool>, int>;

    closed spec fn view(&self) -> Map<Seq<bool>, int> {
        assoc_label_map(self.entries@)
    }
}

impl LabelTable {
    /// No label appears in two entries.
    pub closed spec fn wf(&self) -> bool {
        forall|p: int, q: int|
            0 <= p < q < self.entries@.len() ==> (#[trigger] self.entries@[p]).0@ != (
            #[trigger] self.entries@[q]).0@
    }

    /// The mark site bound to a label, if the label is marked.
    pub fn lookup(&self, l: &Label) -> (r: Option<usize>)
        requires
            self.wf(),
        ensures
            match r {
                Some(ix) => self@.contains_key(l@) && self@[l@] == ix as int,
                None => !self@.contains_key(l@),
            },
    {
        let n = self.entries.len();
        let mut i: usize = 0;
        while i < n
            invariant
                self.wf(),
                n == self.entries@.len(),
                0 <= i <= n,
                forall|k: int| 0 <= k < i ==> (#[trigger] self.entries@[k]).0@ != l@,
            decreases n - i,
        {
            if label_eq(&self.entries[i].0, l) {
                proof {
                    lemma_assoc_value(self.entries@, l@, i as int);
                }
                return Some(self.entries[i].1);
            }
            i = i + 1;
        }
        proof {
            lemma_assoc_contains(self.entries@, l@);
        }
        None
    }

    /// Scans the program for its mark sites. Fails, with the position of the
    /// second mark of the pair, iff some label is marked twice; succeeds with
    /// the program's label table otherwise.
    pub fn build(commands: &Vec<Command>) -> (r: Result<LabelTable, RunError>)
        ensures
            match r {
                Ok(t) => {
                    &&& t.wf()
                    &&& !has_duplicate_marks(commands@.map_values(|c: Command| c@))
                    &&& t@ == mark_table(commands@.map_values(|c: Command| c@))
                },
                Err(e) => {
                    let prog = commands@.map_values(|c: Command| c@);
                    &&& e.kind == ErrorKind::DuplicateLabel
                    &&& e.pos < commands@.len()
                    &&& has_duplicate_marks(prog.take(e.pos + 1))
                    &&& !has_duplicate_marks(prog.take(e.pos as int))
                    &&& has_duplicate_marks(prog)
                },
            },
    {
        let ghost prog = commands@.map_values(|c: Command| c@);
        let mut table = LabelTable { entries: Vec::new() };
        let n = commands.len();
        let mut i: usize = 0;
        proof {
            assert(prog.take(0) =~= Seq::<CmdV>::empty());
        }
        while i < n
            invariant
                table.wf(),
                n == commands@.len(),
                0 <= i <= n,
                prog == commands@.map_values(|c: Command| c@),
                table@ == mark_table(prog.take(i as int)),
                !has_duplicate_marks(prog.take(i as int)),
            decreases n - i,
        {
            let ghost pre = prog.take(i as int);
            let ghost post = prog.take(i + 1);
            proof {
                assert(post.drop_last() =~= pre);
                assert(post.last() == prog[i as int]);
                assert(prog[i as int] == commands@[i as int]@);
            }
            match &commands[i] {
                Command::Flow(Flow::Mark(l)) => {
                    match table.lookup(l) {
                        Some(_) => {
                            proof {
                                lemma_mark_table_props(pre);
                                let j = choose|j: int|
                                    0 <= j < pre.len() && pre[j] == CmdV::Mark(l@);
                                assert(post[j] == CmdV::Mark(l@));
                                assert(post[i as int] == CmdV::Mark(l@));
                                assert(has_duplicate_marks(post));
                                lemma_duplicate_marks_in_prefix(prog, i + 1);
                            }
                            return Err(RunError { kind: ErrorKind::DuplicateLabel, pos: i });
                        },
                        None => {
                            let entry = copy_label(l);
                            let ghost old_entries = table.entries@;
                            table.entries.push((entry, i));
                            proof {
                                lemma_assoc_contains(old_entries, l@);
                                assert(table.entries@.drop_last() =~= old_entries);
                                assert(table@ == assoc_label_map(old_entries).insert(l@, i as int));
                                assert(mark_table(post) == mark_table(pre).insert(l@, i as int));
                                lemma_mark_table_props(pre);
                                assert_by_contradiction!(!has_duplicate_marks(post), {
                                    let (p, q) = choose|p: int, q: int|
                                        {
                                            &&& 0 <= p < q < post.len()
                                            &&& (#[trigger] post[p]) matches CmdV::Mark(l1)
                                            &&& (#[trigger] post[q]) matches CmdV::Mark(l2)
                                            &&& l1 == l2
                                        };
                                    if q < i as int {
                                        assert(pre[p] == post[p]);
                                        assert(pre[q] == post[q]);
                                        assert(has_duplicate_marks(pre));
                                    } else {
                                        assert(q == i as int);
                                        assert(post[q] == CmdV::Mark(l@));
                                        assert(pre[p] == post[p]);
                                        assert(mark_table(pre).contains_key(l@));
                                    }
                                });
                            }
                        },
                    }
                },
                _ => {
                    proof {
                        assert(!(post.last() matches CmdV::Mark(l0)));
                        assert(mark_table(post) == mark_table(pre));
                        assert_by_contradiction!(!has_duplicate_marks(post), {
                            let (p, q) = choose|p: int, q: int|
                                {
                                    &&& 0 <= p < q < post.len()
                                    &&& (#[trigger] post[p]) matches CmdV::Mark(l1)
                                    &&& (#[trigger] post[q]) matches CmdV::Mark(l2)
                                    &&& l1 == l2
                                };
                            if q < i as int {
                                assert(pre[p] == post[p]);
                                assert(pre[q] == post[q]);
                                assert(has_duplicate_marks(pre));
                            }
                        });
                    }
                },
            }
            i = i + 1;
        }
        proof {
            assert(prog.take(n as int) =~= prog);
        }
        Ok(table)
    }
}

/// Where execution stands between steps.
#[derive(Clone, Copy, Debug, PartialEq, Eq, Structural)]
pub enum Status {
    /// The next instruction can run.
    Running,
    /// A read-character command waits for one input byte, to be stored at
    /// this address.
    AwaitingChar(i64),
    /// A read-number command waits for one input number, to be stored at
    /// this address.
    AwaitingNum(i64),
    /// Execution terminated successfully.
    Done,
    /// Execution failed; nothing more runs.
    Failed(RunError),
}

/// What one step asks of the outside world.
#[derive(Clone, Copy, Debug, PartialEq, Eq, Structural)]
pub enum Effect {
    /// The step completed with no externally visible effect.
    Quiet,
    /// Write this byte as one character to the output stream.
    PrintChar(u8),
    /// Write this value in decimal to the output stream.
    PrintNum(i64),
    /// Read one input byte and hand it to `provide_char`.
    NeedChar,
    /// Read one input line, parse it as a number, and hand it to
    /// `provide_num`.
    NeedNum,
    /// Execution terminated successfully.
    Halted,
    /// Execution failed with this error.
    Crashed(RunError),
}

/// The machine's whole mathematical state: the program and label table fixed
/// at construction, and the mutable runtime state.
#[verifier::ext_equal]
pub struct MachineV {
    pub program: Seq<CmdV>,
    pub labels: Map<Seq<bool>, int>,
    pub stack: Seq<i64>,
    pub heap: Map<i64, i64>,
    pub calls: Seq<usize>,
    pub ip: usize,
    pub status: Status,
}

/// What holds of every machine between steps: the label table is the
/// program's own, built from a program with no duplicate marks; the
/// instruction pointer and every return address stay within the program.
pub open spec fn machine_inv(m: MachineV) -> bool {
    &&& m.labels == mark_table(m.program)
    &&& !has_duplicate_marks(m.program)
    &&& m.ip <= m.program.len()
    &&& (m.status matches Status::AwaitingChar(_) ==> m.ip < m.program.len())
    &&& (m.status matches Status::AwaitingNum(_) ==> m.ip < m.program.len())
    &&& forall|k: int| 0 <= k < m.calls.len() ==> (#[trigger] m.calls[k]) <= m.program.len()
}

/// A failing step: only the status changes, to the error at the current
/// instruction position.
pub open spec fn fail_step(m: MachineV, kind: ErrorKind) -> (MachineV, Effect) {
    let e = RunError { kind, pos: m.ip };
    (MachineV { status: Status::Failed(e), ..m }, Effect::Crashed(e))
}

/// Truncating division, with the one wrapping case of the signed 64-bit
/// range: the minimum divided by minus one is the minimum again.
pub open spec fn div_wrap(lhs: i64, rhs: i64) -> i64 {
    if lhs == i64::MIN && rhs == -1 {
        i64::MIN
    } else if lhs >= 0 {
        (lhs as int / rhs as int) as i64
    } else {
        (-((-lhs) / (rhs as int))) as i64
    }
}

/// The remainder of truncating division: its sign follows the dividend.
pub open spec fn mod_wrap(lhs: i64, rhs: i64) -> i64 {
    if lhs == i64::MIN && rhs == -1 {
        0
    } else if lhs >= 0 {
        (lhs as int % rhs as int) as i64
    } else {
        (-((-lhs) % (rhs as int))) as i64
    }
}

/// The low 8 bits of a value: the character code handed to the output
/// stream.
pub open spec fn low_byte(v: i64) -> u8 {
    (v as int % 256) as u8
}

/// One step of the operational semantics, from a running machine: the next
/// machine and the effect the outside world is asked to perform.
pub open spec fn step_spec(m: MachineV) -> (MachineV, Effect) {
    if m.ip >= m.program.len() {
        (MachineV { status: Status::Done, ..m }, Effect::Halted)
    } else {
        let next = (m.ip + 1) as usize;
        let len = m.stack.len();
        match m.program[m.ip as int] {
            CmdV::Push(n) => (MachineV { stack: m.stack.push(n), ip: next, ..m }, Effect::Quiet),
            CmdV::Duplicate => if len == 0 {
                fail_step(m, ErrorKind::StackUnderflow)
            } else {
                (MachineV { stack: m.stack.push(m.stack.last()), ip: next, ..m }, Effect::Quiet)
            },
            CmdV::Swap => if len < 2 {
                fail_step(m, ErrorKind::StackUnderflow)
            } else {
                let a = m.stack[len - 1];
                let b = m.stack[len - 2];
                (
                    MachineV {
                        stack: m.stack.update(len - 2, a).update(len - 1, b),
                        ip: next,
                        ..m
                    },
                    Effect::Quiet,
                )
            },
            CmdV::Discard => if len == 0 {
                fail_step(m, ErrorKind::StackUnderflow)
            } else {
                (MachineV { stack: m.stack.drop_last(), ip: next, ..m }, Effect::Quiet)
            },
            CmdV::Copy(n) => if n < 0 || n >= len {
                fail_step(m, ErrorKind::IndexOutOfRange)
            } else {
                (
                    MachineV { stack: m.stack.push(m.stack[len - 1 - n]), ip: next, ..m },
                    Effect::Quiet,
                )
            },
            CmdV::Slide(n) => if len == 0 {
                fail_step(m, ErrorKind::StackUnderflow)
            } else if n < 0 || n >= len {
                fail_step(m, ErrorKind::IndexOutOfRange)
            } else {
                (
                    MachineV {
                        stack: m.stack.take(len - 1 - n).push(m.stack.last()),
                        ip: next,
                        ..m
                    },
                    Effect::Quiet,
                )
            },
            CmdV::Store => if len < 2 {
                fail_step(m, ErrorKind::StackUnderflow)
            } else {
                let value = m.stack[len - 1];
                let addr = m.stack[len - 2];
                (
                    MachineV {
                        stack: m.stack.drop_last().drop_last(),
                        heap: m.heap.insert(addr, value),
                        ip: next,
                        ..m
                    },
                    Effect::Quiet,
                )
            },
            CmdV::Retrieve => if len == 0 {
                fail_step(m, ErrorKind::StackUnderflow)
            } else {
                let addr = m.stack[len - 1];
                if !m.heap.contains_key(addr) {
                    fail_step(m, ErrorKind::UnboundHeapAddress)
                } else {
                    (
                        MachineV { stack: m.stack.drop_last().push(m.heap[addr]), ip: next, ..m },
                        Effect::Quiet,
                    )
                }
            },
            CmdV::Add => if len < 2 {
                fail_step(m, ErrorKind::StackUnderflow)
            } else {
                let r = vstd::wrapping::i64_specs::wrapping_add(m.stack[len - 2], m.stack[len - 1]);
                (
                    MachineV { stack: m.stack.drop_last().drop_last().push(r), ip: next, ..m },
                    Effect::Quiet,
                )
            },
            CmdV::Sub => if len < 2 {
                fail_step(m, ErrorKind::StackUnderflow)
            } else {
                let r = vstd::wrapping::i64_specs::wrapping_sub(m.stack[len - 2], m.stack[len - 1]);
                (
                    MachineV { stack: m.stack.drop_last().drop_last().push(r), ip: next, ..m },
                    Effect::Quiet,
                )
            },
            CmdV::Mul => if len < 2 {
                fail_step(m, ErrorKind::StackUnderflow)
            } else {
                let r = vstd::wrapping::i64_specs::wrapping_mul(m.stack[len - 2], m.stack[len - 1]);
                (
                    MachineV { stack: m.stack.drop_last().drop_last().push(r), ip: next, ..m },
                    Effect::Quiet,
                )
            },
            CmdV::Div => if len < 2 {
                fail_step(m, ErrorKind::StackUnderflow)
            } else if m.stack[len - 1] == 0 {
                fail_step(m, ErrorKind::DivisionByZero)
            } else {
                let r = div_wrap(m.stack[len - 2], m.stack[len - 1]);
                (
                    MachineV { stack: m.stack.drop_last().drop_last().push(r), ip: next, ..m },
                    Effect::Quiet,
                )
            },
            CmdV::Mod => if len < 2 {
                fail_step(m, ErrorKind::StackUnderflow)
            } else if m.stack[len - 1] == 0 {
                fail_step(m, ErrorKind::DivisionByZero)
            } else {
                let r = mod_wrap(m.stack[len - 2], m.stack[len - 1]);
                (
                    MachineV { stack: m.stack.drop_last().drop_last().push(r), ip: next, ..m },
                    Effect::Quiet,
                )
            },
            CmdV::Mark(_) => (MachineV { ip: next, ..m }, Effect::Quiet),
            CmdV::Call(l) => if !m.labels.contains_key(l) {
                fail_step(m, ErrorKind::UndefinedLabel)
            } else {
                (
                    MachineV {
                        calls: m.calls.push(next),
                        ip: m.labels[l] as usize,
                        ..m
                    },
                    Effect::Quiet,
                )
            },
            CmdV::Jump(l) => if !m.labels.contains_key(l) {
                fail_step(m, ErrorKind::UndefinedLabel)
            } else {
                (MachineV { ip: m.labels[l] as usize, ..m }, Effect::Quiet)
            },
            CmdV::JumpIfZero(l) => if len == 0 {
                fail_step(m, ErrorKind::StackUnderflow)
            } else {
                let v = m.stack[len - 1];
                if v == 0 && !m.labels.contains_key(l) {
                    fail_step(m, ErrorKind::UndefinedLabel)
                } else {
                    let target = if v == 0 {
                        m.labels[l] as usize
                    } else {
                        next
                    };
                    (MachineV { stack: m.stack.drop_last(), ip: target, ..m }, Effect::Quiet)
                }
            },
            CmdV::JumpIfNeg(l) => if len == 0 {
                fail_step(m, ErrorKind::StackUnderflow)
            } else {
                let v = m.stack[len - 1];
                if v < 0 && !m.labels.contains_key(l) {
                    fail_step(m, ErrorKind::UndefinedLabel)
                } else {
                    let target = if v < 0 {
                        m.labels[l] as usize
                    } else {
                        next
                    };
                    (MachineV { stack: m.stack.drop_last(), ip: target, ..m }, Effect::Quiet)
                }
            },
            CmdV::Return => if m.calls.len() == 0 {
                fail_step(m, ErrorKind::ReturnWithoutCall)
            } else {
                (
                    MachineV { calls: m.calls.drop_last(), ip: m.calls.last(), ..m },
                    Effect::Quiet,
                )
            },
            CmdV::Exit => (MachineV { status: Status::Done, ..m }, Effect::Halted),
            CmdV::OutputChar => if len == 0 {
                fail_step(m, ErrorKind::StackUnderflow)
            } else {
                (
                    MachineV { stack: m.stack.drop_last(), ip: next, ..m },
                    Effect::PrintChar(low_byte(m.stack[len - 1])),
                )
            },
            CmdV::OutputNum => if len == 0 {
                fail_step(m, ErrorKind::StackUnderflow)
            } else {
                (
                    MachineV { stack: m.stack.drop_last(), ip: next, ..m },
                    Effect::PrintNum(m.stack[len - 1]),
                )
            },
            CmdV::ReadChar => if len == 0 {
                fail_step(m, ErrorKind::StackUnderflow)
            } else {
                (
                    MachineV {
                        stack: m.stack.drop_last(),
                        status: Status::AwaitingChar(m.stack[len - 1]),
                        ..m
                    },
                    Effect::NeedChar,
                )
            },
            CmdV::ReadNum => if len == 0 {
                fail_step(m, ErrorKind::StackUnderflow)
            } else {
                (
                    MachineV {
                        stack: m.stack.drop_last(),
                        status: Status::AwaitingNum(m.stack[len - 1]),
                        ..m
                    },
                    Effect::NeedNum,
                )
            },
        }
    }
}

/// What a waiting machine becomes when the read byte arrives: the byte's
/// numeric value is bound at the waiting address and execution resumes after
/// the read instruction.
pub open spec fn provide_char_spec(m: MachineV, b: u8) -> MachineV {
    match m.status {
        Status::AwaitingChar(addr) => MachineV {
            heap: m.heap.insert(addr, b as i64),
            status: Status::Running,
            ip: (m.ip + 1) as usize,
            ..m
        },
        _ => m,
    }
}

/// What a waiting machine becomes when the read number arrives.
pub open spec fn provide_num_spec(m: MachineV, n: i64) -> MachineV {
    match m.status {
        Status::AwaitingNum(addr) => MachineV {
            heap: m.heap.insert(addr, n),
            status: Status::Running,
            ip: (m.ip + 1) as usize,
            ..m
        },
        _ => m,
    }
}

/// What a waiting machine becomes when the read cannot be satisfied: a fatal
/// I/O error at the read instruction.
pub open spec fn input_failed_spec(m: MachineV) -> MachineV {
    MachineV { status: Status::Failed(RunError { kind: ErrorKind::IoError, pos: m.ip }), ..m }
}

/// The execution engine: the parsed program, its label table, and the
/// runtime state, advanced one instruction at a time.
pub struct Machine {
    program: Vec<Command>,
    labels: LabelTable,
    stack: Vec<i64>,
    heap: HashMap<i64, i64>,
    calls: Vec<usize>,
    ip: usize,
    status: Status,
}

impl View for Machine {
    type V = MachineV;

    closed spec fn view(&self) -> MachineV {
        MachineV {
            program: self.program@.map_values(|c: Command| c@),
            labels: self.labels@,
            stack: self.stack@,
            heap: self.heap@,
            calls: self.calls@,
            ip: self.ip,
            status: self.status,
        }
    }
}

impl Machine {
    /// The machine's internal well-formedness: its label table is an
    /// association list without repeated keys, and the abstract invariant
    /// holds of its view.
    pub closed spec fn wf(&self) -> bool {
        &&& self.labels.wf()
        &&& machine_inv(self@)
    }

    /// Builds the label table and the initial runtime state for a program.
    /// Fails iff some label is marked twice, before anything runs.
    pub fn new(ast: Ast) -> (r: Result<Machine, RunError>)
        ensures
            match r {
                Ok(m) => {
                    &&& m.wf()
                    &&& !has_duplicate_marks(ast@)
                    &&& m@.program == ast@
                    &&& m@.labels == mark_table(ast@)
                    &&& m@.stack == Seq::<i64>::empty()
                    &&& m@.heap == Map::<i64, i64>::empty()
                    &&& m@.calls == Seq::<usize>::empty()
                    &&& m@.ip == 0
                    &&& m@.status == Status::Running
                },
                Err(e) => {
                    &&& e.kind == ErrorKind::DuplicateLabel
                    &&& has_duplicate_marks(ast@)
                    &&& e.pos < ast@.len()
                    &&& has_duplicate_marks(ast@.take(e.pos + 1))
                    &&& !has_duplicate_marks(ast@.take(e.pos as int))
                },
            },
    {
        match LabelTable::build(&ast.commands) {
            Err(e) => Err(e),
            Ok(labels) => {
                let m = Machine {
                    program: ast.commands,
                    labels,
                    stack: Vec::new(),
                    heap: HashMap::new(),
                    calls: Vec::new(),
                    ip: 0,
                    status: Status::Running,
                };
                Ok(m)
            },
        }
    }

    /// Fails the current instruction: only the status changes.
    fn fail(&mut self, kind: ErrorKind) -> (eff: Effect)
        requires
            old(self).wf(),
        ensures
            final(self).wf(),
            final(self)@ == fail_step(old(self)@, kind).0,
            eff == fail_step(old(self)@, kind).1,
    {
        let e = RunError { kind, pos: self.ip };
        self.status = Status::Failed(e);
        proof {
            assert(self@ =~~= fail_step(old(self)@, kind).0);
        }
        Effect::Crashed(e)
    }

    fn exec_push(&mut self, v: i64) -> (eff: Effect)
        requires
            old(self).wf(),
            old(self)@.status == Status::Running,
            old(self)@.ip < old(self)@.program.len() <= usize::MAX,
            old(self)@.program[old(self)@.ip as int] == CmdV::Push(v),
        ensures
            final(self).wf(),
            final(self)@ == step_spec(old(self)@).0,
            eff == step_spec(old(self)@).1,
    {
        let ghost m0 = self@;
        self.stack.push(v);
        self.ip = self.ip + 1;
        proof {
            assert(self@ =~~= step_spec(m0).0);
        }
        Effect::Quiet
    }

    fn exec_duplicate(&mut self) -> (eff: Effect)
        requires
            old(self).wf(),
            old(self)@.status == Status::Running,
            old(self)@.ip < old(self)@.program.len() <= usize::MAX,
            old(self)@.program[old(self)@.ip as int] == CmdV::Duplicate,
        ensures
            final(self).wf(),
            final(self)@ == step_spec(old(self)@).0,
            eff == step_spec(old(self)@).1,
    {
        let ghost m0 = self@;
        if self.stack.len() == 0 {
            return self.fail(ErrorKind::StackUnderflow);
        }
        let v = self.stack[self.stack.len() - 1];
        self.stack.push(v);
        self.ip = self.ip + 1;
        proof {
            assert(self@ =~~= step_spec(m0).0);
        }
        Effect::Quiet
    }

    fn exec_swap(&mut self) -> (eff: Effect)
        requires
            old(self).wf(),
            old(self)@.status == Status::Running,
            old(self)@.ip < old(self)@.program.len() <= usize::MAX,
            old(self)@.program[old(self)@.ip as int] == CmdV::Swap,
        ensures
            final(self).wf(),
            final(self)@ == step_spec(old(self)@).0,
            eff == step_spec(old(self)@).1,
    {
        let ghost m0 = self@;
        if self.stack.len() < 2 {
            return self.fail(ErrorKind::StackUnderflow);
        }
        let a = self.stack.pop().unwrap();
        let b = self.stack.pop().unwrap();
        self.stack.push(a);
        self.stack.push(b);
        self.ip = self.ip + 1;
        proof {
            assert(self.stack@ =~= m0.stack.update(m0.stack.len() - 2, m0.stack[m0.stack.len() - 1])
                .update(m0.stack.len() - 1, m0.stack[m0.stack.len() - 2]));
            assert(self@ =~~= step_spec(m0).0);
        }
        Effect::Quiet
    }

    fn exec_discard(&mut self) -> (eff: Effect)
        requires
            old(self).wf(),
            old(self)@.status == Status::Running,
            old(self)@.ip < old(self)@.program.len() <= usize::MAX,
            old(self)@.program[old(self)@.ip as int] == CmdV::Discard,
        ensures
            final(self).wf(),
            final(self)@ == step_spec(old(self)@).0,
            eff == step_spec(old(self)@).1,
    {
        let ghost m0 = self@;
        if self.stack.len() == 0 {
            return self.fail(ErrorKind::StackUnderflow);
        }
        let _ = self.stack.pop();
        self.ip = self.ip + 1;
        proof {
            assert(self.stack@ =~= m0.stack.drop_last());
            assert(self@ =~~= step_spec(m0).0);
        }
        Effect::Quiet
    }

    fn exec_copy(&mut self, d: i64) -> (eff: Effect)
        requires
            old(self).wf(),
            old(self)@.status == Status::Running,
            old(self)@.ip < old(self)@.program.len() <= usize::MAX,
            old(self)@.program[old(self)@.ip as int] == CmdV::Copy(d),
        ensures
            final(self).wf(),
            final(self)@ == step_spec(old(self)@).0,
            eff == step_spec(old(self)@).1,
    {
        let ghost m0 = self@;
        if d < 0 || d as u64 >= self.stack.len() as u64 {
            return self.fail(ErrorKind::IndexOutOfRange);
        }
        let idx = self.stack.len() - 1 - (d as usize);
        let v = self.stack[idx];
        self.stack.push(v);
        self.ip = self.ip + 1;
        proof {
            assert(self@ =~~= step_spec(m0).0);
        }
        Effect::Quiet
    }

    fn exec_slide(&mut self, d: i64) -> (eff: Effect)
        requires
            old(self).wf(),
            old(self)@.status == Status::Running,
            old(self)@.ip < old(self)@.program.len() <= usize::MAX,
            old(self)@.program[old(self)@.ip as int] == CmdV::Slide(d),
        ensures
            final(self).wf(),
            final(self)@ == step_spec(old(self)@).0,
            eff == step_spec(old(self)@).1,
    {
        let ghost m0 = self@;
        if self.stack.len() == 0 {
            return self.fail(ErrorKind::StackUnderflow);
        }
        if d < 0 || d as u64 >= self.stack.len() as u64 {
            return self.fail(ErrorKind::IndexOutOfRange);
        }
        let top = self.stack[self.stack.len() - 1];
        let keep = self.stack.len() - 1 - (d as usize);
        self.stack.truncate(keep);
        self.stack.push(top);
        self.ip = self.ip + 1;
        proof {
            assert(self.stack@ =~= m0.stack.take(m0.stack.len() - 1 - (d as int)).push(
                m0.stack.last(),
            ));
            assert(self@ =~~= step_spec(m0).0);
        }
        Effect::Quiet
    }

    fn exec_store(&mut self) -> (eff: Effect)
        requires
            old(self).wf(),
            old(self)@.status == Status::Running,
            old(self)@.ip < old(self)@.program.len() <= usize::MAX,
            old(self)@.program[old(self)@.ip as int] == CmdV::Store,
        ensures
            final(self).wf(),
            final(self)@ == step_spec(old(self)@).0,
            eff == step_spec(old(self)@).1,
    {
        let ghost m0 = self@;
        if self.stack.len() < 2 {
            return self.fail(ErrorKind::StackUnderflow);
        }
        let value = self.stack.pop().unwrap();
        let addr = self.stack.pop().unwrap();
        let _ = self.heap.insert(addr, value);
        self.ip = self.ip + 1;
        proof {
            assert(self.stack@ =~= m0.stack.drop_last().drop_last());
            assert(self@ =~~= step_spec(m0).0);
        }
        Effect::Quiet
    }

    fn exec_retrieve(&mut self) -> (eff: Effect)
        requires
            old(self).wf(),
            old(self)@.status == Status::Running,
            old(self)@.ip < old(self)@.program.len() <= usize::MAX,
            old(self)@.program[old(self)@.ip as int] == CmdV::Retrieve,
        ensures
            final(self).wf(),
            final(self)@ == step_spec(old(self)@).0,
            eff == step_spec(old(self)@).1,
    {
        let ghost m0 = self@;
        if self.stack.len() == 0 {
            return self.fail(ErrorKind::StackUnderflow);
        }
        let addr = self.stack[self.stack.len() - 1];
        let found: Option<i64> = match self.heap.get(&addr) {
            Some(v) => Some(*v),
            None => None,
        };
        match found {
            None => self.fail(ErrorKind::UnboundHeapAddress),
            Some(v) => {
                let _ = self.stack.pop();
                self.stack.push(v);
                self.ip = self.ip + 1;
                proof {
                    assert(self.stack@ =~= m0.stack.drop_last().push(m0.heap[addr]));
                    assert(self@ =~~= step_spec(m0).0);
                }
                Effect::Quiet
            },
        }
    }

    fn exec_arith(&mut self, op: Arith) -> (eff: Effect)
        requires
            old(self).wf(),
            old(self)@.status == Status::Running,
            old(self)@.ip < old(self)@.program.len() <= usize::MAX,
            old(self)@.program[old(self)@.ip as int] == op@,
        ensures
            final(self).wf(),
            final(self)@ == step_spec(old(self)@).0,
            eff == step_spec(old(self)@).1,
    {
        let ghost m0 = self@;
        if self.stack.len() < 2 {
            return self.fail(ErrorKind::StackUnderflow);
        }
        let rhs = self.stack[self.stack.len() - 1];
        let lhs = self.stack[self.stack.len() - 2];
        match op {
            Arith::Div | Arith::Mod => {
                if rhs == 0 {
                    return self.fail(ErrorKind::DivisionByZero);
                }
            },
            _ => {},
        }
        let r: i64 = match op {
            Arith::Add => lhs.wrapping_add(rhs),
            Arith::Sub => lhs.wrapping_sub(rhs),
            Arith::Mul => lhs.wrapping_mul(rhs),
            Arith::Div => {
                if lhs == i64::MIN && rhs == -1 {
                    i64::MIN
                } else {
                    lhs / rhs
                }
            },
            Arith::Mod => {
                if lhs == i64::MIN && rhs == -1 {
                    0
                } else {
                    lhs % rhs
                }
            },
        };
        let _ = self.stack.pop();
        let _ = self.stack.pop();
        self.stack.push(r);
        self.ip = self.ip + 1;
        proof {
            assert(self.stack@ =~= m0.stack.drop_last().drop_last().push(r));
            assert(self@ =~~= step_spec(m0).0);
        }
        Effect::Quiet
    }

    fn exec_mark(&mut self) -> (eff: Effect)
        requires
            old(self).wf(),
            old(self)@.status == Status::Running,
            old(self)@.ip < old(self)@.program.len() <= usize::MAX,
            old(self)@.program[old(self)@.ip as int] matches CmdV::Mark(_),
        ensures
            final(self).wf(),
            final(self)@ == step_spec(old(self)@).0,
            eff == step_spec(old(self)@).1,
    {
        let ghost m0 = self@;
        self.ip = self.ip + 1;
        proof {
            assert(self@ =~~= step_spec(m0).0);
        }
        Effect::Quiet
    }

    fn exec_call(&mut self, target: Option<usize>, Ghost(l): Ghost<Seq<bool>>) -> (eff: Effect)
        requires
            old(self).wf(),
            old(self)@.status == Status::Running,
            old(self)@.ip < old(self)@.program.len() <= usize::MAX,
            old(self)@.program[old(self)@.ip as int] == CmdV::Call(l),
            match target {
                Some(t) => old(self)@.labels.contains_key(l) && old(self)@.labels[l] == t as int,
                None => !old(self)@.labels.contains_key(l),
            },
        ensures
            final(self).wf(),
            final(self)@ == step_spec(old(self)@).0,
            eff == step_spec(old(self)@).1,
    {
        let ghost m0 = self@;
        proof {
            lemma_mark_table_props(m0.program);
        }
        match target {
            None => self.fail(ErrorKind::UndefinedLabel),
            Some(t) => {
                let ret = self.ip + 1;
                self.calls.push(ret);
                self.ip = t;
                proof {
                    assert(self@ =~~= step_spec(m0).0);
                }
                Effect::Quiet
            },
        }
    }

    fn exec_jump(&mut self, target: Option<usize>, Ghost(l): Ghost<Seq<bool>>) -> (eff: Effect)
        requires
            old(self).wf(),
            old(self)@.status == Status::Running,
            old(self)@.ip < old(self)@.program.len() <= usize::MAX,
            old(self)@.program[old(self)@.ip as int] == CmdV::Jump(l),
            match target {
                Some(t) => old(self)@.labels.contains_key(l) && old(self)@.labels[l] == t as int,
                None => !old(self)@.labels.contains_key(l),
            },
        ensures
            final(self).wf(),
            final(self)@ == step_spec(old(self)@).0,
            eff == step_spec(old(self)@).1,
    {
        let ghost m0 = self@;
        proof {
            lemma_mark_table_props(m0.program);
        }
        match target {
            None => self.fail(ErrorKind::UndefinedLabel),
            Some(t) => {
                self.ip = t;
                proof {
                    assert(self@ =~~= step_spec(m0).0);
                }
                Effect::Quiet
            },
        }
    }

    fn exec_jump_if_zero(&mut self, target: Option<usize>, Ghost(l): Ghost<Seq<bool>>) -> (eff:
        Effect)
        requires
            old(self).wf(),
            old(self)@.status == Status::Running,
            old(self)@.ip < old(self)@.program.len() <= usize::MAX,
            old(self)@.program[old(self)@.ip as int] == CmdV::JumpIfZero(l),
            match target {
                Some(t) => old(self)@.labels.contains_key(l) && old(self)@.labels[l] == t as int,
                None => !old(self)@.labels.contains_key(l),
            },
        ensures
            final(self).wf(),
            final(self)@ == step_spec(old(self)@).0,
            eff == step_spec(old(self)@).1,
    {
        let ghost m0 = self@;
        proof {
            lemma_mark_table_props(m0.program);
        }
        if self.stack.len() == 0 {
            return self.fail(ErrorKind::StackUnderflow);
        }
        let v = self.stack[self.stack.len() - 1];
        if v == 0 {
            match target {
                None => self.fail(ErrorKind::UndefinedLabel),
                Some(t) => {
                    let _ = self.stack.pop();
                    self.ip = t;
                    proof {
                        assert(self.stack@ =~= m0.stack.drop_last());
                        assert(self@ =~~= step_spec(m0).0);
                    }
                    Effect::Quiet
                },
            }
        } else {
            let _ = self.stack.pop();
            self.ip = self.ip + 1;
            proof {
                assert(self.stack@ =~= m0.stack.drop_last());
                assert(self@ =~~= step_spec(m0).0);
            }
            Effect::Quiet
        }
    }

    fn exec_jump_if_neg(&mut self, target: Option<usize>, Ghost(l): Ghost<Seq<bool>>) -> (eff:
        Effect)
        requires
            old(self).wf(),
            old(self)@.status == Status::Running,
            old(self)@.ip < old(self)@.program.len() <= usize::MAX,
            old(self)@.program[old(self)@.ip as int] == CmdV::JumpIfNeg(l),
            match target {
                Some(t) => old(self)@.labels.contains_key(l) && old(self)@.labels[l] == t as int,
                None => !old(self)@.labels.contains_key(l),
            },
        ensures
            final(self).wf(),
            final(self)@ == step_spec(old(self)@).0,
            eff == step_spec(old(self)@).1,
    {
        let ghost m0 = self@;
        proof {
            lemma_mark_table_props(m0.program);
        }
        if self.stack.len() == 0 {
            return self.fail(ErrorKind::StackUnderflow);
        }
        let v = self.stack[self.stack.len() - 1];
        if v < 0 {
            match target {
                None => self.fail(ErrorKind::UndefinedLabel),
                Some(t) => {
                    let _ = self.stack.pop();
                    self.ip = t;
                    proof {
                        assert(self.stack@ =~= m0.stack.drop_last());
                        assert(self@ =~~= step_spec(m0).0);
                    }
                    Effect::Quiet
                },
            }
        } else {
            let _ = self.stack.pop();
            self.ip = self.ip + 1;
            proof {
                assert(self.stack@ =~= m0.stack.drop_last());
                assert(self@ =~~= step_spec(m0).0);
            }
            Effect::Quiet
        }
    }

    fn exec_return(&mut self) -> (eff: Effect)
        requires
            old(self).wf(),
            old(self)@.status == Status::Running,
            old(self)@.ip < old(self)@.program.len() <= usize::MAX,
            old(self)@.program[old(self)@.ip as int] == CmdV::Return,
        ensures
            final(self).wf(),
            final(self)@ == step_spec(old(self)@).0,
            eff == step_spec(old(self)@).1,
    {
        let ghost m0 = self@;
        if self.calls.len() == 0 {
            return self.fail(ErrorKind::ReturnWithoutCall);
        }
        let t = self.calls.pop().unwrap();
        self.ip = t;
        proof {
            assert(self.calls@ =~= m0.calls.drop_last());
            assert(self@ =~~= step_spec(m0).0);
        }
        Effect::Quiet
    }

    fn exec_exit(&mut self) -> (eff: Effect)
        requires
            old(self).wf(),
            old(self)@.status == Status::Running,
            old(self)@.ip < old(self)@.program.len() <= usize::MAX,
            old(self)@.program[old(self)@.ip as int] == CmdV::Exit,
        ensures
            final(self).wf(),
            final(self)@ == step_spec(old(self)@).0,
            eff == step_spec(old(self)@).1,
    {
        let ghost m0 = self@;
        self.status = Status::Done;
        proof {
            assert(self@ =~~= step_spec(m0).0);
        }
        Effect::Halted
    }

    fn exec_output_char(&mut self) -> (eff: Effect)
        requires
            old(self).wf(),
            old(self)@.status == Status::Running,
            old(self)@.ip < old(self)@.program.len() <= usize::MAX,
            old(self)@.program[old(self)@.ip as int] == CmdV::OutputChar,
        ensures
            final(self).wf(),
            final(self)@ == step_spec(old(self)@).0,
            eff == step_spec(old(self)@).1,
    {
        let ghost m0 = self@;
        if self.stack.len() == 0 {
            return self.fail(ErrorKind::StackUnderflow);
        }
        let v = self.stack.pop().unwrap();
        let r = v % 256;
        let b: u8 = if r < 0 {
            (r + 256) as u8
        } else {
            r as u8
        };
        self.ip = self.ip + 1;
        proof {
            assert(b == low_byte(v));
            assert(self.stack@ =~= m0.stack.drop_last());
            assert(self@ =~~= step_spec(m0).0);
        }
        Effect::PrintChar(b)
    }

    fn exec_output_num(&mut self) -> (eff: Effect)
        requires
            old(self).wf(),
            old(self)@.status == Status::Running,
            old(self)@.ip < old(self)@.program.len() <= usize::MAX,
            old(self)@.program[old(self)@.ip as int] == CmdV::OutputNum,
        ensures
            final(self).wf(),
            final(self)@ == step_spec(old(self)@).0,
            eff == step_spec(old(self)@).1,
    {
        let ghost m0 = self@;
        if self.stack.len() == 0 {
            return self.fail(ErrorKind::StackUnderflow);
        }
        let v = self.stack.pop().unwrap();
        self.ip = self.ip + 1;
        proof {
            assert(self.stack@ =~= m0.stack.drop_last());
            assert(self@ =~~= step_spec(m0).0);
        }
        Effect::PrintNum(v)
    }

    fn exec_read_char(&mut self) -> (eff: Effect)
        requires
            old(self).wf(),
            old(self)@.status == Status::Running,
            old(self)@.ip < old(self)@.program.len() <= usize::MAX,
            old(self)@.program[old(self)@.ip as int] == CmdV::ReadChar,
        ensures
            final(self).wf(),
            final(self)@ == step_spec(old(self)@).0,
            eff == step_spec(old(self)@).1,
    {
        let ghost m0 = self@;
        if self.stack.len() == 0 {
            return self.fail(ErrorKind::StackUnderflow);
        }
        let addr = self.stack.pop().unwrap();
        self.status = Status::AwaitingChar(addr);
        proof {
            assert(self.stack@ =~= m0.stack.drop_last());
            assert(self@ =~~= step_spec(m0).0);
        }
        Effect::NeedChar
    }

    fn exec_read_num(&mut self) -> (eff: Effect)
        requires
            old(self).wf(),
            old(self)@.status == Status::Running,
            old(self)@.ip < old(self)@.program.len() <= usize::MAX,
            old(self)@.program[old(self)@.ip as int] == CmdV::ReadNum,
        ensures
            final(self).wf(),
            final(self)@ == step_spec(old(self)@).0,
            eff == step_spec(old(self)@).1,
    {
        let ghost m0 = self@;
        if self.stack.len() == 0 {
            return self.fail(ErrorKind::StackUnderflow);
        }
        let addr = self.stack.pop().unwrap();
        self.status = Status::AwaitingNum(addr);
        proof {
            assert(self.stack@ =~= m0.stack.drop_last());
            assert(self@ =~~= step_spec(m0).0);
        }
        Effect::NeedNum
    }

    /// Hands the waiting read-character command its input byte: the byte's
    /// numeric value is stored at the waiting address and execution resumes.
    pub fn provide_char(&mut self, b: u8)
        requires
            old(self).wf(),
            old(self)@.status matches Status::AwaitingChar(_),
        ensures
            final(self).wf(),
            final(self)@ == provide_char_spec(old(self)@, b),
    {
        let ghost m0 = self@;
        // reading the length tells the verifier the pointer can advance
        let _n = self.program.len();
        match self.status {
            Status::AwaitingChar(addr) => {
                let _ = self.heap.insert(addr, b as i64);
                self.status = Status::Running;
                self.ip = self.ip + 1;
                proof {
                    assert(self@ =~~= provide_char_spec(m0, b));
                }
            },
            _ => {},
        }
    }

    /// Hands the waiting read-number command its input value.
    pub fn provide_num(&mut self, v: i64)
        requires
            old(self).wf(),
            old(self)@.status matches Status::AwaitingNum(_),
        ensures
            final(self).wf(),
            final(self)@ == provide_num_spec(old(self)@, v),
    {
        let ghost m0 = self@;
        // reading the length tells the verifier the pointer can advance
        let _n = self.program.len();
        match self.status {
            Status::AwaitingNum(addr) => {
                let _ = self.heap.insert(addr, v);
                self.status = Status::Running;
                self.ip = self.ip + 1;
                proof {
                    assert(self@ =~~= provide_num_spec(m0, v));
                }
            },
            _ => {},
        }
    }

    /// Reports that the waiting read could not be satisfied (end of input or
    /// a malformed number line): a fatal I/O error at the read instruction.
    pub fn input_failed(&mut self) -> (e: RunError)
        requires
            old(self).wf(),
            (old(self)@.status matches Status::AwaitingChar(_)) || (old(self)@.status
                matches Status::AwaitingNum(_)),
        ensures
            final(self).wf(),
            final(self)@ == input_failed_spec(old(self)@),
            e == (RunError { kind: ErrorKind::IoError, pos: old(self)@.ip }),
    {
        let ghost m0 = self@;
        let e = RunError { kind: ErrorKind::IoError, pos: self.ip };
        self.status = Status::Failed(e);
        proof {
            assert(self@ =~~= input_failed_spec(m0));
        }
        e
    }

    /// Where execution stands.
    pub fn status(&self) -> (s: Status)
        ensures
            s == self@.status,
    {
        self.status
    }

    /// The current instruction position.
    pub fn ip(&self) -> (r: usize)
        ensures
            r == self@.ip,
    {
        self.ip
    }

    /// How many commands the program holds.
    pub fn program_len(&self) -> (r: usize)
        ensures
            r == self@.program.len(),
    {
        self.program.len()
    }

    /// The operand stack, bottom first.
    pub fn stack_values(&self) -> (r: Vec<i64>)
        ensures
            r@ == self@.stack,
    {
        let n = self.stack.len();
        let mut out: Vec<i64> = Vec::new();
        let mut i: usize = 0;
        while i < n
            invariant
                n == self.stack@.len(),
                0 <= i <= n,
                out@ =~= self.stack@.take(i as int),
            decreases n - i,
        {
            out.push(self.stack[i]);
            proof {
                assert(out@ =~= self.stack@.take(i + 1));
            }
            i = i + 1;
        }
        proof {
            assert(self.stack@.take(n as int) =~= self.stack@);
        }
        out
    }

    /// The value bound at a heap address, if any.
    pub fn heap_value(&self, addr: i64) -> (r: Option<i64>)
        ensures
            match r {
                Some(v) => self@.heap.contains_key(addr) && self@.heap[addr] == v,
                None => !self@.heap.contains_key(addr),
            },
    {
        match self.heap.get(&addr) {
            Some(v) => Some(*v),
            None => None,
        }
    }

    /// How many return addresses the call stack holds.
    pub fn call_depth(&self) -> (r: usize)
        ensures
            r == self@.calls.len(),
    {
        self.calls.len()
    }

    /// Executes one instruction of a running machine, exactly as `step_spec`
    /// describes, and returns the effect the caller must perform. A machine
    /// whose instruction pointer has passed the last command halts.
    pub fn step(&mut self) -> (eff: Effect)
        requires
            old(self).wf(),
            old(self)@.status == Status::Running,
        ensures
            final(self).wf(),
            final(self)@ == step_spec(old(self)@).0,
            eff == step_spec(old(self)@).1,
    {
        let ghost m0 = self@;
        if self.ip >= self.program.len() {
            self.status = Status::Done;
            proof {
                assert(self@ =~~= step_spec(m0).0);
            }
            return Effect::Halted;
        }
        let ip = self.ip;
        proof {
            assert(m0.program[ip as int] == self.program@[ip as int]@);
        }
        match &self.program[ip] {
            Command::Stack(Stack::Push(n)) => {
                let v = n.0;
                self.exec_push(v)
            },
            Command::Stack(Stack::Duplicate) => self.exec_duplicate(),
            Command::Stack(Stack::Swap) => self.exec_swap(),
            Command::Stack(Stack::Discard) => self.exec_discard(),
            Command::Stack(Stack::Copy(n)) => {
                let d = n.0;
                self.exec_copy(d)
            },
            Command::Stack(Stack::Slide(n)) => {
                let d = n.0;
                self.exec_slide(d)
            },
            Command::Heap(Heap::Store) => self.exec_store(),
            Command::Heap(Heap::Retrieve) => self.exec_retrieve(),
            Command::Arith(op) => {
                let op = *op;
                self.exec_arith(op)
            },
            Command::Flow(Flow::Mark(_)) => self.exec_mark(),
            Command::Flow(Flow::Call(l)) => {
                let target = self.labels.lookup(l);
                let ghost lv = l@;
                self.exec_call(target, Ghost(lv))
            },
            Command::Flow(Flow::Jump(l)) => {
                let target = self.labels.lookup(l);
                let ghost lv = l@;
                self.exec_jump(target, Ghost(lv))
            },
            Command::Flow(Flow::JumpIfZero(l)) => {
                let target = self.labels.lookup(l);
                let ghost lv = l@;
                self.exec_jump_if_zero(target, Ghost(lv))
            },
            Command::Flow(Flow::JumpIfNeg(l)) => {
                let target = self.labels.lookup(l);
                let ghost lv = l@;
                self.exec_jump_if_neg(target, Ghost(lv))
            },
            Command::Flow(Flow::Return) => self.exec_return(),
            Command::Flow(Flow::Exit) => self.exec_exit(),
            Command::Io(Io::OutputChar) => self.exec_output_char(),
            Command::Io(Io::OutputNum) => self.exec_output_num(),
            Command::Io(Io::ReadChar) => self.exec_read_char(),
            Command::Io(Io::ReadNum) => self.exec_read_num(),
        }
    }
}

/// Whether a status is a failure of the given kind.
pub open spec fn failed_with(s: Status, kind: ErrorKind) -> bool {
    s matches Status::Failed(e) && e.kind == kind
}

/// Whether every label that a call or jump command references has a mark
/// site somewhere in the program.
pub open spec fn all_labels_defined(prog: Seq<CmdV>) -> bool {
    forall|i: int|
        0 <= i < prog.len() ==> match #[trigger] prog[i] {
            CmdV::Call(l) => exists|j: int| 0 <= j < prog.len() && prog[j] == CmdV::Mark(l),
            CmdV::Jump(l) => exists|j: int| 0 <= j < prog.len() && prog[j] == CmdV::Mark(l),
            CmdV::JumpIfZero(l) => exists|j: int| 0 <= j < prog.len() && prog[j] == CmdV::Mark(l),
            CmdV::JumpIfNeg(l) => exists|j: int| 0 <= j < prog.len() && prog[j] == CmdV::Mark(l),
            _ => true,
        }
}

/// A program whose label references are all defined never fails over labels:
/// no step from any well-formed running machine produces `UndefinedLabel`,
/// and no step ever produces `DuplicateLabel` (that error can only come from
/// label-table construction, which `Machine::new` performs, and it arises
/// there iff some label is marked twice). Together with the preserved
/// invariant, this holds of every step of the whole execution.
#[verifier::rlimit(100)]
pub proof fn lemma_defined_labels_never_fail(m: MachineV)
    requires
        machine_inv(m),
        m.status == Status::Running,
        all_labels_defined(m.program),
    ensures
        machine_inv(step_spec(m).0),
        all_labels_defined(step_spec(m).0.program),
        !failed_with(step_spec(m).0.status, ErrorKind::UndefinedLabel),
        !failed_with(step_spec(m).0.status, ErrorKind::DuplicateLabel),
{
    lemma_mark_table_props(m.program);
    if m.ip < m.program.len() {
        match m.program[m.ip as int] {
            CmdV::Call(l) => {
                assert(mark_table(m.program).contains_key(l));
            },
            CmdV::Jump(l) => {
                assert(mark_table(m.program).contains_key(l));
            },
            CmdV::JumpIfZero(l) => {
                assert(mark_table(m.program).contains_key(l));
            },
            CmdV::JumpIfNeg(l) => {
                assert(mark_table(m.program).contains_key(l));
            },
            _ => {},
        }
    }
}

/// A call stores the position immediately after itself on the call stack
/// and transfers control to the called label's mark site.
pub proof fn lemma_call_pushes_return_site(m: MachineV, l: Seq<bool>)
    requires
        machine_inv(m),
        m.status == Status::Running,
        m.ip < m.program.len() <= usize::MAX,
        m.program[m.ip as int] == CmdV::Call(l),
        m.labels.contains_key(l),
    ensures
        step_spec(m).0.status == Status::Running,
        step_spec(m).0.calls == m.calls.push((m.ip + 1) as usize),
        step_spec(m).0.ip as int == m.labels[l],
        m.program[step_spec(m).0.ip as int] == CmdV::Mark(l),
{
    lemma_mark_table_props(m.program);
}

/// A return transfers control to the position the matching call stored, so
/// execution resumes at the instruction immediately following that call.
pub proof fn lemma_return_resumes_after_call(m: MachineV)
    requires
        machine_inv(m),
        m.status == Status::Running,
        m.ip < m.program.len(),
        m.program[m.ip as int] == CmdV::Return,
        m.calls.len() > 0,
    ensures
        step_spec(m).0.status == Status::Running,
        step_spec(m).0.ip == m.calls.last(),
        step_spec(m).0.calls == m.calls.drop_last(),
{
}

/// A program that only marks a label and jumps back to it loops forever:
/// from either of its two instructions, one step leaves the machine running
/// at one of them again, with the invariant preserved and nothing else
/// changed for the outside world. It never halts, never falls off the end,
/// and never fails -- in particular the self-referential pair is no
/// `UndefinedLabel`.
pub proof fn lemma_mark_jump_self_loop(m: MachineV, l: Seq<bool>)
    requires
        machine_inv(m),
        m.status == Status::Running,
        m.program =~= seq![CmdV::Mark(l), CmdV::Jump(l)],
        m.ip < 2,
    ensures
        machine_inv(step_spec(m).0),
        step_spec(m).0.status == Status::Running,
        step_spec(m).0.ip < 2,
        step_spec(m).0.program == m.program,
        step_spec(m).1 == Effect::Quiet,
{
    lemma_mark_table_props(m.program);
    if m.ip == 1 {
        assert(m.program[0] == CmdV::Mark(l));
        assert(mark_table(m.program).contains_key(l));
        let v = mark_table(m.program)[l];
        assert(m.program[v] == CmdV::Mark(l));
        assert(m.program[1] == CmdV::Jump(l));
        assert(v == 0);
    }
}

} // verus!
