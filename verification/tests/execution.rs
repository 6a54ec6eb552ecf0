use whitespace::ast::{Arith, Ast, Command, Flow, Heap, Io, Label, Number, Stack};
use whitespace::machine::{Effect, ErrorKind, Machine, RunError, Status};
use whitespace::parser::parse_program;

fn program(commands: Vec<Command>) -> Machine {
    Machine::new(Ast { commands }).unwrap()
}

fn push(n: i64) -> Command {
    Command::Stack(Stack::Push(Number(n)))
}

#[test]
fn push_push_add_leaves_seven() {
    let mut m = program(vec![push(3), push(4), Command::Arith(Arith::Add)]);
    assert_eq!(m.step(), Effect::Quiet);
    assert_eq!(m.step(), Effect::Quiet);
    assert_eq!(m.step(), Effect::Quiet);
    assert_eq!(m.stack_values(), vec![7]);
    assert_eq!(m.step(), Effect::Halted);
    assert_eq!(m.status(), Status::Done);
}

#[test]
fn division_by_zero_fails() {
    let mut m = program(vec![push(5), push(0), Command::Arith(Arith::Div)]);
    m.step();
    m.step();
    let e = RunError {
        kind: ErrorKind::DivisionByZero,
        pos: 2,
    };
    assert_eq!(m.step(), Effect::Crashed(e));
    assert_eq!(m.status(), Status::Failed(e));
}

#[test]
fn duplicate_on_empty_stack_underflows() {
    let mut m = program(vec![Command::Stack(Stack::Duplicate)]);
    let e = RunError {
        kind: ErrorKind::StackUnderflow,
        pos: 0,
    };
    assert_eq!(m.step(), Effect::Crashed(e));
    assert_eq!(m.status(), Status::Failed(e));
}

#[test]
fn mark_jump_pair_loops_forever() {
    let l = || Label(vec![true, false, true]);
    let mut m = program(vec![
        Command::Flow(Flow::Mark(l())),
        Command::Flow(Flow::Jump(l())),
    ]);
    for _ in 0..1000 {
        assert_eq!(m.step(), Effect::Quiet);
        assert_eq!(m.status(), Status::Running);
        assert!(m.ip() < 2);
    }
}

#[test]
fn empty_label_can_be_marked_and_jumped_to() {
    let l = || Label(vec![]);
    let mut m = program(vec![
        Command::Flow(Flow::Mark(l())),
        Command::Flow(Flow::Jump(l())),
    ]);
    for _ in 0..10 {
        assert_eq!(m.step(), Effect::Quiet);
        assert_eq!(m.status(), Status::Running);
    }
}

#[test]
fn call_returns_to_the_instruction_after_the_call() {
    let l = || Label(vec![false, true]);
    let mut m = program(vec![
        Command::Flow(Flow::Call(l())), // 0
        push(10),                       // 1
        Command::Flow(Flow::Exit),      // 2
        Command::Flow(Flow::Mark(l())), // 3
        push(20),                       // 4
        Command::Flow(Flow::Return),    // 5
    ]);
    assert_eq!(m.step(), Effect::Quiet); // call
    assert_eq!(m.ip(), 3);
    assert_eq!(m.call_depth(), 1);
    assert_eq!(m.step(), Effect::Quiet); // mark
    assert_eq!(m.step(), Effect::Quiet); // push 20
    assert_eq!(m.step(), Effect::Quiet); // return
    assert_eq!(m.ip(), 1);
    assert_eq!(m.call_depth(), 0);
    assert_eq!(m.step(), Effect::Quiet); // push 10
    assert_eq!(m.step(), Effect::Halted); // exit
    assert_eq!(m.stack_values(), vec![20, 10]);
}

#[test]
fn duplicate_marks_fail_before_anything_runs() {
    let l = || Label(vec![true]);
    let r = Machine::new(Ast {
        commands: vec![
            Command::Flow(Flow::Mark(l())),
            push(1),
            Command::Flow(Flow::Mark(l())),
        ],
    });
    assert_eq!(
        r.err().map(|e| e.kind),
        Some(ErrorKind::DuplicateLabel)
    );
}

#[test]
fn duplicate_marks_position_is_the_second_mark() {
    let l = || Label(vec![false, false]);
    let r = Machine::new(Ast {
        commands: vec![
            push(9),
            Command::Flow(Flow::Mark(l())),
            push(8),
            Command::Flow(Flow::Mark(l())),
        ],
    });
    assert_eq!(
        r.err(),
        Some(RunError {
            kind: ErrorKind::DuplicateLabel,
            pos: 3,
        })
    );
}

#[test]
fn distinct_labels_may_each_be_marked_once() {
    let r = Machine::new(Ast {
        commands: vec![
            Command::Flow(Flow::Mark(Label(vec![]))),
            Command::Flow(Flow::Mark(Label(vec![false]))),
            Command::Flow(Flow::Mark(Label(vec![true]))),
        ],
    });
    assert!(r.is_ok());
}

#[test]
fn jump_to_unmarked_label_is_undefined() {
    let mut m = program(vec![Command::Flow(Flow::Jump(Label(vec![true])))]);
    let e = RunError {
        kind: ErrorKind::UndefinedLabel,
        pos: 0,
    };
    assert_eq!(m.step(), Effect::Crashed(e));
}

#[test]
fn conditional_jump_not_taken_ignores_unmarked_label() {
    let mut m = program(vec![
        push(1),
        Command::Flow(Flow::JumpIfZero(Label(vec![true]))),
    ]);
    assert_eq!(m.step(), Effect::Quiet);
    assert_eq!(m.step(), Effect::Quiet);
    assert_eq!(m.step(), Effect::Halted);
    assert_eq!(m.status(), Status::Done);
}

#[test]
fn jump_if_zero_taken_and_not_taken() {
    let l = || Label(vec![false]);
    let mut m = program(vec![
        push(0),                              // 0
        Command::Flow(Flow::JumpIfZero(l())), // 1: taken
        push(111),                            // 2: skipped
        Command::Flow(Flow::Mark(l())),       // 3
        push(222),                            // 4
    ]);
    m.step();
    m.step();
    assert_eq!(m.ip(), 3);
    assert_eq!(m.stack_values(), vec![]);
    m.step();
    m.step();
    assert_eq!(m.stack_values(), vec![222]);
}

#[test]
fn jump_if_neg_taken_and_not_taken() {
    let l = || Label(vec![true, true]);
    let mut m = program(vec![
        push(-1),                            // 0
        Command::Flow(Flow::JumpIfNeg(l())), // 1: taken
        push(111),                           // 2: skipped
        Command::Flow(Flow::Mark(l())),      // 3
        push(0),                             // 4
        Command::Flow(Flow::JumpIfNeg(l())), // 5: not taken (zero is not negative)
        push(333),                           // 6
    ]);
    m.step();
    m.step();
    assert_eq!(m.ip(), 3);
    m.step(); // mark
    m.step(); // push 0
    m.step(); // jump not taken
    m.step(); // push 333
    assert_eq!(m.stack_values(), vec![333]);
}

#[test]
fn return_without_call_fails() {
    let mut m = program(vec![Command::Flow(Flow::Return)]);
    let e = RunError {
        kind: ErrorKind::ReturnWithoutCall,
        pos: 0,
    };
    assert_eq!(m.step(), Effect::Crashed(e));
}

#[test]
fn exit_terminates_immediately() {
    let mut m = program(vec![push(1), Command::Flow(Flow::Exit), push(2)]);
    m.step();
    assert_eq!(m.step(), Effect::Halted);
    assert_eq!(m.status(), Status::Done);
    assert_eq!(m.stack_values(), vec![1]);
}

#[test]
fn running_off_the_end_halts() {
    let mut m = program(vec![push(1)]);
    m.step();
    assert_eq!(m.step(), Effect::Halted);
    assert_eq!(m.status(), Status::Done);
}

#[test]
fn empty_program_halts_at_once() {
    let mut m = program(vec![]);
    assert_eq!(m.step(), Effect::Halted);
    assert_eq!(m.status(), Status::Done);
}

#[test]
fn swap_discard_copy_slide() {
    let mut m = program(vec![
        push(1),
        push(2),
        push(3),
        Command::Stack(Stack::Swap),
        Command::Stack(Stack::Discard),
        Command::Stack(Stack::Copy(Number(1))),
        Command::Stack(Stack::Slide(Number(2))),
    ]);
    for _ in 0..3 {
        m.step();
    }
    m.step();
    assert_eq!(m.stack_values(), vec![1, 3, 2]);
    m.step();
    assert_eq!(m.stack_values(), vec![1, 3]);
    m.step();
    assert_eq!(m.stack_values(), vec![1, 3, 1]);
    m.step();
    assert_eq!(m.stack_values(), vec![1]);
}

#[test]
fn copy_depth_out_of_range_fails() {
    let mut m = program(vec![push(1), Command::Stack(Stack::Copy(Number(1)))]);
    m.step();
    let e = RunError {
        kind: ErrorKind::IndexOutOfRange,
        pos: 1,
    };
    assert_eq!(m.step(), Effect::Crashed(e));
}

#[test]
fn copy_negative_depth_fails() {
    let mut m = program(vec![push(1), Command::Stack(Stack::Copy(Number(-1)))]);
    m.step();
    assert_eq!(
        m.step(),
        Effect::Crashed(RunError {
            kind: ErrorKind::IndexOutOfRange,
            pos: 1,
        })
    );
}

#[test]
fn slide_depth_out_of_range_fails() {
    let mut m = program(vec![push(1), Command::Stack(Stack::Slide(Number(1)))]);
    m.step();
    assert_eq!(
        m.step(),
        Effect::Crashed(RunError {
            kind: ErrorKind::IndexOutOfRange,
            pos: 1,
        })
    );
}

#[test]
fn store_pops_value_then_address() {
    // address 100 is pushed first, the value 42 second
    let mut m = program(vec![push(100), push(42), Command::Heap(Heap::Store)]);
    m.step();
    m.step();
    m.step();
    assert_eq!(m.stack_values(), vec![]);
    assert_eq!(m.heap_value(100), Some(42));
    assert_eq!(m.heap_value(42), None);
}

#[test]
fn store_overwrites_a_prior_binding() {
    let mut m = program(vec![
        push(7),
        push(1),
        Command::Heap(Heap::Store),
        push(7),
        push(2),
        Command::Heap(Heap::Store),
    ]);
    for _ in 0..6 {
        m.step();
    }
    assert_eq!(m.heap_value(7), Some(2));
}

#[test]
fn retrieve_pushes_the_bound_value() {
    let mut m = program(vec![
        push(5),
        push(99),
        Command::Heap(Heap::Store),
        push(5),
        Command::Heap(Heap::Retrieve),
    ]);
    for _ in 0..5 {
        m.step();
    }
    assert_eq!(m.stack_values(), vec![99]);
}

#[test]
fn retrieve_unbound_address_fails() {
    let mut m = program(vec![push(5), Command::Heap(Heap::Retrieve)]);
    m.step();
    assert_eq!(
        m.step(),
        Effect::Crashed(RunError {
            kind: ErrorKind::UnboundHeapAddress,
            pos: 1,
        })
    );
}

#[test]
fn arithmetic_follows_the_operand_order() {
    // 10 - 3, 10 / 3, 10 % 3: the right-hand side is the top of the stack
    let mut m = program(vec![push(10), push(3), Command::Arith(Arith::Sub)]);
    for _ in 0..3 {
        m.step();
    }
    assert_eq!(m.stack_values(), vec![7]);

    let mut m = program(vec![push(10), push(3), Command::Arith(Arith::Div)]);
    for _ in 0..3 {
        m.step();
    }
    assert_eq!(m.stack_values(), vec![3]);

    let mut m = program(vec![push(10), push(3), Command::Arith(Arith::Mod)]);
    for _ in 0..3 {
        m.step();
    }
    assert_eq!(m.stack_values(), vec![1]);
}

#[test]
fn truncating_division_and_remainder_signs() {
    let cases = [
        (-7, 2, -3, -1),
        (7, -2, -3, 1),
        (-7, -2, 3, -1),
        (7, 2, 3, 1),
    ];
    for (lhs, rhs, q, r) in cases {
        let mut m = program(vec![push(lhs), push(rhs), Command::Arith(Arith::Div)]);
        for _ in 0..3 {
            m.step();
        }
        assert_eq!(m.stack_values(), vec![q], "{lhs} / {rhs}");

        let mut m = program(vec![push(lhs), push(rhs), Command::Arith(Arith::Mod)]);
        for _ in 0..3 {
            m.step();
        }
        assert_eq!(m.stack_values(), vec![r], "{lhs} % {rhs}");
    }
}

#[test]
fn arithmetic_wraps_around() {
    let mut m = program(vec![push(i64::MAX), push(1), Command::Arith(Arith::Add)]);
    for _ in 0..3 {
        m.step();
    }
    assert_eq!(m.stack_values(), vec![i64::MIN]);

    let mut m = program(vec![push(i64::MIN), push(1), Command::Arith(Arith::Sub)]);
    for _ in 0..3 {
        m.step();
    }
    assert_eq!(m.stack_values(), vec![i64::MAX]);

    let mut m = program(vec![push(i64::MAX), push(2), Command::Arith(Arith::Mul)]);
    for _ in 0..3 {
        m.step();
    }
    assert_eq!(m.stack_values(), vec![-2]);

    let mut m = program(vec![push(i64::MIN), push(-1), Command::Arith(Arith::Div)]);
    for _ in 0..3 {
        m.step();
    }
    assert_eq!(m.stack_values(), vec![i64::MIN]);

    let mut m = program(vec![push(i64::MIN), push(-1), Command::Arith(Arith::Mod)]);
    for _ in 0..3 {
        m.step();
    }
    assert_eq!(m.stack_values(), vec![0]);
}

#[test]
fn output_char_takes_the_low_byte() {
    let mut m = program(vec![push(321), Command::Io(Io::OutputChar)]);
    m.step();
    assert_eq!(m.step(), Effect::PrintChar(65)); // 321 = 256 + b'A'
    assert_eq!(m.stack_values(), vec![]);

    let mut m = program(vec![push(-191), Command::Io(Io::OutputChar)]);
    m.step();
    assert_eq!(m.step(), Effect::PrintChar(65)); // -191 + 256 = b'A'
}

#[test]
fn output_num_hands_out_the_value() {
    let mut m = program(vec![push(-42), Command::Io(Io::OutputNum)]);
    m.step();
    assert_eq!(m.step(), Effect::PrintNum(-42));
    assert_eq!(m.step(), Effect::Halted);
}

#[test]
fn read_char_stores_the_byte_at_the_popped_address() {
    let mut m = program(vec![push(7), Command::Io(Io::ReadChar)]);
    m.step();
    assert_eq!(m.step(), Effect::NeedChar);
    assert_eq!(m.status(), Status::AwaitingChar(7));
    m.provide_char(b'A');
    assert_eq!(m.status(), Status::Running);
    assert_eq!(m.heap_value(7), Some(65));
    assert_eq!(m.step(), Effect::Halted);
}

#[test]
fn read_num_stores_the_number_at_the_popped_address() {
    let mut m = program(vec![
        push(3),
        Command::Io(Io::ReadNum),
        push(3),
        Command::Heap(Heap::Retrieve),
    ]);
    m.step();
    assert_eq!(m.step(), Effect::NeedNum);
    assert_eq!(m.status(), Status::AwaitingNum(3));
    m.provide_num(-12345);
    m.step();
    m.step();
    assert_eq!(m.stack_values(), vec![-12345]);
}

#[test]
fn failed_input_is_a_fatal_io_error() {
    let mut m = program(vec![push(7), Command::Io(Io::ReadChar)]);
    m.step();
    assert_eq!(m.step(), Effect::NeedChar);
    let e = m.input_failed();
    assert_eq!(
        e,
        RunError {
            kind: ErrorKind::IoError,
            pos: 1,
        }
    );
    assert_eq!(m.status(), Status::Failed(e));
}

#[test]
fn read_on_empty_stack_underflows() {
    let mut m = program(vec![Command::Io(Io::ReadNum)]);
    assert_eq!(
        m.step(),
        Effect::Crashed(RunError {
            kind: ErrorKind::StackUnderflow,
            pos: 0,
        })
    );
}

#[test]
fn parsed_source_runs_push_push_add() {
    // push 3; push 4; add
    let ast = parse_program("   \t\t\n   \t  \n\t   ").unwrap();
    let mut m = Machine::new(ast).unwrap();
    for _ in 0..3 {
        assert_eq!(m.step(), Effect::Quiet);
    }
    assert_eq!(m.stack_values(), vec![7]);
}
