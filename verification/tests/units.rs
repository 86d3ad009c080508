use brvm::bytecode::ByteCode;
use brvm::interpreter::{Interpreter, Stack, StackItem, VariableTable, VmError};
use brvm::names::{chan_name_string, dec_string_i64, dec_string_u64, ind_name_string};

fn run_program(lines: &[&str]) -> (Result<(), VmError>, Interpreter) {
    let owned: Vec<String> = lines.iter().map(|s| s.to_string()).collect();
    let bc = ByteCode::from_lines(&owned).expect("program should load");
    let mut interpreter = Interpreter::new(bc);
    let outcome = interpreter.run();
    (outcome, interpreter)
}

#[test]
fn stack_is_last_in_first_out() {
    let mut s: Stack<i64> = Stack::new();
    assert_eq!(s.top(), None);
    assert_eq!(s.pop(), None);
    s.push(1);
    s.push(2);
    assert_eq!(s.len(), 2);
    assert_eq!(s.top(), Some(2));
    assert_eq!(s.pop(), Some(2));
    assert_eq!(s.pop(), Some(1));
    assert_eq!(s.pop(), None);
}

#[test]
fn variable_table_upserts_and_removes() {
    let mut t: VariableTable<i64> = VariableTable::new();
    assert_eq!(t.read("a"), None);
    t.write("a", 1);
    t.write("b", 2);
    t.write("a", 3);
    assert_eq!(t.read("a"), Some(3));
    assert_eq!(t.read("b"), Some(2));
    let copy = t.duplicate();
    t.remove("a");
    assert_eq!(t.read("a"), None);
    assert_eq!(copy.read("a"), Some(3));
    t.write_unique("c", 4);
    assert_eq!(t.read("c"), Some(4));
}

#[test]
fn stack_item_payloads() {
    assert_eq!(StackItem::Value(-7).value(), -7);
    assert_eq!(StackItem::Addr(3).addr(), 3);
    assert_eq!(StackItem::ReturnAddr(9).return_addr(), 9);
    assert_eq!(StackItem::Channel(2).channel(), 2);
}

#[test]
fn reserved_name_spelling() {
    assert_eq!(dec_string_u64(0), "0");
    assert_eq!(dec_string_u64(1234567890), "1234567890");
    assert_eq!(dec_string_i64(-42), "-42");
    assert_eq!(dec_string_i64(i64::MIN), "-9223372036854775808");
    assert_eq!(ind_name_string(7), "_' i7");
    assert_eq!(chan_name_string(-3), "_' ch-3");
    assert_eq!(chan_name_string(1), "_' ch1");
}

#[test]
fn addition_wraps() {
    let (outcome, interpreter) =
        run_program(&["START", "LOAD_VAL 9223372036854775807", "LOAD_VAL 1", "ADD"]);
    assert!(outcome.is_ok());
    let main = interpreter.ended_thread(0).expect("main thread should have ended");
    assert_eq!(main.stack_top(), Some(StackItem::Value(i64::MIN)));
}

#[test]
fn addition_is_commutative_over_operand_order() {
    let (_, a) = run_program(&["START", "LOAD_VAL 2", "LOAD_VAL 3", "ADD", "WRITE_VAR 'x'"]);
    let (_, b) = run_program(&["START", "LOAD_VAL 3", "LOAD_VAL 2", "ADD", "WRITE_VAR 'x'"]);
    let xa = a.ended_thread(0).unwrap().read_local("x");
    let xb = b.ended_thread(0).unwrap().read_local("x");
    assert_eq!(xa, xb);
    assert_eq!(xa, Some(5));
    let (_, c) = run_program(&["START", "LOAD_VAL -4", "LOAD_VAL 6", "MULTIPLY", "WRITE_VAR 'x'"]);
    let (_, d) = run_program(&["START", "LOAD_VAL 6", "LOAD_VAL -4", "MULTIPLY", "WRITE_VAR 'x'"]);
    assert_eq!(c.ended_thread(0).unwrap().read_local("x"), Some(-24));
    assert_eq!(d.ended_thread(0).unwrap().read_local("x"), Some(-24));
}

#[test]
fn write_then_read_round_trips() {
    let (outcome, interpreter) =
        run_program(&["START", "LOAD_VAL -12345", "WRITE_VAR 'x'", "READ_VAR 'x'"]);
    assert!(outcome.is_ok());
    let main = interpreter.ended_thread(0).expect("main thread should have ended");
    assert_eq!(main.stack_top(), Some(StackItem::Value(-12345)));
    assert_eq!(main.read_local("x"), Some(-12345));
}

#[test]
fn return_restores_caller_stack_depth() {
    let (outcome, interpreter) = run_program(&[
        "START",
        "LOAD_VAL 7",
        "CALL 'f'",
        "WRITE_VAR 'x'",
        "JUMP 'd'",
        "LABEL 'f'",
        "LOAD_VAL 1",
        "LOAD_VAL 2",
        "RETURN",
        "LABEL 'd'",
    ]);
    assert!(outcome.is_ok());
    let main = interpreter.ended_thread(0).expect("main thread should have ended");
    // the callee residue is discarded; the value below the call survives
    assert_eq!(main.read_local("x"), Some(7));
    assert_eq!(main.stack_top(), None);
}

#[test]
fn counted_loop_with_zero_bound_runs_body_once() {
    // the first entry always advances into the body; the bound is only
    // checked when control returns to the LOOP line
    let (outcome, interpreter) = run_program(&[
        "START",
        "LOAD_VAL 0",
        "WRITE_VAR 'acc'",
        "LOAD_VAL 0",
        "LOOP",
        "READ_VAR 'acc'",
        "LOAD_VAL 1",
        "ADD",
        "WRITE_VAR 'acc'",
        "ENDLOOP",
    ]);
    assert!(outcome.is_ok());
    let main = interpreter.ended_thread(0).expect("main thread should have ended");
    assert_eq!(main.read_local("acc"), Some(1));
}

#[test]
fn nested_counted_loops_pair_properly() {
    let (outcome, interpreter) = run_program(&[
        "START",
        "LOAD_VAL 0",
        "WRITE_VAR 'acc'",
        "LOAD_VAL 2",
        "LOOP",
        "LOAD_VAL 3",
        "LOOP",
        "READ_VAR 'acc'",
        "LOAD_VAL 1",
        "ADD",
        "WRITE_VAR 'acc'",
        "ENDLOOP",
        "ENDLOOP",
    ]);
    assert!(outcome.is_ok());
    let main = interpreter.ended_thread(0).expect("main thread should have ended");
    assert_eq!(main.read_local("acc"), Some(6));
}

#[test]
fn multiplication_wraps() {
    let (outcome, interpreter) = run_program(&[
        "START",
        "LOAD_VAL -9223372036854775808",
        "LOAD_VAL -1",
        "MULTIPLY",
    ]);
    assert!(outcome.is_ok());
    let main = interpreter.ended_thread(0).expect("main thread should have ended");
    assert_eq!(main.stack_top(), Some(StackItem::Value(i64::MIN)));
}

#[test]
fn runtime_faults() {
    assert_eq!(run_program(&["START", "ADD"]).0, Err(VmError::StackUnderflow));
    assert_eq!(
        run_program(&["START", "LOAD_CHANNEL 1", "WRITE_VAR 'x'"]).0,
        Err(VmError::TagMismatch),
    );
    assert_eq!(run_program(&["START", "JUMP 'nowhere'"]).0, Err(VmError::UnknownLabel));
    assert_eq!(run_program(&["START", "READ_VAR 'x'"]).0, Err(VmError::UnknownVariable));
    assert_eq!(run_program(&["START", "RETURN"]).0, Err(VmError::StackUnderflow));
}

#[test]
fn step_budget_stops_runaway_programs() {
    let (outcome, interpreter) = run_program(&["START", "LOAD_VAL 1", "WHILE", "ENDWHILE"]);
    assert!(outcome.is_ok());
    assert_eq!(interpreter.thread_count(), 1);
}
