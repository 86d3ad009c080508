use brvm::bytecode::ByteCode;
use brvm::interpreter::{Interpreter, StackItem, VmError};

fn load(lines: &[&str]) -> ByteCode {
    let owned: Vec<String> = lines.iter().map(|s| s.to_string()).collect();
    ByteCode::from_lines(&owned).expect("program should load")
}

#[test]
fn arithmetic() {
    let bc = load(&["START", "LOAD_VAL 2", "LOAD_VAL 3", "ADD", "WRITE_VAR 'x'"]);
    let mut interpreter = Interpreter::new(bc);
    assert!(interpreter.run().is_ok());
    let main = interpreter.ended_thread(0).expect("main thread should have ended");
    assert_eq!(main.read_local("x"), Some(5));
}

#[test]
fn counted_loop_accumulator() {
    let bc = load(&[
        "START",
        "LOAD_VAL 0",
        "WRITE_VAR 'acc'",
        "LOAD_VAL 4",
        "LOOP",
        "READ_VAR 'acc'",
        "LOAD_VAL 1",
        "ADD",
        "WRITE_VAR 'acc'",
        "ENDLOOP",
    ]);
    let mut interpreter = Interpreter::new(bc);
    assert!(interpreter.run().is_ok());
    let main = interpreter.ended_thread(0).expect("main thread should have ended");
    assert_eq!(main.read_local("acc"), Some(4));
}

#[test]
fn call_with_return_value() {
    let bc = load(&[
        "START",
        "CALL 'square3'",
        "WRITE_VAR 'r'",
        "JUMP 'done'",
        "LABEL 'square3'",
        "LOAD_VAL 3",
        "LOAD_VAL 3",
        "MULTIPLY",
        "RETURN_VALUE",
        "LABEL 'done'",
    ]);
    let mut interpreter = Interpreter::new(bc);
    assert!(interpreter.run().is_ok());
    let main = interpreter.ended_thread(0).expect("main thread should have ended");
    assert_eq!(main.read_local("r"), Some(9));
}

#[test]
fn while_loop_countdown() {
    let bc = load(&[
        "START",
        "LOAD_VAL 3",
        "WRITE_VAR 'n'",
        "READ_VAR 'n'",
        "WHILE",
        "READ_VAR 'n'",
        "LOAD_VAL -1",
        "ADD",
        "WRITE_VAR 'n'",
        "READ_VAR 'n'",
        "ENDWHILE",
    ]);
    let mut interpreter = Interpreter::new(bc);
    assert!(interpreter.run().is_ok());
    let main = interpreter.ended_thread(0).expect("main thread should have ended");
    assert_eq!(main.read_local("n"), Some(0));
    assert_eq!(main.stack_top(), Some(StackItem::Value(0)));
}

#[test]
fn channel_rendezvous() {
    let bc = load(&[
        "START",
        "LOAD_ADDR 'producer'",
        "LOAD_ADDR 'consumer'",
        "SPAWN",
        "LABEL 'producer'",
        "LOAD_VAL 42",
        "LOAD_CHANNEL 1",
        "SEND_CHANNEL",
        "RETURN",
        "LABEL 'consumer'",
        "LOAD_CHANNEL 1",
        "RECV_CHANNEL",
        "WRITE_VAR 'got'",
        "RETURN",
    ]);
    let mut interpreter = Interpreter::new(bc);
    // The main thread falls through into the producer body after the spawn
    // and finally returns on an empty stack, which is a fault of this
    // program; both spawned threads finish their work before that.
    let outcome = interpreter.run();
    let consumer = match interpreter.ended_thread(1) {
        Some(t) => t,
        None => interpreter.live_thread(1).expect("consumer should exist"),
    };
    assert_eq!(consumer.read_local("got"), Some(42));
    assert_eq!(outcome, Err(VmError::StackUnderflow));
}

#[test]
fn jump_zero_does_not_consume() {
    let bc = load(&["START", "LOAD_VAL 0", "JUMP_ZERO 'target'", "LABEL 'target'"]);
    let mut interpreter = Interpreter::new(bc);
    assert!(interpreter.run().is_ok());
    let main = interpreter.ended_thread(0).expect("main thread should have ended");
    assert_eq!(main.stack_top(), Some(StackItem::Value(0)));
}

#[test]
fn empty_program_terminates_idle() {
    let lines: Vec<String> = Vec::new();
    let bc = ByteCode::from_lines(&lines).expect("empty program should load");
    let mut interpreter = Interpreter::new(bc);
    assert!(interpreter.run().is_ok());
    assert_eq!(interpreter.thread_count(), 0);
}
