use brvm::bytecode::{ByteCode, CodeContext};
use brvm::expr::Instr;
use brvm::interpreter::VmError;
use brvm::parse::ParseEngine;

fn load_err(lines: &[&str]) -> VmError {
    let owned: Vec<String> = lines.iter().map(|s| s.to_string()).collect();
    ByteCode::from_lines(&owned).err().expect("program should be rejected")
}

#[test]
fn unrecognized_lines() {
    assert_eq!(load_err(&[""]), VmError::UnrecognizedLine);
    assert_eq!(load_err(&["A B C"]), VmError::UnrecognizedLine);
    assert_eq!(load_err(&["LOAD_VAL x"]), VmError::UnrecognizedLine);
    assert_eq!(load_err(&["WRITE_VAR ''"]), VmError::UnrecognizedLine);
    assert_eq!(load_err(&["ADD "]), VmError::UnrecognizedLine);
    assert_eq!(load_err(&["LOAD_VAL -"]), VmError::UnrecognizedLine);
}

#[test]
fn unknown_keyword() {
    assert_eq!(load_err(&["NOP"]), VmError::UnknownKeyword);
    assert_eq!(load_err(&["JMP 'x'"]), VmError::UnknownKeyword);
}

#[test]
fn operand_shape_is_enforced() {
    assert_eq!(load_err(&["ADD 5"]), VmError::UnexpectedOperand);
    assert_eq!(load_err(&["WRITE_VAR 5"]), VmError::UnexpectedOperand);
    assert_eq!(load_err(&["LOAD_VAL 'x'"]), VmError::UnexpectedOperand);
    assert_eq!(load_err(&["LOAD_VAL"]), VmError::MissingOperand);
    assert_eq!(load_err(&["WRITE_VAR"]), VmError::MissingOperand);
}

#[test]
fn number_out_of_range() {
    assert_eq!(load_err(&["LOAD_VAL 9223372036854775808"]), VmError::NumberOutOfRange);
    assert_eq!(load_err(&["LOAD_VAL 99999999999999999999999999"]), VmError::NumberOutOfRange);
    assert_eq!(load_err(&["LOAD_VAL -9223372036854775809"]), VmError::NumberOutOfRange);
}

#[test]
fn duplicate_label() {
    assert_eq!(load_err(&["LABEL 'a'", "LABEL 'a'"]), VmError::DuplicateLabel);
}

#[test]
fn unbalanced_pairings() {
    assert_eq!(load_err(&["LOOP"]), VmError::UnbalancedLoop);
    assert_eq!(load_err(&["ENDLOOP"]), VmError::UnbalancedLoop);
    assert_eq!(load_err(&["WHILE"]), VmError::UnbalancedWhile);
    assert_eq!(load_err(&["ENDWHILE"]), VmError::UnbalancedWhile);
}

#[test]
fn labels_resolve_to_next_line() {
    let owned: Vec<String> =
        ["START", "JUMP 'done'", "LABEL 'done'"].iter().map(|s| s.to_string()).collect();
    let bc = ByteCode::from_lines(&owned).expect("program should load");
    assert_eq!(bc.get_labels().read("done"), Some(3));
    assert_eq!(bc.start_addr(), 0);
    assert_eq!(bc.end_addr(), 3);
    assert!(bc.get_line(0).is_some());
    assert!(bc.get_line(3).is_none());
}

#[test]
fn parse_decodes_operands() {
    let engine = ParseEngine::default();
    let mut ctx = CodeContext::default();
    ctx.set_line(0);
    match engine.parse("LOAD_VAL 5", &mut ctx) {
        Ok(Instr::LoadVal(lv)) => assert_eq!(lv.literal, 5),
        _ => panic!("LOAD_VAL 5 should parse"),
    }
    match engine.parse("LOAD_VAL -9223372036854775808", &mut ctx) {
        Ok(Instr::LoadVal(lv)) => assert_eq!(lv.literal, i64::MIN),
        _ => panic!("the smallest value should parse"),
    }
    match engine.parse("WRITE_VAR 'long name'", &mut ctx) {
        Err(e) => assert_eq!(e, VmError::UnrecognizedLine),
        _ => panic!("a name may not contain whitespace"),
    }
    match engine.parse("CALL 'f'", &mut ctx) {
        Ok(Instr::Call(c)) => {
            assert_eq!(c.func_name, "f");
            assert_eq!(c.return_line, 1);
        },
        _ => panic!("CALL 'f' should parse"),
    }
}
