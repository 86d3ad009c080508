//! Unconditional and conditional jumps.

use vstd::prelude::*;

use crate::expr::{out_err, out_ok, EState, Instr, StepOut};
use crate::interpreter::{ControlFlow, StackItem, VmError};

verus! {

/// `JUMP 'label'`: always continue at the label's address.
pub struct Jump {
    pub label: String,
}

/// `JUMP_ZERO 'label'`: continue at the label's address when the stack top is
/// `Value(0)`; the top is inspected, never consumed.
pub struct JumpZero {
    pub label: String,
}

/// What `JUMP` does to the machine state.
pub open spec fn jump_apply(j: Jump, s: EState) -> StepOut {
    if s.funcs.contains_key(j.label@) {
        StepOut {
            instr: Instr::Jump(j),
            state: (EState { cf: ControlFlow::JumpTo(s.funcs[j.label@]), ..s }),
            err: None,
        }
    } else {
        out_err(Instr::Jump(j), s, VmError::UnknownLabel)
    }
}

/// What `JUMP_ZERO` does to the machine state.
pub open spec fn jump_zero_apply(j: JumpZero, s: EState) -> StepOut {
    if s.stack.len() > 0 && s.stack.last() == StackItem::Value(0) {
        if s.funcs.contains_key(j.label@) {
            StepOut {
                instr: Instr::JumpZero(j),
                state: (EState { cf: ControlFlow::JumpTo(s.funcs[j.label@]), ..s }),
                err: None,
            }
        } else {
            out_err(Instr::JumpZero(j), s, VmError::UnknownLabel)
        }
    } else {
        out_ok(Instr::JumpZero(j), s)
    }
}

} // verus!
