//! Concurrency instructions: address and channel loads, channel send and
//! receive, and spawn.

use vstd::prelude::*;

use crate::expr::{item_channel, item_value, out_err, out_ok, EState, Instr, StepOut};
use crate::interpreter::{ControlFlow, StackItem, ValueType, VmError};
use crate::names::chan_name;

verus! {

/// `LOAD_ADDR 'label'`: push the label's address as an `Addr` item.
pub struct LoadAddr {
    pub label: String,
}

/// `LOAD_CHANNEL N`: push `Channel(N)`.
pub struct LoadChannel {
    pub channel: ValueType,
}

/// `SEND_CHANNEL`: pop a `Channel(c)` then a `Value(v)` and latch `v` into
/// the channel slot, overwriting any undelivered value.
pub struct SendChannel {}

/// `RECV_CHANNEL`: with a `Channel(c)` on top, read the channel slot without
/// clearing it; push the value, or block while the slot is empty, leaving
/// the operand in place for the retry.
pub struct RecvChannel {}

/// `SPAWN`: pop two `Addr` items and ask the scheduler for two new threads
/// starting there.
pub struct Spawn {}

/// What `LOAD_ADDR` does to the machine state.
pub open spec fn load_addr_apply(la: LoadAddr, s: EState) -> StepOut {
    if s.funcs.contains_key(la.label@) {
        StepOut {
            instr: Instr::LoadAddr(la),
            state: (EState { stack: s.stack.push(StackItem::Addr(s.funcs[la.label@])), ..s }),
            err: None,
        }
    } else {
        out_err(Instr::LoadAddr(la), s, VmError::UnknownLabel)
    }
}

/// What `LOAD_CHANNEL` does to the machine state.
pub open spec fn load_channel_apply(lc: LoadChannel, s: EState) -> StepOut {
    StepOut {
        instr: Instr::LoadChannel(lc),
        state: (EState { stack: s.stack.push(StackItem::Channel(lc.channel)), ..s }),
        err: None,
    }
}

/// What `SEND_CHANNEL` does to the machine state.
pub open spec fn send_channel_apply(s: EState) -> StepOut {
    let i = Instr::SendChannel(SendChannel {});
    if s.stack.len() == 0 {
        out_err(i, s, VmError::StackUnderflow)
    } else if !(s.stack.last() is Channel) {
        out_err(i, s, VmError::TagMismatch)
    } else if s.stack.len() == 1 {
        out_err(i, s, VmError::StackUnderflow)
    } else if !(s.stack[s.stack.len() - 2] is Value) {
        out_err(i, s, VmError::TagMismatch)
    } else {
        let c = item_channel(s.stack.last());
        let v = item_value(s.stack[s.stack.len() - 2]);
        StepOut {
            instr: i,
            state: (EState {
                stack: s.stack.take(s.stack.len() - 2),
                globals: s.globals.insert(chan_name(c as int), v),
                ..s
            }),
            err: None,
        }
    }
}

/// What `RECV_CHANNEL` does to the machine state.
pub open spec fn recv_channel_apply(s: EState) -> StepOut {
    let i = Instr::RecvChannel(RecvChannel {});
    if s.stack.len() == 0 {
        out_err(i, s, VmError::StackUnderflow)
    } else if !(s.stack.last() is Channel) {
        out_err(i, s, VmError::TagMismatch)
    } else {
        let c = item_channel(s.stack.last());
        if s.globals.contains_key(chan_name(c as int)) {
            StepOut {
                instr: i,
                state: (EState {
                    stack: s.stack.drop_last().push(
                        StackItem::Value(s.globals[chan_name(c as int)]),
                    ),
                    ..s
                }),
                err: None,
            }
        } else {
            StepOut { instr: i, state: (EState { cf: ControlFlow::Block, ..s }), err: None }
        }
    }
}

/// What `SPAWN` does to the machine state.
pub open spec fn spawn_apply(s: EState) -> StepOut {
    let i = Instr::Spawn(Spawn {});
    if s.stack.len() == 0 {
        out_err(i, s, VmError::StackUnderflow)
    } else if !(s.stack.last() is Addr) {
        out_err(i, s, VmError::TagMismatch)
    } else if s.stack.len() == 1 {
        out_err(i, s, VmError::StackUnderflow)
    } else if !(s.stack[s.stack.len() - 2] is Addr) {
        out_err(i, s, VmError::TagMismatch)
    } else {
        let f1 = crate::expr::item_addr(s.stack.last());
        let f2 = crate::expr::item_addr(s.stack[s.stack.len() - 2]);
        StepOut {
            instr: i,
            state: (EState { stack: s.stack.take(s.stack.len() - 2), cf: ControlFlow::Spawn(f1, f2), ..s }),
            err: None,
        }
    }
}

} // verus!
