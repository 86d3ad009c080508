//! The instruction set.
//!
//! Every opcode is a record holding its decoded operands plus any slot the
//! load's second pass resolves.  The tagged `Instr` variant dispatches
//! uniformly: one step mutates the thread's stack, its locals, the shared
//! channel table and, for a few opcodes, the instruction's own slots, and
//! hands the scheduler a control-flow directive.
//!
//! The whole step is specified by [`instr_apply`], a function from an
//! instruction and a machine state to the next state; `eval` refines it.

use vstd::prelude::*;

use crate::interpreter::{
    AddrType, ControlFlow, Stack, StackItem, ValueType, VariableTable, VmError,
};

pub mod flow;
pub mod loops;
pub mod thread;

use flow::{jump_apply, jump_zero_apply, Jump, JumpZero};
use loops::{end_loop_apply, end_while_apply, loop_apply, while_apply, EndLoop, EndWhile, Loop,
    While};
use thread::{load_addr_apply, load_channel_apply, recv_channel_apply, send_channel_apply,
    spawn_apply, LoadAddr, LoadChannel, RecvChannel, SendChannel, Spawn};

verus! {

/// A no-op placeholder instruction.
pub struct Noop {}

/// `START`: marks the program entry; executing it does nothing.
pub struct Start {}

/// `LABEL 'name'`: binds the name at load time; executing it does nothing.
pub struct Label {}

/// `LOAD_VAL N`: push `Value(N)`.
pub struct LoadVal {
    pub literal: ValueType,
}

/// `WRITE_VAR 'name'`: pop a `Value` and store it in the thread's locals.
pub struct WriteVar {
    pub var_name: String,
}

/// `READ_VAR 'name'`: push the local's value.
pub struct ReadVar {
    pub var_name: String,
}

/// `ADD`: pop two `Value`s and push their wrapping sum.
pub struct Add {}

/// `MULTIPLY`: pop two `Value`s and push their wrapping product.
pub struct Multiply {}

/// `CALL 'name'`: push `ReturnAddr(line + 1)` and jump to the label.
pub struct Call {
    pub func_name: String,
    pub return_line: AddrType,
}

/// `RETURN`: discard items down to the topmost `ReturnAddr` and jump there.
pub struct Return {}

/// `RETURN_VALUE`: pop the result, discard items down to the topmost
/// `ReturnAddr`, push the result back and jump there.
pub struct ReturnValue {}

/// One instruction of the loaded program.
pub enum Instr {
    Noop(Noop),
    Start(Start),
    Label(Label),
    LoadVal(LoadVal),
    WriteVar(WriteVar),
    ReadVar(ReadVar),
    Add(Add),
    Multiply(Multiply),
    Call(Call),
    Return(Return),
    ReturnValue(ReturnValue),
    Jump(Jump),
    JumpZero(JumpZero),
    Loop(Loop),
    EndLoop(EndLoop),
    While(While),
    EndWhile(EndWhile),
    LoadAddr(LoadAddr),
    LoadChannel(LoadChannel),
    SendChannel(SendChannel),
    RecvChannel(RecvChannel),
    Spawn(Spawn),
}

/// The state an instruction acts on: the shared channel table, the thread's
/// operand stack and locals, the label table, and the directive slot.
pub ghost struct EState {
    pub globals: Map<Seq<char>, ValueType>,
    pub stack: Seq<StackItem>,
    pub vars: Map<Seq<char>, ValueType>,
    pub funcs: Map<Seq<char>, AddrType>,
    pub cf: ControlFlow,
}

/// One instruction step: the (possibly updated) instruction, the next
/// machine state, and the fault, if any.  A faulting step leaves the state
/// untouched.
pub ghost struct StepOut {
    pub instr: Instr,
    pub state: EState,
    pub err: Option<VmError>,
}

/// A step that succeeds and leaves the instruction itself unchanged.
pub open spec fn out_ok(i: Instr, s: EState) -> StepOut {
    StepOut { instr: i, state: s, err: None }
}

/// A step that faults; the state is left as it was.
pub open spec fn out_err(i: Instr, s: EState, e: VmError) -> StepOut {
    StepOut { instr: i, state: s, err: Some(e) }
}

/// The payload of a `Value` item.
pub open spec fn item_value(it: StackItem) -> ValueType {
    match it {
        StackItem::Value(v) => v,
        _ => vstd::pervasive::arbitrary(),
    }
}

/// The payload of an `Addr` item.
pub open spec fn item_addr(it: StackItem) -> AddrType {
    match it {
        StackItem::Addr(a) => a,
        _ => vstd::pervasive::arbitrary(),
    }
}

/// The payload of a `ReturnAddr` item.
pub open spec fn item_return_addr(it: StackItem) -> AddrType {
    match it {
        StackItem::ReturnAddr(a) => a,
        _ => vstd::pervasive::arbitrary(),
    }
}

/// The payload of a `Channel` item.
pub open spec fn item_channel(it: StackItem) -> ValueType {
    match it {
        StackItem::Channel(c) => c,
        _ => vstd::pervasive::arbitrary(),
    }
}

/// Whether some item of `s` is a `ReturnAddr`.
pub open spec fn has_return_addr(s: Seq<StackItem>) -> bool {
    exists|i: int| 0 <= i < s.len() && s[i] is ReturnAddr
}

/// The index of the topmost `ReturnAddr` of `s`.
pub open spec fn top_return_index(s: Seq<StackItem>) -> int
    recommends
        has_return_addr(s),
    decreases s.len(),
{
    if s.len() == 0 {
        0
    } else if s.last() is ReturnAddr {
        s.len() - 1
    } else {
        top_return_index(s.drop_last())
    }
}

/// The topmost `ReturnAddr` really is at `k` when nothing above `k` is one.
pub proof fn lemma_top_return_index(s: Seq<StackItem>, k: int)
    requires
        0 <= k < s.len(),
        s[k] is ReturnAddr,
        forall|j: int| k < j < s.len() ==> !(s[j] is ReturnAddr),
    ensures
        has_return_addr(s),
        top_return_index(s) == k,
    decreases s.len(),
{
    assert(s[k] is ReturnAddr);
    if k == s.len() - 1 {
    } else {
        assert(s.drop_last()[k] == s[k]);
        lemma_top_return_index(s.drop_last(), k);
    }
}

/// What `LOAD_VAL` does to the machine state.
pub open spec fn load_val_apply(lv: LoadVal, s: EState) -> StepOut {
    StepOut {
        instr: Instr::LoadVal(lv),
        state: (EState { stack: s.stack.push(StackItem::Value(lv.literal)), ..s }),
        err: None,
    }
}

/// What `WRITE_VAR` does to the machine state.
pub open spec fn write_var_apply(w: WriteVar, s: EState) -> StepOut {
    if s.stack.len() == 0 {
        out_err(Instr::WriteVar(w), s, VmError::StackUnderflow)
    } else if !(s.stack.last() is Value) {
        out_err(Instr::WriteVar(w), s, VmError::TagMismatch)
    } else {
        StepOut {
            instr: Instr::WriteVar(w),
            state: (EState {
                stack: s.stack.drop_last(),
                vars: s.vars.insert(w.var_name@, item_value(s.stack.last())),
                ..s
            }),
            err: None,
        }
    }
}

/// What `READ_VAR` does to the machine state.
pub open spec fn read_var_apply(rv: ReadVar, s: EState) -> StepOut {
    if s.vars.contains_key(rv.var_name@) {
        StepOut {
            instr: Instr::ReadVar(rv),
            state: (EState { stack: s.stack.push(StackItem::Value(s.vars[rv.var_name@])), ..s }),
            err: None,
        }
    } else {
        out_err(Instr::ReadVar(rv), s, VmError::UnknownVariable)
    }
}

/// What `ADD` does to the machine state.
pub open spec fn add_apply(s: EState) -> StepOut {
    let i = Instr::Add(Add {});
    if s.stack.len() < 2 {
        out_err(i, s, VmError::StackUnderflow)
    } else if !(s.stack.last() is Value) || !(s.stack[s.stack.len() - 2] is Value) {
        out_err(i, s, VmError::TagMismatch)
    } else {
        let v1 = item_value(s.stack.last());
        let v2 = item_value(s.stack[s.stack.len() - 2]);
        StepOut {
            instr: i,
            state: (EState {
                stack: s.stack.take(s.stack.len() - 2).push(StackItem::Value(v1.wrapping_add(v2))),
                ..s
            }),
            err: None,
        }
    }
}

/// What `MULTIPLY` does to the machine state.
pub open spec fn multiply_apply(s: EState) -> StepOut {
    let i = Instr::Multiply(Multiply {});
    if s.stack.len() < 2 {
        out_err(i, s, VmError::StackUnderflow)
    } else if !(s.stack.last() is Value) || !(s.stack[s.stack.len() - 2] is Value) {
        out_err(i, s, VmError::TagMismatch)
    } else {
        let v1 = item_value(s.stack.last());
        let v2 = item_value(s.stack[s.stack.len() - 2]);
        StepOut {
            instr: i,
            state: (EState {
                stack: s.stack.take(s.stack.len() - 2).push(StackItem::Value(v1.wrapping_mul(v2))),
                ..s
            }),
            err: None,
        }
    }
}

/// What `CALL` does to the machine state.
pub open spec fn call_apply(c: Call, s: EState) -> StepOut {
    if s.funcs.contains_key(c.func_name@) {
        StepOut {
            instr: Instr::Call(c),
            state: (EState {
                stack: s.stack.push(StackItem::ReturnAddr(c.return_line)),
                cf: ControlFlow::JumpTo(s.funcs[c.func_name@]),
                ..s
            }),
            err: None,
        }
    } else {
        out_err(Instr::Call(c), s, VmError::UnknownLabel)
    }
}

/// What `RETURN` does to the machine state.
pub open spec fn return_apply(s: EState) -> StepOut {
    let i = Instr::Return(Return {});
    if !has_return_addr(s.stack) {
        out_err(i, s, VmError::StackUnderflow)
    } else {
        let k = top_return_index(s.stack);
        StepOut {
            instr: i,
            state: (EState {
                stack: s.stack.take(k),
                cf: ControlFlow::JumpTo(item_return_addr(s.stack[k])),
                ..s
            }),
            err: None,
        }
    }
}

/// What `RETURN_VALUE` does to the machine state.
pub open spec fn return_value_apply(s: EState) -> StepOut {
    let i = Instr::ReturnValue(ReturnValue {});
    if s.stack.len() == 0 {
        out_err(i, s, VmError::StackUnderflow)
    } else {
        let v = s.stack.last();
        let rest = s.stack.drop_last();
        if !has_return_addr(rest) {
            out_err(i, s, VmError::StackUnderflow)
        } else {
            let k = top_return_index(rest);
            StepOut {
                instr: i,
                state: (EState {
                    stack: rest.take(k).push(v),
                    cf: ControlFlow::JumpTo(item_return_addr(rest[k])),
                    ..s
                }),
                err: None,
            }
        }
    }
}

/// One dispatch step: what executing `i` in state `s` yields.
pub open spec fn instr_apply(i: Instr, s: EState) -> StepOut {
    match i {
        Instr::Noop(_) => out_ok(i, s),
        Instr::Start(_) => out_ok(i, s),
        Instr::Label(_) => out_ok(i, s),
        Instr::LoadVal(lv) => load_val_apply(lv, s),
        Instr::WriteVar(w) => write_var_apply(w, s),
        Instr::ReadVar(rv) => read_var_apply(rv, s),
        Instr::Add(_) => add_apply(s),
        Instr::Multiply(_) => multiply_apply(s),
        Instr::Call(c) => call_apply(c, s),
        Instr::Return(_) => return_apply(s),
        Instr::ReturnValue(_) => return_value_apply(s),
        Instr::Jump(j) => jump_apply(j, s),
        Instr::JumpZero(j) => jump_zero_apply(j, s),
        Instr::Loop(l) => loop_apply(l, s),
        Instr::EndLoop(el) => end_loop_apply(el, s),
        Instr::While(w) => while_apply(w, s),
        Instr::EndWhile(ew) => end_while_apply(ew, s),
        Instr::LoadAddr(la) => load_addr_apply(la, s),
        Instr::LoadChannel(lc) => load_channel_apply(lc, s),
        Instr::SendChannel(_) => send_channel_apply(s),
        Instr::RecvChannel(_) => recv_channel_apply(s),
        Instr::Spawn(_) => spawn_apply(s),
    }
}


/// The mathematical content of an instruction: operands as plain values,
/// names as character sequences.
pub ghost enum InstrV {
    Noop,
    Start,
    Label,
    LoadVal(ValueType),
    WriteVar(Seq<char>),
    ReadVar(Seq<char>),
    Add,
    Multiply,
    Call(Seq<char>, AddrType),
    Return,
    ReturnValue,
    Jump(Seq<char>),
    JumpZero(Seq<char>),
    Loop {
        line: AddrType,
        loop_var: Option<Seq<char>>,
        count: Option<ValueType>,
        endloop: Option<AddrType>,
    },
    EndLoop { line: AddrType, loop_var: Option<Seq<char>>, loopstart: Option<AddrType> },
    While { line: AddrType, endwhile: Option<AddrType> },
    EndWhile { line: AddrType, whilestart: Option<AddrType> },
    LoadAddr(Seq<char>),
    LoadChannel(ValueType),
    SendChannel,
    RecvChannel,
    Spawn,
}

/// The view of an optional name.
pub open spec fn opt_name_view(o: Option<String>) -> Option<Seq<char>> {
    match o {
        Some(s) => Some(s@),
        None => None,
    }
}

impl View for Instr {
    type V = InstrV;

    open spec fn view(&self) -> InstrV {
        match self {
            Instr::Noop(_) => InstrV::Noop,
            Instr::Start(_) => InstrV::Start,
            Instr::Label(_) => InstrV::Label,
            Instr::LoadVal(i) => InstrV::LoadVal(i.literal),
            Instr::WriteVar(i) => InstrV::WriteVar(i.var_name@),
            Instr::ReadVar(i) => InstrV::ReadVar(i.var_name@),
            Instr::Add(_) => InstrV::Add,
            Instr::Multiply(_) => InstrV::Multiply,
            Instr::Call(i) => InstrV::Call(i.func_name@, i.return_line),
            Instr::Return(_) => InstrV::Return,
            Instr::ReturnValue(_) => InstrV::ReturnValue,
            Instr::Jump(i) => InstrV::Jump(i.label@),
            Instr::JumpZero(i) => InstrV::JumpZero(i.label@),
            Instr::Loop(i) => InstrV::Loop {
                line: i.line,
                loop_var: opt_name_view(i.loop_var),
                count: i.count,
                endloop: i.endloop,
            },
            Instr::EndLoop(i) => InstrV::EndLoop {
                line: i.line,
                loop_var: opt_name_view(i.loop_var),
                loopstart: i.loopstart,
            },
            Instr::While(i) => InstrV::While { line: i.line, endwhile: i.endwhile },
            Instr::EndWhile(i) => InstrV::EndWhile { line: i.line, whilestart: i.whilestart },
            Instr::LoadAddr(i) => InstrV::LoadAddr(i.label@),
            Instr::LoadChannel(i) => InstrV::LoadChannel(i.channel),
            Instr::SendChannel(_) => InstrV::SendChannel,
            Instr::RecvChannel(_) => InstrV::RecvChannel,
            Instr::Spawn(_) => InstrV::Spawn,
        }
    }
}

/// What the load's second pass makes of one instruction: the four paired
/// opcodes look up their first matching pair and fill their slots; every
/// other opcode is untouched.
pub open spec fn init_instr(
    i: InstrV,
    loops: Seq<(AddrType, AddrType)>,
    whiles: Seq<(AddrType, AddrType)>,
) -> InstrV {
    match i {
        InstrV::Loop { line, loop_var, count, endloop } => {
            match loops::find_pair_by_begin(loops, line) {
                Some(p) => InstrV::Loop {
                    line,
                    loop_var: Some(crate::names::ind_name(line as int)),
                    count,
                    endloop: Some(p.1),
                },
                None => i,
            }
        },
        InstrV::EndLoop { line, loop_var, loopstart } => {
            match loops::find_pair_by_end(loops, line) {
                Some(p) => InstrV::EndLoop {
                    line,
                    loop_var: Some(crate::names::ind_name(p.0 as int)),
                    loopstart: Some(p.0),
                },
                None => i,
            }
        },
        InstrV::While { line, endwhile } => {
            match loops::find_pair_by_begin(whiles, line) {
                Some(p) => InstrV::While { line, endwhile: Some(p.1) },
                None => i,
            }
        },
        InstrV::EndWhile { line, whilestart } => {
            match loops::find_pair_by_end(whiles, line) {
                Some(p) => InstrV::EndWhile { line, whilestart: Some(p.0) },
                None => i,
            }
        },
        _ => i,
    }
}

/// No instruction alters the label table.
pub proof fn lemma_apply_preserves_funcs(i: Instr, s: EState)
    ensures
        instr_apply(i, s).state.funcs == s.funcs,
{
}

impl Instr {

    /// The load's second pass: resolve this instruction's paired addresses
    /// and induction-variable name from the finalized context, exactly as
    /// [`init_instr`] describes.
    pub fn init(&mut self, context: &crate::bytecode::CodeContext)
        ensures
            final(self)@ == init_instr(old(self)@, context@.loops, context@.whiles),
    {
        match self {
            Instr::Loop(l) => l.init(context),
            Instr::EndLoop(el) => el.init(context),
            Instr::While(w) => w.init(context),
            Instr::EndWhile(ew) => ew.init(context),
            _ => (),
        }
    }

    /// Execute one step of this instruction, exactly as [`instr_apply`]
    /// describes it.
    #[verifier::loop_isolation(false)]
    pub fn eval(
        &mut self,
        thread_global: &mut VariableTable<ValueType>,
        stack: &mut Stack<StackItem>,
        var_table: &mut VariableTable<ValueType>,
        func_table: &mut VariableTable<AddrType>,
        control_flow: &mut ControlFlow,
    ) -> (r: Result<(), VmError>)
        requires
            old(thread_global).wf(),
            old(var_table).wf(),
            old(func_table).wf(),
        ensures
            final(thread_global).wf(),
            final(var_table).wf(),
            final(func_table).wf(),
            ({
                let out = instr_apply(
                    *old(self),
                    EState {
                        globals: old(thread_global)@,
                        stack: old(stack)@,
                        vars: old(var_table)@,
                        funcs: old(func_table)@,
                        cf: *old(control_flow),
                    },
                );
                &&& *final(self) == out.instr
                &&& final(thread_global)@ == out.state.globals
                &&& final(stack)@ == out.state.stack
                &&& final(var_table)@ == out.state.vars
                &&& final(func_table)@ == out.state.funcs
                &&& *final(control_flow) == out.state.cf
                &&& r == (match out.err {
                    Option::None => Result::<(), VmError>::Ok(()),
                    Option::Some(e) => Result::<(), VmError>::Err(e),
                })
            }),
    {
        match self {
            Instr::Return(_) | Instr::ReturnValue(_) => self.eval_return(
                thread_global,
                stack,
                var_table,
                func_table,
                control_flow,
            ),
            Instr::Noop(_) | Instr::Start(_) | Instr::Label(_) | Instr::LoadVal(_)
            | Instr::WriteVar(_) | Instr::ReadVar(_) | Instr::Add(_) | Instr::Multiply(_)
            | Instr::Call(_) => self.eval_data(
                thread_global,
                stack,
                var_table,
                func_table,
                control_flow,
            ),
            Instr::Jump(_) | Instr::JumpZero(_) | Instr::Loop(_) | Instr::EndLoop(_) | Instr::While(_)
            | Instr::EndWhile(_) | Instr::LoadAddr(_) | Instr::LoadChannel(_)
            | Instr::SendChannel(_) | Instr::RecvChannel(_) | Instr::Spawn(_) => self.eval_control(
                thread_global,
                stack,
                var_table,
                func_table,
                control_flow,
            ),
        }
    }


    /// The data, arithmetic and call half of [`Instr::eval`].
    #[verifier::loop_isolation(false)]
    fn eval_data(
        &mut self,
        thread_global: &mut VariableTable<ValueType>,
        stack: &mut Stack<StackItem>,
        var_table: &mut VariableTable<ValueType>,
        func_table: &mut VariableTable<AddrType>,
        control_flow: &mut ControlFlow,
    ) -> (r: Result<(), VmError>)
        requires
            old(thread_global).wf(),
            old(var_table).wf(),
            old(func_table).wf(),
            (*old(self) is Noop) || (*old(self) is Start) || (*old(self) is Label) || (*old(
                self,
            ) is LoadVal) || (*old(self) is WriteVar) || (*old(self) is ReadVar) || (*old(
                self,
            ) is Add) || (*old(self) is Multiply) || (*old(self) is Call),
        ensures
            final(thread_global).wf(),
            final(var_table).wf(),
            final(func_table).wf(),
            ({
                let out = instr_apply(
                    *old(self),
                    EState {
                        globals: old(thread_global)@,
                        stack: old(stack)@,
                        vars: old(var_table)@,
                        funcs: old(func_table)@,
                        cf: *old(control_flow),
                    },
                );
                &&& *final(self) == out.instr
                &&& final(thread_global)@ == out.state.globals
                &&& final(stack)@ == out.state.stack
                &&& final(var_table)@ == out.state.vars
                &&& final(func_table)@ == out.state.funcs
                &&& *final(control_flow) == out.state.cf
                &&& r == (match out.err {
                    Option::None => Result::<(), VmError>::Ok(()),
                    Option::Some(e) => Result::<(), VmError>::Err(e),
                })
            }),
    {
        match self {
            Instr::Noop(_) => Ok(()),
            Instr::Start(_) => Ok(()),
            Instr::Label(_) => Ok(()),
            Instr::LoadVal(lv) => {
                let v = lv.literal;
                stack.push(StackItem::Value(v));
                Ok(())
            },
            Instr::WriteVar(w) => {
                let n = stack.len();
                if n == 0 {
                    return Err(VmError::StackUnderflow);
                }
                let top = stack.peek(n - 1);
                match top {
                    StackItem::Value(v) => {
                        stack.pop();
                        var_table.write(w.var_name.as_str(), v);
                        Ok(())
                    },
                    _ => Err(VmError::TagMismatch),
                }
            },
            Instr::ReadVar(rv) => {
                match var_table.read(rv.var_name.as_str()) {
                    Some(v) => {
                        stack.push(StackItem::Value(v));
                        Ok(())
                    },
                    None => Err(VmError::UnknownVariable),
                }
            },
            Instr::Add(_) => {
                let n = stack.len();
                if n < 2 {
                    return Err(VmError::StackUnderflow);
                }
                let t1 = stack.peek(n - 1);
                let t2 = stack.peek(n - 2);
                match (t1, t2) {
                    (StackItem::Value(v1), StackItem::Value(v2)) => {
                        stack.pop();
                        stack.pop();
                        stack.push(StackItem::Value(v1.wrapping_add(v2)));
                        proof {
                            assert(stack@ =~= old(stack)@.take(n - 2).push(
                                StackItem::Value(v1.wrapping_add(v2)),
                            ));
                        }
                        Ok(())
                    },
                    _ => Err(VmError::TagMismatch),
                }
            },
            Instr::Multiply(_) => {
                let n = stack.len();
                if n < 2 {
                    return Err(VmError::StackUnderflow);
                }
                let t1 = stack.peek(n - 1);
                let t2 = stack.peek(n - 2);
                match (t1, t2) {
                    (StackItem::Value(v1), StackItem::Value(v2)) => {
                        stack.pop();
                        stack.pop();
                        stack.push(StackItem::Value(v1.wrapping_mul(v2)));
                        proof {
                            assert(stack@ =~= old(stack)@.take(n - 2).push(
                                StackItem::Value(v1.wrapping_mul(v2)),
                            ));
                        }
                        Ok(())
                    },
                    _ => Err(VmError::TagMismatch),
                }
            },
            Instr::Call(c) => {
                match func_table.read(c.func_name.as_str()) {
                    Some(addr) => {
                        stack.push(StackItem::ReturnAddr(c.return_line));
                        *control_flow = ControlFlow::JumpTo(addr);
                        Ok(())
                    },
                    None => Err(VmError::UnknownLabel),
                }
            },
            _ => vstd::pervasive::unreached(),
        }
    }


    /// The `RETURN` and `RETURN_VALUE` half of [`Instr::eval`].
    #[verifier::loop_isolation(false)]
    fn eval_return(
        &mut self,
        thread_global: &mut VariableTable<ValueType>,
        stack: &mut Stack<StackItem>,
        var_table: &mut VariableTable<ValueType>,
        func_table: &mut VariableTable<AddrType>,
        control_flow: &mut ControlFlow,
    ) -> (r: Result<(), VmError>)
        requires
            old(thread_global).wf(),
            old(var_table).wf(),
            old(func_table).wf(),
            (*old(self) is Return) || (*old(self) is ReturnValue),
        ensures
            final(thread_global).wf(),
            final(var_table).wf(),
            final(func_table).wf(),
            ({
                let out = instr_apply(
                    *old(self),
                    EState {
                        globals: old(thread_global)@,
                        stack: old(stack)@,
                        vars: old(var_table)@,
                        funcs: old(func_table)@,
                        cf: *old(control_flow),
                    },
                );
                &&& *final(self) == out.instr
                &&& final(thread_global)@ == out.state.globals
                &&& final(stack)@ == out.state.stack
                &&& final(var_table)@ == out.state.vars
                &&& final(func_table)@ == out.state.funcs
                &&& *final(control_flow) == out.state.cf
                &&& r == (match out.err {
                    Option::None => Result::<(), VmError>::Ok(()),
                    Option::Some(e) => Result::<(), VmError>::Err(e),
                })
            }),
    {
        match self {
            Instr::Return(_) => {
                let mut i = stack.len();
                while i > 0
                    invariant
                        i <= stack@.len(),
                        *stack == *old(stack),
                        *control_flow == *old(control_flow),
                        forall|j: int| i <= j < stack@.len() ==> !(stack@[j] is ReturnAddr),
                    decreases i,
                {
                    i = i - 1;
                    let it = stack.peek(i);
                    if let StackItem::ReturnAddr(a) = it {
                        proof {
                            lemma_top_return_index(stack@, i as int);
                        }
                        stack.truncate(i);
                        *control_flow = ControlFlow::JumpTo(a);
                        return Ok(());
                    }
                }
                proof {
                    if has_return_addr(stack@) {
                        let w = choose|j: int| 0 <= j < stack@.len() && stack@[j] is ReturnAddr;
                        assert(false);
                    }
                }
                Err(VmError::StackUnderflow)
            },
            Instr::ReturnValue(_) => {
                let n = stack.len();
                if n == 0 {
                    return Err(VmError::StackUnderflow);
                }
                let v = stack.peek(n - 1);
                let ghost rest = stack@.drop_last();
                let mut i = n - 1;
                while i > 0
                    invariant
                        i <= rest.len(),
                        *stack == *old(stack),
                        *control_flow == *old(control_flow),
                        rest == stack@.drop_last(),
                        forall|j: int| i <= j < rest.len() ==> !(rest[j] is ReturnAddr),
                    decreases i,
                {
                    i = i - 1;
                    let it = stack.peek(i);
                    if let StackItem::ReturnAddr(a) = it {
                        proof {
                            assert(rest[i as int] == stack@[i as int]);
                            lemma_top_return_index(rest, i as int);
                        }
                        stack.truncate(i);
                        stack.push(v);
                        proof {
                            assert(stack@ =~= rest.take(i as int).push(v));
                        }
                        *control_flow = ControlFlow::JumpTo(a);
                        return Ok(());
                    }
                }
                proof {
                    if has_return_addr(rest) {
                        let w = choose|j: int| 0 <= j < rest.len() && rest[j] is ReturnAddr;
                        assert(rest[w] == stack@[w]);
                        assert(false);
                    }
                }
                Err(VmError::StackUnderflow)
            },
            _ => vstd::pervasive::unreached(),
        }
    }

    /// The control-flow, loop and concurrency half of [`Instr::eval`].
    #[verifier::loop_isolation(false)]
    fn eval_control(
        &mut self,
        thread_global: &mut VariableTable<ValueType>,
        stack: &mut Stack<StackItem>,
        var_table: &mut VariableTable<ValueType>,
        func_table: &mut VariableTable<AddrType>,
        control_flow: &mut ControlFlow,
    ) -> (r: Result<(), VmError>)
        requires
            old(thread_global).wf(),
            old(var_table).wf(),
            old(func_table).wf(),
            (*old(self) is Jump) || (*old(self) is JumpZero) || (*old(self) is EndLoop) || (*old(
                self,
            ) is While) || (*old(self) is EndWhile) || (*old(self) is LoadAddr) || (*old(
                self,
            ) is LoadChannel) || (*old(self) is SendChannel) || (*old(self) is RecvChannel) || (*old(
                self,
            ) is Spawn) || (*old(self) is Loop),
        ensures
            final(thread_global).wf(),
            final(var_table).wf(),
            final(func_table).wf(),
            ({
                let out = instr_apply(
                    *old(self),
                    EState {
                        globals: old(thread_global)@,
                        stack: old(stack)@,
                        vars: old(var_table)@,
                        funcs: old(func_table)@,
                        cf: *old(control_flow),
                    },
                );
                &&& *final(self) == out.instr
                &&& final(thread_global)@ == out.state.globals
                &&& final(stack)@ == out.state.stack
                &&& final(var_table)@ == out.state.vars
                &&& final(func_table)@ == out.state.funcs
                &&& *final(control_flow) == out.state.cf
                &&& r == (match out.err {
                    Option::None => Result::<(), VmError>::Ok(()),
                    Option::Some(e) => Result::<(), VmError>::Err(e),
                })
            }),
    {
        match self {
            Instr::Jump(j) => {
                match func_table.read(j.label.as_str()) {
                    Some(addr) => {
                        *control_flow = ControlFlow::JumpTo(addr);
                        Ok(())
                    },
                    None => Err(VmError::UnknownLabel),
                }
            },
            Instr::JumpZero(j) => {
                let n = stack.len();
                if n > 0 {
                    let top = stack.peek(n - 1);
                    if let StackItem::Value(v) = top {
                        if v == 0 {
                            return match func_table.read(j.label.as_str()) {
                                Some(addr) => {
                                    *control_flow = ControlFlow::JumpTo(addr);
                                    Ok(())
                                },
                                None => Err(VmError::UnknownLabel),
                            };
                        }
                    }
                }
                Ok(())
            },
            Instr::Loop(l) => l.eval(thread_global, stack, var_table, func_table, control_flow),
            Instr::EndLoop(el) => {
                if el.loop_var.is_none() || el.loopstart.is_none() {
                    return Err(VmError::Uninitialized);
                }
                let nm: String = match &el.loop_var {
                    Some(s) => s.clone(),
                    None => vstd::pervasive::unreached(),
                };
                let b: usize = match el.loopstart {
                    Some(b) => b,
                    None => vstd::pervasive::unreached(),
                };
                match var_table.read(nm.as_str()) {
                    Some(v) => {
                        var_table.write(nm.as_str(), v.wrapping_add(1));
                        *control_flow = ControlFlow::JumpTo(b);
                        Ok(())
                    },
                    None => Err(VmError::UnknownVariable),
                }
            },
            Instr::While(w) => {
                let n = stack.len();
                if n > 0 {
                    let top = stack.peek(n - 1);
                    if let StackItem::Value(v) = top {
                        if v != 0 {
                            return Ok(());
                        }
                    }
                }
                match w.endwhile {
                    Some(e) => {
                        if e == usize::MAX {
                            return Err(VmError::AddressOverflow);
                        }
                        *control_flow = ControlFlow::JumpTo(e + 1);
                        Ok(())
                    },
                    None => Err(VmError::Uninitialized),
                }
            },
            Instr::EndWhile(ew) => {
                match ew.whilestart {
                    Some(b) => {
                        *control_flow = ControlFlow::JumpTo(b);
                        Ok(())
                    },
                    None => Err(VmError::Uninitialized),
                }
            },
            Instr::LoadAddr(la) => {
                match func_table.read(la.label.as_str()) {
                    Some(addr) => {
                        stack.push(StackItem::Addr(addr));
                        Ok(())
                    },
                    None => Err(VmError::UnknownLabel),
                }
            },
            Instr::LoadChannel(lc) => {
                let c = lc.channel;
                stack.push(StackItem::Channel(c));
                Ok(())
            },
            Instr::SendChannel(_) => {
                let n = stack.len();
                if n == 0 {
                    return Err(VmError::StackUnderflow);
                }
                let t1 = stack.peek(n - 1);
                match t1 {
                    StackItem::Channel(c) => {
                        if n == 1 {
                            return Err(VmError::StackUnderflow);
                        }
                        let t2 = stack.peek(n - 2);
                        match t2 {
                            StackItem::Value(v) => {
                                stack.pop();
                                stack.pop();
                                let name = crate::names::chan_name_string(c);
                                thread_global.write(name.as_str(), v);
                                proof {
                                    assert(stack@ =~= old(stack)@.take(n - 2));
                                }
                                Ok(())
                            },
                            _ => Err(VmError::TagMismatch),
                        }
                    },
                    _ => Err(VmError::TagMismatch),
                }
            },
            Instr::RecvChannel(_) => {
                let n = stack.len();
                if n == 0 {
                    return Err(VmError::StackUnderflow);
                }
                let t1 = stack.peek(n - 1);
                match t1 {
                    StackItem::Channel(c) => {
                        let name = crate::names::chan_name_string(c);
                        match thread_global.read(name.as_str()) {
                            Some(v) => {
                                stack.pop();
                                stack.push(StackItem::Value(v));
                                Ok(())
                            },
                            None => {
                                *control_flow = ControlFlow::Block;
                                Ok(())
                            },
                        }
                    },
                    _ => Err(VmError::TagMismatch),
                }
            },
            Instr::Spawn(_) => {
                let n = stack.len();
                if n == 0 {
                    return Err(VmError::StackUnderflow);
                }
                let t1 = stack.peek(n - 1);
                match t1 {
                    StackItem::Addr(f1) => {
                        if n == 1 {
                            return Err(VmError::StackUnderflow);
                        }
                        let t2 = stack.peek(n - 2);
                        match t2 {
                            StackItem::Addr(f2) => {
                                stack.pop();
                                stack.pop();
                                *control_flow = ControlFlow::Spawn(f1, f2);
                                proof {
                                    assert(stack@ =~= old(stack)@.take(n - 2));
                                }
                                Ok(())
                            },
                            _ => Err(VmError::TagMismatch),
                        }
                    },
                    _ => Err(VmError::TagMismatch),
                }
            },
            _ => vstd::pervasive::unreached(),
        }
    }
}

} // verus!
