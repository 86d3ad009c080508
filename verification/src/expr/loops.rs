//! Counted loops (`LOOP … ENDLOOP`) and conditional loops (`WHILE … ENDWHILE`).
//!
//! The paired end address, begin address and induction-variable name are not
//! known while a line is parsed; the load's second pass fills the `Option`
//! slots through `init`.

use vstd::prelude::*;

use crate::bytecode::CodeContext;
use crate::expr::{init_instr, out_err, out_ok, EState, Instr, StepOut};
use crate::names::ind_name_string;
use crate::interpreter::{
    AddrType, ControlFlow, Stack, StackItem, ValueType, VariableTable, VmError,
};

verus! {

/// `LOOP`: on first entry consume a `Value(bound)` and create the hidden
/// induction variable at 0; once the variable reaches the bound, remove it
/// and continue after the matching `ENDLOOP`.
pub struct Loop {
    pub line: AddrType,
    pub loop_var: Option<String>,
    pub count: Option<ValueType>,
    pub endloop: Option<AddrType>,
}

/// `ENDLOOP`: increment the induction variable and return to the `LOOP`.
pub struct EndLoop {
    pub line: AddrType,
    pub loop_var: Option<String>,
    pub loopstart: Option<AddrType>,
}

/// `WHILE`: continue into the body while the stack top is a non-zero
/// `Value`; otherwise continue after the matching `ENDWHILE`.  The top is
/// inspected, never consumed.
pub struct While {
    pub line: AddrType,
    pub endwhile: Option<AddrType>,
}

/// `ENDWHILE`: return to the `WHILE`.
pub struct EndWhile {
    pub line: AddrType,
    pub whilestart: Option<AddrType>,
}


/// The first pair of `ps` whose begin line is `b`.
pub open spec fn find_pair_by_begin(ps: Seq<(AddrType, AddrType)>, b: AddrType) -> Option<
    (AddrType, AddrType),
>
    decreases ps.len(),
{
    if ps.len() == 0 {
        None
    } else if ps[0].0 == b {
        Some(ps[0])
    } else {
        find_pair_by_begin(ps.drop_first(), b)
    }
}

/// The first pair of `ps` whose end line is `e`.
pub open spec fn find_pair_by_end(ps: Seq<(AddrType, AddrType)>, e: AddrType) -> Option<
    (AddrType, AddrType),
>
    decreases ps.len(),
{
    if ps.len() == 0 {
        None
    } else if ps[0].1 == e {
        Some(ps[0])
    } else {
        find_pair_by_end(ps.drop_first(), e)
    }
}

proof fn lemma_find_begin_at(ps: Seq<(AddrType, AddrType)>, j: int)
    requires
        0 <= j < ps.len(),
        forall|t: int| 0 <= t < j ==> (#[trigger] ps[t]).0 != ps[j].0,
    ensures
        find_pair_by_begin(ps, ps[j].0) == Some(ps[j]),
    decreases ps.len(),
{
    if j == 0 {
    } else {
        assert(ps[0].0 != ps[j].0);
        assert(ps.drop_first()[j - 1] == ps[j]);
        assert(forall|t: int|
            0 <= t < j - 1 ==> (#[trigger] ps.drop_first()[t]).0 != ps.drop_first()[j - 1].0);
        lemma_find_begin_at(ps.drop_first(), j - 1);
    }
}

proof fn lemma_find_begin_none(ps: Seq<(AddrType, AddrType)>, b: AddrType)
    requires
        forall|t: int| 0 <= t < ps.len() ==> (#[trigger] ps[t]).0 != b,
    ensures
        find_pair_by_begin(ps, b) is None,
    decreases ps.len(),
{
    if ps.len() == 0 {
    } else {
        assert(ps[0].0 != b);
        assert(forall|t: int|
            0 <= t < ps.drop_first().len() ==> (#[trigger] ps.drop_first()[t]).0 != b);
        lemma_find_begin_none(ps.drop_first(), b);
    }
}

proof fn lemma_find_end_at(ps: Seq<(AddrType, AddrType)>, j: int)
    requires
        0 <= j < ps.len(),
        forall|t: int| 0 <= t < j ==> (#[trigger] ps[t]).1 != ps[j].1,
    ensures
        find_pair_by_end(ps, ps[j].1) == Some(ps[j]),
    decreases ps.len(),
{
    if j == 0 {
    } else {
        assert(ps[0].1 != ps[j].1);
        assert(ps.drop_first()[j - 1] == ps[j]);
        assert(forall|t: int|
            0 <= t < j - 1 ==> (#[trigger] ps.drop_first()[t]).1 != ps.drop_first()[j - 1].1);
        lemma_find_end_at(ps.drop_first(), j - 1);
    }
}

proof fn lemma_find_end_none(ps: Seq<(AddrType, AddrType)>, e: AddrType)
    requires
        forall|t: int| 0 <= t < ps.len() ==> (#[trigger] ps[t]).1 != e,
    ensures
        find_pair_by_end(ps, e) is None,
    decreases ps.len(),
{
    if ps.len() == 0 {
    } else {
        assert(ps[0].1 != e);
        assert(forall|t: int|
            0 <= t < ps.drop_first().len() ==> (#[trigger] ps.drop_first()[t]).1 != e);
        lemma_find_end_none(ps.drop_first(), e);
    }
}

impl Loop {
    /// Resolve the paired end address and the induction-variable name from
    /// the finalized context.
    #[verifier::loop_isolation(false)]
    pub fn init(&mut self, context: &CodeContext)
        ensures
            Instr::Loop(*final(self))@ == init_instr(
                Instr::Loop(*old(self))@,
                context@.loops,
                context@.whiles,
            ),
    {
        let pairs = context.get_loops();
        let n = pairs.len();
        let mut j: usize = 0;
        while j < n
            invariant
                j <= n,
                *self == *old(self),
                forall|t: int| 0 <= t < j ==> (#[trigger] context@.loops[t]).0 != old(self).line,
            decreases n - j,
        {
            let (b, e) = pairs[j];
            if b == self.line {
                proof {
                    lemma_find_begin_at(context@.loops, j as int);
                }
                self.loop_var = Some(ind_name_string(b));
                self.endloop = Some(e);
                return;
            }
            j = j + 1;
        }
        proof {
            lemma_find_begin_none(context@.loops, self.line);
        }
    }
}

impl EndLoop {
    /// Resolve the paired begin address and the induction-variable name
    /// from the finalized context.
    #[verifier::loop_isolation(false)]
    pub fn init(&mut self, context: &CodeContext)
        ensures
            Instr::EndLoop(*final(self))@ == init_instr(
                Instr::EndLoop(*old(self))@,
                context@.loops,
                context@.whiles,
            ),
    {
        let pairs = context.get_loops();
        let n = pairs.len();
        let mut j: usize = 0;
        while j < n
            invariant
                j <= n,
                *self == *old(self),
                forall|t: int| 0 <= t < j ==> (#[trigger] context@.loops[t]).1 != old(self).line,
            decreases n - j,
        {
            let (b, e) = pairs[j];
            if e == self.line {
                proof {
                    lemma_find_end_at(context@.loops, j as int);
                }
                self.loop_var = Some(ind_name_string(b));
                self.loopstart = Some(b);
                return;
            }
            j = j + 1;
        }
        proof {
            lemma_find_end_none(context@.loops, self.line);
        }
    }
}

impl While {
    /// Resolve the paired end address from the finalized context.
    #[verifier::loop_isolation(false)]
    pub fn init(&mut self, context: &CodeContext)
        ensures
            Instr::While(*final(self))@ == init_instr(
                Instr::While(*old(self))@,
                context@.loops,
                context@.whiles,
            ),
    {
        let pairs = context.get_whiles();
        let n = pairs.len();
        let mut j: usize = 0;
        while j < n
            invariant
                j <= n,
                *self == *old(self),
                forall|t: int| 0 <= t < j ==> (#[trigger] context@.whiles[t]).0 != old(self).line,
            decreases n - j,
        {
            let (b, e) = pairs[j];
            if b == self.line {
                proof {
                    lemma_find_begin_at(context@.whiles, j as int);
                }
                self.endwhile = Some(e);
                return;
            }
            j = j + 1;
        }
        proof {
            lemma_find_begin_none(context@.whiles, self.line);
        }
    }
}

impl EndWhile {
    /// Resolve the paired begin address from the finalized context.
    #[verifier::loop_isolation(false)]
    pub fn init(&mut self, context: &CodeContext)
        ensures
            Instr::EndWhile(*final(self))@ == init_instr(
                Instr::EndWhile(*old(self))@,
                context@.loops,
                context@.whiles,
            ),
    {
        let pairs = context.get_whiles();
        let n = pairs.len();
        let mut j: usize = 0;
        while j < n
            invariant
                j <= n,
                *self == *old(self),
                forall|t: int| 0 <= t < j ==> (#[trigger] context@.whiles[t]).1 != old(self).line,
            decreases n - j,
        {
            let (b, e) = pairs[j];
            if e == self.line {
                proof {
                    lemma_find_end_at(context@.whiles, j as int);
                }
                self.whilestart = Some(b);
                return;
            }
            j = j + 1;
        }
        proof {
            lemma_find_end_none(context@.whiles, self.line);
        }
    }
}

/// What `LOOP` does to the machine state and to its own bound slot.
pub open spec fn loop_apply(l: Loop, s: EState) -> StepOut {
    match (l.loop_var, l.endloop) {
        (Some(nm), Some(e)) => {
            if s.vars.contains_key(nm@) {
                match l.count {
                    Some(c) => {
                        if s.vars[nm@] >= c {
                            if e == usize::MAX {
                                out_err(Instr::Loop(l), s, VmError::AddressOverflow)
                            } else {
                                StepOut {
                                    instr: Instr::Loop(Loop { count: None, ..l }),
                                    state: (EState {
                                        vars: s.vars.remove(nm@),
                                        cf: ControlFlow::JumpTo((e + 1) as usize),
                                        ..s
                                    }),
                                    err: None,
                                }
                            }
                        } else {
                            out_ok(Instr::Loop(l), s)
                        }
                    },
                    None => out_err(Instr::Loop(l), s, VmError::MissingLoopCount),
                }
            } else {
                if s.stack.len() == 0 {
                    out_err(Instr::Loop(l), s, VmError::StackUnderflow)
                } else {
                    match s.stack.last() {
                        StackItem::Value(n) => StepOut {
                            instr: Instr::Loop(Loop { count: Some(n), ..l }),
                            state: (EState {
                                stack: s.stack.drop_last(),
                                vars: s.vars.insert(nm@, 0),
                                ..s
                            }),
                            err: None,
                        },
                        _ => out_err(Instr::Loop(l), s, VmError::TagMismatch),
                    }
                }
            }
        },
        _ => out_err(Instr::Loop(l), s, VmError::Uninitialized),
    }
}

impl Loop {
    /// Execute one step of this `LOOP`, exactly as [`loop_apply`] describes.
    pub fn eval(
        &mut self,
        thread_global: &mut VariableTable<ValueType>,
        stack: &mut Stack<StackItem>,
        var_table: &mut VariableTable<ValueType>,
        func_table: &mut VariableTable<AddrType>,
        control_flow: &mut ControlFlow,
    ) -> (r: Result<(), VmError>)
        requires
            old(thread_global).wf(),
            old(var_table).wf(),
            old(func_table).wf(),
        ensures
            final(thread_global).wf(),
            final(var_table).wf(),
            final(func_table).wf(),
            ({
                let out = loop_apply(
                    *old(self),
                    EState {
                        globals: old(thread_global)@,
                        stack: old(stack)@,
                        vars: old(var_table)@,
                        funcs: old(func_table)@,
                        cf: *old(control_flow),
                    },
                );
                &&& out.instr == Instr::Loop(*final(self))
                &&& final(thread_global)@ == out.state.globals
                &&& final(stack)@ == out.state.stack
                &&& final(var_table)@ == out.state.vars
                &&& final(func_table)@ == out.state.funcs
                &&& *final(control_flow) == out.state.cf
                &&& r == (match out.err {
                    Option::None => Result::<(), VmError>::Ok(()),
                    Option::Some(e) => Result::<(), VmError>::Err(e),
                })
            }),
    {
        if self.loop_var.is_none() || self.endloop.is_none() {
            return Err(VmError::Uninitialized);
        }
        let nm: String = match &self.loop_var {
            Some(s) => s.clone(),
            None => vstd::pervasive::unreached(),
        };
        let e: usize = match self.endloop {
            Some(e) => e,
            None => vstd::pervasive::unreached(),
        };
        match var_table.read(nm.as_str()) {
            Some(v) => {
                match self.count {
                    Some(c) => {
                        if v >= c {
                            if e == usize::MAX {
                                return Err(VmError::AddressOverflow);
                            }
                            var_table.remove(nm.as_str());
                            self.count = None;
                            *control_flow = ControlFlow::JumpTo(e + 1);
                            Ok(())
                        } else {
                            Ok(())
                        }
                    },
                    None => Err(VmError::MissingLoopCount),
                }
            },
            None => {
                let n = stack.len();
                if n == 0 {
                    return Err(VmError::StackUnderflow);
                }
                let top = stack.top();
                match top {
                    Some(StackItem::Value(bound)) => {
                        stack.pop();
                        var_table.write(nm.as_str(), 0);
                        self.count = Some(bound);
                        Ok(())
                    },
                    _ => Err(VmError::TagMismatch),
                }
            },
        }
    }
}

/// What `ENDLOOP` does to the machine state.
pub open spec fn end_loop_apply(el: EndLoop, s: EState) -> StepOut {
    match (el.loop_var, el.loopstart) {
        (Some(nm), Some(b)) => {
            if s.vars.contains_key(nm@) {
                StepOut {
                    instr: Instr::EndLoop(el),
                    state: (EState {
                        vars: s.vars.insert(nm@, s.vars[nm@].wrapping_add(1)),
                        cf: ControlFlow::JumpTo(b),
                        ..s
                    }),
                    err: None,
                }
            } else {
                out_err(Instr::EndLoop(el), s, VmError::UnknownVariable)
            }
        },
        _ => out_err(Instr::EndLoop(el), s, VmError::Uninitialized),
    }
}

/// What `WHILE` does to the machine state.
pub open spec fn while_apply(w: While, s: EState) -> StepOut {
    if s.stack.len() > 0 && (s.stack.last() matches StackItem::Value(v) && v != 0) {
        out_ok(Instr::While(w), s)
    } else {
        match w.endwhile {
            Some(e) => {
                if e == usize::MAX {
                    out_err(Instr::While(w), s, VmError::AddressOverflow)
                } else {
                    StepOut {
                        instr: Instr::While(w),
                        state: (EState { cf: ControlFlow::JumpTo((e + 1) as usize), ..s }),
                        err: None,
                    }
                }
            },
            None => out_err(Instr::While(w), s, VmError::Uninitialized),
        }
    }
}

/// What `ENDWHILE` does to the machine state.
pub open spec fn end_while_apply(ew: EndWhile, s: EState) -> StepOut {
    match ew.whilestart {
        Some(b) => StepOut {
            instr: Instr::EndWhile(ew),
            state: (EState { cf: ControlFlow::JumpTo(b), ..s }),
            err: None,
        },
        None => out_err(Instr::EndWhile(ew), s, VmError::Uninitialized),
    }
}

} // verus!
