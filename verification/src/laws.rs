//! Laws of the instruction semantics, proved over the same spec functions
//! that the executable contracts use.

use vstd::prelude::*;

use crate::expr::loops::{loop_apply, EndLoop, Loop};
use crate::expr::thread::{recv_channel_apply, send_channel_apply};
use crate::expr::{
    add_apply, call_apply, instr_apply, lemma_top_return_index, load_val_apply, multiply_apply,
    read_var_apply, return_apply, return_value_apply, write_var_apply, Call, EState, Instr,
    LoadVal, ReadVar, WriteVar,
};
use crate::interpreter::{ControlFlow, StackItem, ValueType};
use crate::names::{chan_name, ind_name};

verus! {

/// A call followed by a matching return restores the operand stack depth:
/// `CALL` pushes only a `ReturnAddr`, and `RETURN` consumes it together
/// with whatever residue the callee left above it, then jumps back to the
/// instruction after the call.
pub proof fn lemma_call_return(c: Call, s: EState, residue: Seq<StackItem>, sr: EState)
    requires
        s.funcs.contains_key(c.func_name@),
        forall|j: int| 0 <= j < residue.len() ==> !((#[trigger] residue[j]) is ReturnAddr),
        sr.stack == call_apply(c, s).state.stack + residue,
    ensures
        call_apply(c, s).err is None,
        return_apply(sr).err is None,
        return_apply(sr).state.stack == s.stack,
        return_apply(sr).state.stack.len() == s.stack.len(),
        return_apply(sr).state.cf == ControlFlow::JumpTo(c.return_line),
{
    let st = sr.stack;
    let k = s.stack.len() as int;
    assert(st[k] == StackItem::ReturnAddr(c.return_line));
    assert(forall|j: int| k < j < st.len() ==> !((#[trigger] st[j]) is ReturnAddr)) by {
        assert(forall|j: int|
            k < j < st.len() ==> st[j] == residue[j - k - 1] && !((#[trigger] st[j])
                is ReturnAddr));
    }
    lemma_top_return_index(st, k);
    assert(st.take(k) =~= s.stack);
}

/// A call followed by a matching value return leaves the stack one deeper
/// than before the call, with the returned value on top.
pub proof fn lemma_call_return_value(
    c: Call,
    s: EState,
    residue: Seq<StackItem>,
    v: StackItem,
    sr: EState,
)
    requires
        s.funcs.contains_key(c.func_name@),
        forall|j: int| 0 <= j < residue.len() ==> !((#[trigger] residue[j]) is ReturnAddr),
        sr.stack == call_apply(c, s).state.stack + residue + seq![v],
    ensures
        call_apply(c, s).err is None,
        return_value_apply(sr).err is None,
        return_value_apply(sr).state.stack == s.stack.push(v),
        return_value_apply(sr).state.stack.len() == s.stack.len() + 1,
        return_value_apply(sr).state.cf == ControlFlow::JumpTo(c.return_line),
{
    let st = sr.stack;
    let rest = st.drop_last();
    let k = s.stack.len() as int;
    assert(st.last() == v);
    assert(rest =~= call_apply(c, s).state.stack + residue);
    assert(rest[k] == StackItem::ReturnAddr(c.return_line));
    assert(forall|j: int| k < j < rest.len() ==> !((#[trigger] rest[j]) is ReturnAddr)) by {
        assert(forall|j: int|
            k < j < rest.len() ==> rest[j] == residue[j - k - 1] && !((#[trigger] rest[j])
                is ReturnAddr));
    }
    lemma_top_return_index(rest, k);
    assert(rest.take(k) =~= s.stack);
}

/// Loading a value, writing it to a local and reading that local back
/// leaves exactly that value on the stack, for every representable value.
pub proof fn lemma_load_write_read(lv: LoadVal, w: WriteVar, rv: ReadVar, s: EState)
    requires
        rv.var_name@ == w.var_name@,
    ensures
        ({
            let o1 = load_val_apply(lv, s);
            let o2 = write_var_apply(w, o1.state);
            let o3 = read_var_apply(rv, o2.state);
            &&& o1.err is None
            &&& o2.err is None
            &&& o3.err is None
            &&& o3.state.stack == s.stack.push(StackItem::Value(lv.literal))
            &&& o3.state.vars == s.vars.insert(w.var_name@, lv.literal)
        }),
{
    let o1 = load_val_apply(lv, s);
    assert(o1.state.stack.last() == StackItem::Value(lv.literal));
    let o2 = write_var_apply(w, o1.state);
    assert(o2.state.stack =~= s.stack);
    let o3 = read_var_apply(rv, o2.state);
    assert(o3.state.stack =~= s.stack.push(StackItem::Value(lv.literal)));
}

/// `ADD` is commutative over operand order: pushing the two operands in
/// either order yields the same machine state.
pub proof fn lemma_add_commutes(a: ValueType, b: ValueType, s: EState)
    ensures
        ({
            let sab = EState {
                stack: s.stack.push(StackItem::Value(a)).push(StackItem::Value(b)),
                ..s
            };
            let sba = EState {
                stack: s.stack.push(StackItem::Value(b)).push(StackItem::Value(a)),
                ..s
            };
            &&& add_apply(sab).err is None
            &&& add_apply(sab) == add_apply(sba)
        }),
{
    let sab = EState { stack: s.stack.push(StackItem::Value(a)).push(StackItem::Value(b)), ..s };
    let sba = EState { stack: s.stack.push(StackItem::Value(b)).push(StackItem::Value(a)), ..s };
    assert(sab.stack.take(sab.stack.len() - 2) =~= s.stack);
    assert(sba.stack.take(sba.stack.len() - 2) =~= s.stack);
    assert(b.wrapping_add(a) == a.wrapping_add(b));
    assert(add_apply(sab).state.stack =~= add_apply(sba).state.stack);
    assert(add_apply(sab).state =~= add_apply(sba).state);
}

/// `MULTIPLY` is commutative over operand order.
pub proof fn lemma_multiply_commutes(a: ValueType, b: ValueType, s: EState)
    ensures
        ({
            let sab = EState {
                stack: s.stack.push(StackItem::Value(a)).push(StackItem::Value(b)),
                ..s
            };
            let sba = EState {
                stack: s.stack.push(StackItem::Value(b)).push(StackItem::Value(a)),
                ..s
            };
            &&& multiply_apply(sab).err is None
            &&& multiply_apply(sab) == multiply_apply(sba)
        }),
{
    let sab = EState { stack: s.stack.push(StackItem::Value(a)).push(StackItem::Value(b)), ..s };
    let sba = EState { stack: s.stack.push(StackItem::Value(b)).push(StackItem::Value(a)), ..s };
    assert(sab.stack.take(sab.stack.len() - 2) =~= s.stack);
    assert(sba.stack.take(sba.stack.len() - 2) =~= s.stack);
    assert(b.wrapping_mul(a) == a.wrapping_mul(b));
    assert(multiply_apply(sab).state.stack =~= multiply_apply(sba).state.stack);
    assert(multiply_apply(sab).state =~= multiply_apply(sba).state);
}

/// A receive scheduled before any send on its channel blocks, leaving the
/// whole state untouched so the retry sees the same operand; after a send
/// of `v` on that channel, the same receive succeeds and yields `v`.
pub proof fn lemma_recv_blocks_until_sent(c: ValueType, v: ValueType, s: EState, sender: EState)
    requires
        s.stack.len() > 0,
        s.stack.last() == StackItem::Channel(c),
        !s.globals.contains_key(chan_name(c as int)),
        sender.stack.len() >= 2,
        sender.stack.last() == StackItem::Channel(c),
        sender.stack[sender.stack.len() - 2] == StackItem::Value(v),
    ensures
        recv_channel_apply(s).err is None,
        recv_channel_apply(s).state.cf == ControlFlow::Block,
        recv_channel_apply(s).state.stack == s.stack,
        recv_channel_apply(s).state.vars == s.vars,
        recv_channel_apply(s).state.globals == s.globals,
        send_channel_apply(sender).err is None,
        send_channel_apply(sender).state.globals == sender.globals.insert(chan_name(c as int), v),
        ({
            // the same receive, once the sent value has been latched
            let after = EState { globals: send_channel_apply(sender).state.globals, ..s };
            &&& recv_channel_apply(after).err is None
            &&& recv_channel_apply(after).state.cf == s.cf
            &&& recv_channel_apply(after).state.stack == s.stack.drop_last().push(
                StackItem::Value(v),
            )
        }),
{
}

/// Single-thread execution state for the loop law: the program, the
/// machine state, the program counter, and how often the instruction at
/// the observed body address has executed.
pub ghost struct TRun {
    pub code: Seq<Instr>,
    pub s: EState,
    pub pc: int,
    pub body_hits: int,
}

/// One turn of a single thread: execute the instruction under the program
/// counter with a fresh directive and apply the directive.
pub open spec fn thread_step(tr: TRun, body: int) -> TRun
    recommends
        0 <= tr.pc < tr.code.len(),
{
    let out = instr_apply(tr.code[tr.pc], EState { cf: ControlFlow::Normal, ..tr.s });
    let hits = tr.body_hits + if tr.pc == body {
        1int
    } else {
        0int
    };
    let code2 = tr.code.update(tr.pc, out.instr);
    match out.state.cf {
        ControlFlow::Normal => TRun { code: code2, s: out.state, pc: tr.pc + 1, body_hits: hits },
        ControlFlow::Block => TRun { code: code2, s: out.state, pc: tr.pc, body_hits: hits },
        ControlFlow::JumpTo(a) => TRun { code: code2, s: out.state, pc: a as int, body_hits: hits },
        ControlFlow::Spawn(_, _) => TRun {
            code: code2,
            s: out.state,
            pc: tr.pc + 1,
            body_hits: hits,
        },
    }
}

/// `n` turns of a single thread.
pub open spec fn thread_run(tr: TRun, body: int, n: nat) -> TRun
    decreases n,
{
    if n == 0 {
        tr
    } else {
        thread_run(thread_step(tr, body), body, (n - 1) as nat)
    }
}

/// The shape of the three-instruction counted-loop program the loop law
/// speaks about: an initialized `LOOP` at 0, its body at 1, and the
/// matching `ENDLOOP` at 2.
pub open spec fn counted_loop_code(l: Loop, body: Instr, el: EndLoop) -> bool {
    &&& l.line == 0
    &&& (l.loop_var matches Some(nm) && nm@ == ind_name(0))
    &&& l.endloop == Some(2usize)
    &&& el.line == 2
    &&& (el.loop_var matches Some(nm) && nm@ == ind_name(0))
    &&& el.loopstart == Some(0usize)
    &&& body is Noop
}

proof fn lemma_counted_loop_spin(
    l: Loop,
    body: Instr,
    el: EndLoop,
    s: EState,
    vs: Map<Seq<char>, ValueType>,
    n: ValueType,
    k: ValueType,
    h: int,
)
    requires
        counted_loop_code(l, body, el),
        l.count == Some(n),
        1 <= k <= n,
        !vs.contains_key(ind_name(0)),
        s.vars == vs.insert(ind_name(0), k),
    ensures
        ({
            let tr = TRun { code: seq![Instr::Loop(l), body, Instr::EndLoop(el)], s, pc: 0, body_hits: h };
            let trf = thread_run(tr, 1, (3 * (n - k) + 1) as nat);
            &&& trf.pc == 3
            &&& trf.body_hits == h + (n - k)
            &&& trf.s.stack == s.stack
            &&& trf.s.globals == s.globals
            &&& trf.s.vars =~= vs
        }),
    decreases n - k,
{
    let code = seq![Instr::Loop(l), body, Instr::EndLoop(el)];
    let tr = TRun { code, s, pc: 0, body_hits: h };
    let nm = ind_name(0);
    if k == n {
        // the induction variable has reached the bound: one exiting turn
        let tr1 = thread_step(tr, 1);
        assert(loop_apply(l, EState { cf: ControlFlow::Normal, ..s }).err is None);
        assert(tr1.pc == 3);
        assert(tr1.s.vars =~= vs) by {
            assert(tr1.s.vars =~= vs.insert(nm, k).remove(nm));
        }
        assert(thread_run(tr1, 1, 0nat) == tr1);
        assert(thread_run(tr, 1, 1nat) == tr1);
    } else {
        // one more pass through the body
        let tr1 = thread_step(tr, 1);
        assert(tr1.code =~= code);
        assert(tr1.pc == 1 && tr1.body_hits == h);
        assert(tr1.s.stack == s.stack && tr1.s.vars == s.vars && tr1.s.globals == s.globals
            && tr1.s.funcs == s.funcs);
        let tr2 = thread_step(tr1, 1);
        assert(tr2.code =~= code);
        assert(tr2.pc == 2 && tr2.body_hits == h + 1);
        assert(tr2.s.stack == s.stack && tr2.s.vars == s.vars && tr2.s.globals == s.globals
            && tr2.s.funcs == s.funcs);
        let tr3 = thread_step(tr2, 1);
        assert(tr3.code =~= code);
        assert(tr3.pc == 0 && tr3.body_hits == h + 1);
        assert(k.wrapping_add(1) == k + 1);
        assert(tr3.s.vars =~= vs.insert(nm, (k + 1) as i64)) by {
            assert(tr3.s.vars =~= vs.insert(nm, k).insert(nm, (k + 1) as i64));
        }
        assert(tr3.s.stack == s.stack && tr3.s.globals == s.globals && tr3.s.funcs == s.funcs);
        lemma_counted_loop_spin(
            l,
            body,
            el,
            tr3.s,
            vs,
            n,
            (k + 1) as i64,
            h + 1,
        );
        assert(thread_run(tr3, 1, (3 * (n - k - 1) + 1) as nat) == thread_run(
            tr,
            1,
            (3 * (n - k) + 1) as nat,
        )) by {
            assert(thread_run(tr, 1, (3 * (n - k) + 1) as nat) == thread_run(
                tr1,
                1,
                (3 * (n - k)) as nat,
            ));
            assert(thread_run(tr1, 1, (3 * (n - k)) as nat) == thread_run(
                tr2,
                1,
                (3 * (n - k) - 1) as nat,
            ));
            assert(thread_run(tr2, 1, (3 * (n - k) - 1) as nat) == thread_run(
                tr3,
                1,
                (3 * (n - k - 1) + 1) as nat,
            ));
        }
    }
}

/// The counted-loop law: entered with `Value(n)` on the stack, `n >= 1`,
/// and its induction variable absent, the loop `LOOP; <body>; ENDLOOP`
/// executes the body exactly `n` times, and on exit the induction variable
/// is gone from the locals, the bound has been consumed from the stack, and
/// the program counter stands one past the `ENDLOOP`.
pub proof fn lemma_counted_loop(
    l: Loop,
    body: Instr,
    el: EndLoop,
    s: EState,
    n: ValueType,
)
    requires
        counted_loop_code(l, body, el),
        l.count is None,
        n >= 1,
        s.stack.len() > 0,
        s.stack.last() == StackItem::Value(n),
        !s.vars.contains_key(ind_name(0)),
    ensures
        ({
            let tr = TRun { code: seq![Instr::Loop(l), body, Instr::EndLoop(el)], s, pc: 0, body_hits: 0 };
            let trf = thread_run(tr, 1, (3 * n + 1) as nat);
            &&& trf.pc == 3
            &&& trf.body_hits == n
            &&& trf.s.stack == s.stack.drop_last()
            &&& trf.s.globals == s.globals
            &&& trf.s.vars =~= s.vars
        }),
{
    let code = seq![Instr::Loop(l), body, Instr::EndLoop(el)];
    let tr = TRun { code, s, pc: 0, body_hits: 0 };
    let nm = ind_name(0);
    let vs = s.vars;
    // first entry: the bound is consumed and the induction variable appears
    let tr1 = thread_step(tr, 1);
    let l1 = Loop { count: Some(n), ..l };
    let code1 = seq![Instr::Loop(l1), body, Instr::EndLoop(el)];
    assert(tr1.code =~= code1);
    assert(tr1.pc == 1 && tr1.body_hits == 0);
    assert(tr1.s.stack == s.stack.drop_last());
    assert(tr1.s.vars == vs.insert(nm, 0));
    // the body and the first increment
    let tr2 = thread_step(tr1, 1);
    assert(tr2.code =~= code1);
    assert(tr2.pc == 2 && tr2.body_hits == 1);
    assert(tr2.s.stack == tr1.s.stack && tr2.s.vars == tr1.s.vars && tr2.s.globals
        == tr1.s.globals && tr2.s.funcs == tr1.s.funcs);
    let tr3 = thread_step(tr2, 1);
    assert((0i64).wrapping_add(1) == 1i64);
    assert(tr3.code =~= code1);
    assert(tr3.pc == 0 && tr3.body_hits == 1);
    assert(tr3.s.vars =~= vs.insert(nm, 1)) by {
        assert(tr3.s.vars =~= vs.insert(nm, 0).insert(nm, 1));
    }
    assert(tr3.s.stack == tr1.s.stack && tr3.s.globals == s.globals);
    lemma_counted_loop_spin(l1, body, el, tr3.s, vs, n, 1, 1);
    let trm = TRun { code: code1, s: tr3.s, pc: 0, body_hits: 1 };
    assert(trm == tr3);
    assert(thread_run(tr3, 1, (3 * (n - 1) + 1) as nat) == thread_run(tr, 1, (3 * n + 1) as nat))
        by {
        assert(thread_run(tr, 1, (3 * n + 1) as nat) == thread_run(tr1, 1, (3 * n) as nat));
        assert(thread_run(tr1, 1, (3 * n) as nat) == thread_run(tr2, 1, (3 * n - 1) as nat));
        assert(thread_run(tr2, 1, (3 * n - 1) as nat) == thread_run(
            tr3,
            1,
            (3 * (n - 1) + 1) as nat,
        ));
    }
}

} // verus!
