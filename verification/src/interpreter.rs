//! Core runtime types: the operand stack, the variable table, stack items,
//! control-flow directives, and fault codes.

use vstd::prelude::*;

use crate::bytecode::ByteCode;
use crate::names::str_eq;
use vstd::assert_seqs_equal;

verus! {

/// A numeric operand of the executed program.
pub type ValueType = i64;

/// An index into the instruction array.
pub type AddrType = usize;

/// A fault: either a load-time rejection of the source text or a run-time
/// contract violation of the executed program.  There is no recovery path.
#[derive(Copy, Clone, Debug, PartialEq, Eq, Structural)]
pub enum VmError {
    /// The line does not match the instruction grammar.
    UnrecognizedLine,
    /// The keyword is not an opcode.
    UnknownKeyword,
    /// An operand is present where the opcode forbids one.
    UnexpectedOperand,
    /// The opcode needs an operand and none is present.
    MissingOperand,
    /// An integer operand does not fit the value domain.
    NumberOutOfRange,
    /// A label name is declared twice.
    DuplicateLabel,
    /// An `ENDLOOP` without an open `LOOP`, or a `LOOP` left open.
    UnbalancedLoop,
    /// An `ENDWHILE` without an open `WHILE`, or a `WHILE` left open.
    UnbalancedWhile,
    /// A pop or search on an operand stack with too few items.
    StackUnderflow,
    /// A stack item whose tag disagrees with what the instruction expects.
    TagMismatch,
    /// A jump, call or address load names an unknown label.
    UnknownLabel,
    /// A read of a variable that is absent from the thread's locals.
    UnknownVariable,
    /// A loop's iteration bound is gone while its induction variable remains.
    MissingLoopCount,
    /// A paired-instruction slot was never resolved by the load's second pass.
    Uninitialized,
    /// A jump target would lie past the largest representable address.
    AddressOverflow,
    /// The thread-id counter cannot issue two fresh ids.
    TooManyThreads,
}

/// Last-in-first-out sequence of items; the view is the item sequence,
/// oldest first.
pub struct Stack<T> {
    items: Vec<T>,
}

impl<T> View for Stack<T> {
    type V = Seq<T>;

    closed spec fn view(&self) -> Seq<T> {
        self.items@
    }
}

impl<T: Copy> Stack<T> {
    pub fn new() -> (r: Self)
        ensures
            r@ == Seq::<T>::empty(),
    {
        Stack { items: Vec::new() }
    }

    pub fn push(&mut self, item: T)
        ensures
            final(self)@ == old(self)@.push(item),
    {
        self.items.push(item);
    }

    pub fn pop(&mut self) -> (r: Option<T>)
        ensures
            old(self)@.len() == 0 ==> r is None && final(self)@ == old(self)@,
            old(self)@.len() > 0 ==> r == Some(old(self)@.last()) && final(self)@ == old(
                self,
            )@.drop_last(),
    {
        self.items.pop()
    }

    pub fn top(&self) -> (r: Option<T>)
        ensures
            self@.len() == 0 ==> r is None,
            self@.len() > 0 ==> r == Some(self@.last()),
    {
        if self.items.len() == 0 {
            None
        } else {
            Some(self.items[self.items.len() - 1])
        }
    }

    /// How many items the stack holds.
    pub fn len(&self) -> (r: usize)
        ensures
            r == self@.len(),
    {
        self.items.len()
    }

    /// The item at depth `i`, counted from the bottom.
    pub(crate) fn peek(&self, i: usize) -> (r: T)
        requires
            i < self@.len(),
        ensures
            r == self@[i as int],
    {
        self.items[i]
    }

    /// Keep only the bottom `n` items.
    pub(crate) fn truncate(&mut self, n: usize)
        requires
            n <= old(self)@.len(),
        ensures
            final(self)@ == old(self)@.take(n as int),
    {
        self.items.truncate(n);
        proof {
            assert(self@ =~= old(self)@.take(n as int));
        }
    }
}

/// The map a key-value sequence stands for; a later entry would win, though
/// the table keeps its keys unique.
pub open spec fn assoc_map<T>(s: Seq<(String, T)>) -> Map<Seq<char>, T>
    decreases s.len(),
{
    if s.len() == 0 {
        Map::empty()
    } else {
        assoc_map(s.drop_last()).insert(s.last().0@, s.last().1)
    }
}

/// Unique textual names mapped to values; insertion order is irrelevant.
pub struct VariableTable<T> {
    vars: Vec<(String, T)>,
}

impl<T> View for VariableTable<T> {
    type V = Map<Seq<char>, T>;

    closed spec fn view(&self) -> Map<Seq<char>, T> {
        assoc_map(self.vars@)
    }
}

/// No two entries of `s` share a name.
pub open spec fn distinct_keys<T>(s: Seq<(String, T)>) -> bool {
    forall|i: int, j: int| 0 <= i < j < s.len() ==> s[i].0@ != s[j].0@
}

proof fn lemma_assoc_contains<T>(s: Seq<(String, T)>, k: Seq<char>)
    ensures
        assoc_map(s).contains_key(k) <==> exists|i: int| 0 <= i < s.len() && s[i].0@ == k,
    decreases s.len(),
{
    if s.len() == 0 {
    } else {
        lemma_assoc_contains(s.drop_last(), k);
        if s.last().0@ == k {
            assert(s[s.len() - 1].0@ == k);
        } else if assoc_map(s).contains_key(k) {
            let i = choose|i: int| 0 <= i < s.drop_last().len() && s.drop_last()[i].0@ == k;
            assert(s[i].0@ == k);
        } else {
            if exists|i: int| 0 <= i < s.len() && s[i].0@ == k {
                let i = choose|i: int| 0 <= i < s.len() && s[i].0@ == k;
                assert(s.drop_last()[i].0@ == k);
            }
        }
    }
}

proof fn lemma_assoc_value<T>(s: Seq<(String, T)>, i: int)
    requires
        distinct_keys(s),
        0 <= i < s.len(),
    ensures
        assoc_map(s).contains_key(s[i].0@),
        assoc_map(s)[s[i].0@] == s[i].1,
    decreases s.len(),
{
    if i == s.len() - 1 {
    } else {
        assert(distinct_keys(s.drop_last()));
        assert(s.drop_last()[i] == s[i]);
        lemma_assoc_value(s.drop_last(), i);
        assert(s[i].0@ != s.last().0@);
    }
}

proof fn lemma_assoc_remove<T>(s: Seq<(String, T)>, i: int)
    requires
        distinct_keys(s),
        0 <= i < s.len(),
    ensures
        assoc_map(s.remove(i)) == assoc_map(s).remove(s[i].0@),
    decreases s.len(),
{
    let k = s[i].0@;
    if i == s.len() - 1 {
        assert(s.remove(i) =~= s.drop_last());
        lemma_assoc_contains(s.drop_last(), k);
        assert(forall|j: int| 0 <= j < s.drop_last().len() ==> s.drop_last()[j].0@ != k);
        assert(!assoc_map(s.drop_last()).contains_key(k));
        assert(assoc_map(s.drop_last()).insert(k, s.last().1).remove(k) =~= assoc_map(
            s.drop_last(),
        ));
    } else {
        assert(distinct_keys(s.drop_last()));
        assert(s.drop_last()[i] == s[i]);
        lemma_assoc_remove(s.drop_last(), i);
        assert(s.remove(i).last() == s.last());
        assert(s.remove(i).drop_last() =~= s.drop_last().remove(i));
        assert(assoc_map(s.remove(i)) == assoc_map(s.drop_last().remove(i)).insert(
            s.last().0@,
            s.last().1,
        ));
        assert(s.last().0@ != k);
        assert(assoc_map(s.drop_last()).remove(k).insert(s.last().0@, s.last().1) =~= assoc_map(
            s.drop_last(),
        ).insert(s.last().0@, s.last().1).remove(k));
    }
}

impl<T> VariableTable<T> {
    /// Well-formed: no name is held twice.  Constructors establish this and
    /// every method preserves it.
    pub closed spec fn wf(self) -> bool {
        distinct_keys(self.vars@)
    }
}

impl<T: Copy> VariableTable<T> {
    /// The empty table.
    pub fn new() -> (r: Self)
        ensures
            r@ == Map::<Seq<char>, T>::empty(),
            r.wf(),
    {
        VariableTable { vars: Vec::new() }
    }

    /// The index holding `name`, if any.
    fn find(&self, name: &str) -> (r: Option<usize>)
        ensures
            match r {
                Some(i) => i < self.vars@.len() && self.vars@[i as int].0@ == name@,
                None => forall|j: int| 0 <= j < self.vars@.len() ==> self.vars@[j].0@ != name@,
            },
    {
        let mut i: usize = 0;
        while i < self.vars.len()
            invariant
                i <= self.vars@.len(),
                forall|j: int| 0 <= j < i ==> self.vars@[j].0@ != name@,
            decreases self.vars@.len() - i,
        {
            if str_eq(self.vars[i].0.as_str(), name) {
                return Some(i);
            }
            i = i + 1;
        }
        None
    }

    /// Upsert: bind `name` to `val`, replacing any earlier binding.
    pub fn write(&mut self, name: &str, val: T)
        requires
            old(self).wf(),
        ensures
            final(self)@ == old(self)@.insert(name@, val),
            final(self).wf(),
    {
        let found = self.find(name);
        let entry = (String::from_str(name), val);
        match found {
            Some(i) => {
                proof {
                    lemma_assoc_remove(self.vars@, i as int);
                    lemma_assoc_contains(self.vars@.remove(i as int), name@);
                }
                self.vars.remove(i);
                self.vars.push(entry);
                proof {
                    assert(self.vars@.drop_last() =~= old(self).vars@.remove(i as int));
                    assert(final(self)@ =~= old(self)@.insert(name@, val));
                }
            },
            None => {
                proof {
                    lemma_assoc_contains(self.vars@, name@);
                }
                self.vars.push(entry);
                proof {
                    assert(self.vars@.drop_last() =~= old(self).vars@);
                }
            },
        }
    }

    /// Bind a fresh `name`; the caller must know it is not yet bound.
    pub fn write_unique(&mut self, name: &str, val: T)
        requires
            old(self).wf(),
            !old(self)@.contains_key(name@),
        ensures
            final(self)@ == old(self)@.insert(name@, val),
            final(self).wf(),
    {
        proof {
            lemma_assoc_contains(self.vars@, name@);
        }
        let entry = (String::from_str(name), val);
        self.vars.push(entry);
        proof {
            assert(self.vars@.drop_last() =~= old(self).vars@);
        }
    }

    /// The value bound to `name`, if any.
    pub fn read(&self, name: &str) -> (r: Option<T>)
        requires
            self.wf(),
        ensures
            r == if self@.contains_key(name@) {
                Some(self@[name@])
            } else {
                None::<T>
            },
    {
        let found = self.find(name);
        proof {
            lemma_assoc_contains(self.vars@, name@);
        }
        match found {
            Some(i) => {
                proof {
                    lemma_assoc_value(self.vars@, i as int);
                }
                Some(self.vars[i].1)
            },
            None => None,
        }
    }

    /// Erase any binding of `name`.
    pub fn remove(&mut self, name: &str)
        requires
            old(self).wf(),
        ensures
            final(self)@ == old(self)@.remove(name@),
            final(self).wf(),
    {
        let found = self.find(name);
        match found {
            Some(i) => {
                proof {
                    lemma_assoc_remove(self.vars@, i as int);
                }
                self.vars.remove(i);
            },
            None => {
                proof {
                    lemma_assoc_contains(self.vars@, name@);
                    assert(self@ =~= self@.remove(name@));
                }
            },
        }
    }

    /// A table with the same bindings.
    pub fn duplicate(&self) -> (r: Self)
        requires
            self.wf(),
        ensures
            r@ == self@,
            r.wf(),
    {
        let mut out: Vec<(String, T)> = Vec::new();
        let mut i: usize = 0;
        while i < self.vars.len()
            invariant
                i <= self.vars@.len(),
                out@ =~= self.vars@.subrange(0, i as int),
            decreases self.vars@.len() - i,
        {
            let name = self.vars[i].0.clone();
            let val = self.vars[i].1;
            out.push((name, val));
            proof {
                assert(out@ =~= self.vars@.subrange(0, i + 1));
            }
            i = i + 1;
        }
        proof {
            assert(out@ =~= self.vars@);
        }
        VariableTable { vars: out }
    }
}

impl<T: Copy> Default for VariableTable<T> {
    fn default() -> (r: Self)
        ensures
            r@ == Map::<Seq<char>, T>::empty(),
            r.wf(),
    {
        VariableTable::new()
    }
}


/// The mathematical content of a thread.
#[verifier::ext_equal]
pub ghost struct IThreadV {
    pub id: usize,
    pub stack: Seq<StackItem>,
    pub vars: Map<Seq<char>, ValueType>,
    pub addr: AddrType,
}

/// One logical thread: its id, operand stack, locals and program counter.
pub struct IThread {
    id: usize,
    stack: Stack<StackItem>,
    var_table: VariableTable<ValueType>,
    addr: AddrType,
}

impl View for IThread {
    type V = IThreadV;

    closed spec fn view(&self) -> IThreadV {
        IThreadV { id: self.id, stack: self.stack@, vars: self.var_table@, addr: self.addr }
    }
}

impl IThread {
    /// Well-formed: the locals table holds each name once.
    pub closed spec fn wf(self) -> bool {
        self.var_table.wf()
    }

    /// A fresh thread at `addr` with an empty stack and no locals.
    pub fn new(id: usize, addr: AddrType) -> (r: Self)
        ensures
            r@ == (IThreadV {
                id,
                stack: Seq::<StackItem>::empty(),
                vars: Map::<Seq<char>, ValueType>::empty(),
                addr,
            }),
            r.wf(),
    {
        IThread { id, stack: Stack::new(), var_table: VariableTable::new(), addr }
    }

    /// The thread's id.
    pub fn get_id(&self) -> (r: usize)
        ensures
            r == self@.id,
    {
        self.id
    }

    /// The thread's program counter.
    pub fn get_addr(&self) -> (r: AddrType)
        ensures
            r == self@.addr,
    {
        self.addr
    }

    /// The top of the thread's operand stack.
    pub fn stack_top(&self) -> (r: Option<StackItem>)
        ensures
            self@.stack.len() == 0 ==> r is None,
            self@.stack.len() > 0 ==> r == Some(self@.stack.last()),
    {
        self.stack.top()
    }

    /// The value of one of the thread's locals.
    pub fn read_local(&self, name: &str) -> (r: Option<ValueType>)
        requires
            self.wf(),
        ensures
            r == if self@.vars.contains_key(name@) {
                Some(self@.vars[name@])
            } else {
                None::<ValueType>
            },
    {
        self.var_table.read(name)
    }
}

/// The first thread of `ts` with the given id.
pub open spec fn find_thread(ts: Seq<IThreadV>, id: usize) -> Option<IThreadV>
    decreases ts.len(),
{
    if ts.len() == 0 {
        None
    } else if ts[0].id == id {
        Some(ts[0])
    } else {
        find_thread(ts.drop_first(), id)
    }
}

proof fn lemma_find_thread_at(ts: Seq<IThreadV>, j: int)
    requires
        0 <= j < ts.len(),
        forall|t: int| 0 <= t < j ==> (#[trigger] ts[t]).id != ts[j].id,
    ensures
        find_thread(ts, ts[j].id) == Some(ts[j]),
    decreases ts.len(),
{
    if j == 0 {
    } else {
        assert(ts.drop_first()[j - 1] == ts[j]);
        assert(forall|t: int|
            0 <= t < j - 1 ==> (#[trigger] ts.drop_first()[t]).id != ts.drop_first()[j - 1].id);
        lemma_find_thread_at(ts.drop_first(), j - 1);
    }
}

proof fn lemma_find_thread_none(ts: Seq<IThreadV>, id: usize)
    requires
        forall|t: int| 0 <= t < ts.len() ==> (#[trigger] ts[t]).id != id,
    ensures
        find_thread(ts, id) is None,
    decreases ts.len(),
{
    if ts.len() == 0 {
    } else {
        assert(forall|t: int|
            0 <= t < ts.drop_first().len() ==> (#[trigger] ts.drop_first()[t]).id != id);
        lemma_find_thread_none(ts.drop_first(), id);
    }
}

/// The mathematical content of the interpreter.
#[verifier::ext_equal]
pub ghost struct InterpreterV {
    pub code: crate::bytecode::ByteCodeV,
    pub funcs: Map<Seq<char>, AddrType>,
    pub main_thread_id: usize,
    pub next_thread_id: usize,
    pub threads: Seq<IThreadV>,
    pub globals: Map<Seq<char>, ValueType>,
    pub ended: Seq<IThreadV>,
}


/// The scheduler's whole state: the interpreter plus the rotation cursor.
#[verifier::ext_equal]
pub ghost struct SchedState {
    pub m: InterpreterV,
    pub cursor: usize,
}

/// The first index of `ts` whose thread id is at least `c`.
pub open spec fn first_at_least(ts: Seq<IThreadV>, c: usize) -> Option<int>
    decreases ts.len(),
{
    if ts.len() == 0 {
        None
    } else if ts[0].id >= c {
        Some(0)
    } else {
        match first_at_least(ts.drop_first(), c) {
            Some(j) => Some(j + 1),
            None => None,
        }
    }
}

/// Round-robin selection: the first thread whose id is at least the
/// cursor, wrapping to the first thread; nothing when no thread remains.
pub open spec fn select_spec(ts: Seq<IThreadV>, c: usize) -> Option<int> {
    if ts.len() == 0 {
        None
    } else {
        match first_at_least(ts, c) {
            Some(j) => Some(j),
            None => Some(0),
        }
    }
}

proof fn lemma_first_at_least_at(ts: Seq<IThreadV>, j: int, c: usize)
    requires
        0 <= j < ts.len(),
        ts[j].id >= c,
        forall|t: int| 0 <= t < j ==> (#[trigger] ts[t]).id < c,
    ensures
        first_at_least(ts, c) == Some(j),
    decreases ts.len(),
{
    if j == 0 {
    } else {
        assert(ts.drop_first()[j - 1] == ts[j]);
        assert(forall|t: int| 0 <= t < j - 1 ==> (#[trigger] ts.drop_first()[t]).id < c);
        lemma_first_at_least_at(ts.drop_first(), j - 1, c);
    }
}

proof fn lemma_first_at_least_none(ts: Seq<IThreadV>, c: usize)
    requires
        forall|t: int| 0 <= t < ts.len() ==> (#[trigger] ts[t]).id < c,
    ensures
        first_at_least(ts, c) is None,
    decreases ts.len(),
{
    if ts.len() == 0 {
    } else {
        assert(forall|t: int|
            0 <= t < ts.drop_first().len() ==> (#[trigger] ts.drop_first()[t]).id < c);
        lemma_first_at_least_none(ts.drop_first(), c);
    }
}

/// The cursor after running the thread with id `tid`: the next id, wrapped
/// to the main thread at the id frontier.
pub open spec fn wrap_cursor(tid: usize, next_id: usize) -> usize {
    if tid >= usize::MAX - 1 {
        0
    } else if tid + 1 >= next_id {
        0
    } else {
        (tid + 1) as usize
    }
}

/// What one scheduler turn yields.
pub ghost enum TurnOut {
    /// No thread remains.
    Done,
    /// The run stops with this fault in this state.
    Fault(SchedState, VmError),
    /// The next scheduler state.
    Next(SchedState),
}

/// One scheduler turn: select the next runnable thread by ascending id
/// with wrap; reap it if its program counter is past the end; otherwise
/// execute one instruction with a fresh directive and apply the directive.
pub open spec fn sched_turn(st: SchedState) -> TurnOut {
    let ts = st.m.threads;
    match select_spec(ts, st.cursor) {
        None => TurnOut::Done,
        Some(idx) => {
            let th = ts[idx];
            if th.addr >= st.m.code.instrs.len() {
                TurnOut::Next(
                    SchedState {
                        m: (InterpreterV {
                            threads: ts.remove(idx),
                            ended: st.m.ended.push(th),
                            ..st.m
                        }),
                        cursor: wrap_cursor(th.id, st.m.next_thread_id),
                    },
                )
            } else {
                let out = crate::expr::instr_apply(
                    st.m.code.instrs[th.addr as int],
                    crate::expr::EState {
                        globals: st.m.globals,
                        stack: th.stack,
                        vars: th.vars,
                        funcs: st.m.funcs,
                        cf: ControlFlow::Normal,
                    },
                );
                match out.err {
                    Some(e) => TurnOut::Fault(st, e),
                    None => {
                        let code2 = crate::bytecode::ByteCodeV {
                            instrs: st.m.code.instrs.update(th.addr as int, out.instr),
                            ..st.m.code
                        };
                        let th2 = IThreadV {
                            stack: out.state.stack,
                            vars: out.state.vars,
                            ..th
                        };
                        let cursor2 = wrap_cursor(th.id, st.m.next_thread_id);
                        match out.state.cf {
                            ControlFlow::Normal => TurnOut::Next(
                                SchedState {
                                    m: (InterpreterV {
                                        code: code2,
                                        globals: out.state.globals,
                                        threads: ts.update(
                                            idx,
                                            (IThreadV { addr: (th.addr + 1) as usize, ..th2 }),
                                        ),
                                        ..st.m
                                    }),
                                    cursor: cursor2,
                                },
                            ),
                            ControlFlow::Block => TurnOut::Next(
                                SchedState {
                                    m: (InterpreterV {
                                        code: code2,
                                        globals: out.state.globals,
                                        threads: ts.update(idx, th2),
                                        ..st.m
                                    }),
                                    cursor: cursor2,
                                },
                            ),
                            ControlFlow::JumpTo(a) => TurnOut::Next(
                                SchedState {
                                    m: (InterpreterV {
                                        code: code2,
                                        globals: out.state.globals,
                                        threads: ts.update(idx, (IThreadV { addr: a, ..th2 })),
                                        ..st.m
                                    }),
                                    cursor: cursor2,
                                },
                            ),
                            ControlFlow::Spawn(f1, f2) => {
                                if st.m.next_thread_id > usize::MAX - 2 {
                                    TurnOut::Fault(
                                        SchedState {
                                            m: (InterpreterV {
                                                code: code2,
                                                globals: out.state.globals,
                                                threads: ts.update(idx, th2),
                                                ..st.m
                                            }),
                                            cursor: st.cursor,
                                        },
                                        VmError::TooManyThreads,
                                    )
                                } else {
                                    let end = st.m.funcs["_' end"@];
                                    let t1 = IThreadV {
                                        id: st.m.next_thread_id,
                                        stack: seq![StackItem::ReturnAddr(end)],
                                        vars: Map::<Seq<char>, ValueType>::empty(),
                                        addr: f1,
                                    };
                                    let t2 = IThreadV {
                                        id: (st.m.next_thread_id + 1) as usize,
                                        stack: seq![StackItem::ReturnAddr(end)],
                                        vars: Map::<Seq<char>, ValueType>::empty(),
                                        addr: f2,
                                    };
                                    TurnOut::Next(
                                        SchedState {
                                            m: (InterpreterV {
                                                code: code2,
                                                globals: out.state.globals,
                                                threads: ts.update(
                                                    idx,
                                                    (IThreadV {
                                                        addr: (th.addr + 1) as usize,
                                                        ..th2
                                                    }),
                                                ).push(t1).push(t2),
                                                next_thread_id: (st.m.next_thread_id + 2) as usize,
                                                ..st.m
                                            }),
                                            cursor: wrap_cursor(
                                                th.id,
                                                (st.m.next_thread_id + 2) as usize,
                                            ),
                                        },
                                    )
                                }
                            },
                        }
                    },
                }
            }
        },
    }
}

/// Where a bounded scheduler run ends.
pub ghost enum RunOut {
    /// All threads ended; the run finished cleanly.
    Done(SchedState),
    /// A turn faulted in this state.
    Fault(SchedState, VmError),
    /// The step budget ran out in this state.
    Out(SchedState),
}

/// Up to `fuel` scheduler turns.
pub open spec fn sched_run(st: SchedState, fuel: nat) -> RunOut
    decreases fuel,
{
    if fuel == 0 {
        RunOut::Out(st)
    } else {
        match sched_turn(st) {
            TurnOut::Done => RunOut::Done(st),
            TurnOut::Fault(stf, e) => RunOut::Fault(stf, e),
            TurnOut::Next(st2) => sched_run(st2, (fuel - 1) as nat),
        }
    }
}

/// The hard step budget: a development safety valve against runaway
/// programs, not a language guarantee.
pub const STEP_BUDGET: usize = 1000;

/// The interpreter: the loaded program, the label table augmented with the
/// end sentinel, the live threads in ascending id order, the threads that
/// already ended, and the process-wide channel table.
pub struct Interpreter {
    byte_code: ByteCode,
    func_table: VariableTable<AddrType>,
    main_thread_id: usize,
    next_thread_id: usize,
    threads: Vec<IThread>,
    thread_global: VariableTable<ValueType>,
    ended: Vec<IThread>,
}

impl View for Interpreter {
    type V = InterpreterV;

    closed spec fn view(&self) -> InterpreterV {
        InterpreterV {
            code: self.byte_code@,
            funcs: self.func_table@,
            main_thread_id: self.main_thread_id,
            next_thread_id: self.next_thread_id,
            threads: self.threads@.map_values(|t: IThread| t@),
            globals: self.thread_global@,
            ended: self.ended@.map_values(|t: IThread| t@),
        }
    }
}

impl Interpreter {
    /// Well-formed: tables hold each name once, live threads are in
    /// strictly ascending id order below the id counter, and the function
    /// table binds the end sentinel.
    pub closed spec fn wf(self) -> bool {
        &&& self.byte_code.wf()
        &&& self.func_table.wf()
        &&& self.thread_global.wf()
        &&& self.main_thread_id == 0
        &&& forall|j: int| 0 <= j < self.threads@.len() ==> (#[trigger] self.threads@[j]).wf()
        &&& forall|j: int| 0 <= j < self.ended@.len() ==> (#[trigger] self.ended@[j]).wf()
        &&& forall|j1: int, j2: int|
            0 <= j1 < j2 < self.threads@.len() ==> self.threads@[j1]@.id < self.threads@[j2]@.id
        &&& forall|j: int|
            0 <= j < self.threads@.len() ==> (#[trigger] self.threads@[j])@.id
                < self.next_thread_id
        &&& self.func_table@.contains_key("_' end"@)
        &&& self.func_table@["_' end"@] == self.byte_code@.instrs.len()
    }

    /// Set up: the program's labels plus the end sentinel, and the main
    /// thread at the start address.
    pub fn new(byte_code: ByteCode) -> (r: Self)
        requires
            byte_code.wf(),
        ensures
            r.wf(),
            r@.code == byte_code@,
            r@.funcs == byte_code@.labels.insert("_' end"@, byte_code@.instrs.len() as usize),
            r@.main_thread_id == 0,
            r@.next_thread_id == 1,
            r@.globals == Map::<Seq<char>, ValueType>::empty(),
            r@.ended == Seq::<IThreadV>::empty(),
            r@.threads == seq![
                IThreadV {
                    id: 0,
                    stack: Seq::<StackItem>::empty(),
                    vars: Map::<Seq<char>, ValueType>::empty(),
                    addr: byte_code@.start,
                },
            ],
    {
        let main_thread_id: usize = 0;
        let mut labels = byte_code.get_labels().duplicate();
        let end = byte_code.end_addr();
        labels.write("_' end", end);
        let start = byte_code.start_addr();
        let mut threads: Vec<IThread> = Vec::new();
        threads.push(IThread::new(main_thread_id, start));
        let inter = Interpreter {
            byte_code,
            func_table: labels,
            main_thread_id,
            next_thread_id: main_thread_id + 1,
            threads,
            thread_global: VariableTable::new(),
            ended: Vec::new(),
        };
        proof {
            assert(inter@.threads =~= seq![
                IThreadV {
                    id: 0,
                    stack: Seq::<StackItem>::empty(),
                    vars: Map::<Seq<char>, ValueType>::empty(),
                    addr: byte_code@.start,
                },
            ]);
            assert(inter@.ended =~= Seq::<IThreadV>::empty());
        }
        inter
    }

    /// The live threads, fewest first by id.
    pub fn thread_count(&self) -> (r: usize)
        ensures
            r == self@.threads.len(),
    {
        self.threads.len()
    }

    /// The first ended thread with the given id, if any.
    #[verifier::loop_isolation(false)]
    pub fn ended_thread(&self, id: usize) -> (r: Option<&IThread>)
        requires
            self.wf(),
        ensures
            match r {
                Some(t) => find_thread(self@.ended, id) == Some(t@) && t.wf(),
                None => find_thread(self@.ended, id) is None,
            },
    {
        let mut j: usize = 0;
        let n = self.ended.len();
        while j < n
            invariant
                j <= n,
                n == self.ended@.len(),
                forall|t: int| 0 <= t < j ==> (#[trigger] self.ended@[t])@.id != id,
            decreases n - j,
        {
            if self.ended[j].get_id() == id {
                proof {
                    assert(self@.ended[j as int] == self.ended@[j as int]@);
                    assert forall|t: int| 0 <= t < j implies (#[trigger] self@.ended[t]).id
                        != self@.ended[j as int].id by {
                        assert(self@.ended[t] == self.ended@[t]@);
                    }
                    lemma_find_thread_at(self@.ended, j as int);
                }
                return Some(&self.ended[j]);
            }
            j = j + 1;
        }
        proof {
            assert forall|t: int| 0 <= t < self@.ended.len() implies (#[trigger] self@.ended[t]).id
                != id by {
                assert(self@.ended[t] == self.ended@[t]@);
            }
            lemma_find_thread_none(self@.ended, id);
        }
        None
    }

    /// The first live thread with the given id, if any.
    #[verifier::loop_isolation(false)]
    pub fn live_thread(&self, id: usize) -> (r: Option<&IThread>)
        requires
            self.wf(),
        ensures
            match r {
                Some(t) => find_thread(self@.threads, id) == Some(t@) && t.wf(),
                None => find_thread(self@.threads, id) is None,
            },
    {
        let mut j: usize = 0;
        let n = self.threads.len();
        while j < n
            invariant
                j <= n,
                n == self.threads@.len(),
                forall|t: int| 0 <= t < j ==> (#[trigger] self.threads@[t])@.id != id,
            decreases n - j,
        {
            if self.threads[j].get_id() == id {
                proof {
                    assert(self@.threads[j as int] == self.threads@[j as int]@);
                    assert forall|t: int| 0 <= t < j implies (#[trigger] self@.threads[t]).id
                        != self@.threads[j as int].id by {
                        assert(self@.threads[t] == self.threads@[t]@);
                    }
                    lemma_find_thread_at(self@.threads, j as int);
                }
                return Some(&self.threads[j]);
            }
            j = j + 1;
        }
        proof {
            assert forall|t: int| 0 <= t < self@.threads.len() implies (#[trigger] self@.threads[t]).id
                != id by {
                assert(self@.threads[t] == self.threads@[t]@);
            }
            lemma_find_thread_none(self@.threads, id);
        }
        None
    }

    /// The index of the next runnable thread, as [`select_spec`] picks it:
    /// the first whose id is at least `cursor`, wrapping to the first
    /// thread; `None` when no thread remains.
    #[verifier::loop_isolation(false)]
    fn select_next(&self, cursor: usize) -> (r: Option<usize>)
        requires
            self.wf(),
        ensures
            match r {
                Some(idx) => idx < self@.threads.len() && select_spec(self@.threads, cursor)
                    == Some(idx as int),
                None => self@.threads.len() == 0 && select_spec(self@.threads, cursor) is None,
            },
    {
        let n = self.threads.len();
        if n == 0 {
            return None;
        }
        let mut j: usize = 0;
        while j < n
            invariant
                j <= n,
                n == self.threads@.len(),
                forall|t: int| 0 <= t < j ==> (#[trigger] self.threads@[t])@.id < cursor,
            decreases n - j,
        {
            if self.threads[j].get_id() >= cursor {
                proof {
                    assert(self@.threads[j as int] == self.threads@[j as int]@);
                    assert forall|t: int| 0 <= t < j implies (#[trigger] self@.threads[t]).id
                        < cursor by {
                        assert(self@.threads[t] == self.threads@[t]@);
                    }
                    lemma_first_at_least_at(self@.threads, j as int, cursor);
                }
                return Some(j);
            }
            j = j + 1;
        }
        proof {
            assert forall|t: int| 0 <= t < self@.threads.len() implies (#[trigger] self@.threads[t]).id
                < cursor by {
                assert(self@.threads[t] == self.threads@[t]@);
            }
            lemma_first_at_least_none(self@.threads, cursor);
        }
        Some(0)
    }

    /// Run until no thread remains or the step budget is exhausted: pick
    /// the next runnable thread by ascending id with wrap, execute one
    /// instruction, apply its directive, and reap the thread once its
    /// program counter walks past the end of the program, exactly as
    /// [`sched_run`] describes turn by turn.  A run-time contract violation
    /// of the executed program stops the run with its fault.  An empty
    /// program leaves the interpreter idle: every thread is reaped and no
    /// fault arises.
    #[verifier::loop_isolation(false)]
    #[verifier::rlimit(100)]
    pub fn run(&mut self) -> (r: Result<(), VmError>)
        requires
            old(self).wf(),
        ensures
            final(self).wf(),
            final(self)@.funcs == old(self)@.funcs,
            final(self)@.code.labels == old(self)@.code.labels,
            final(self)@.code.start == old(self)@.code.start,
            final(self)@.code.instrs.len() == old(self)@.code.instrs.len(),
            final(self)@.main_thread_id == 0,
            ({
                let ro = sched_run(
                    SchedState { m: old(self)@, cursor: 0 },
                    (STEP_BUDGET - 1) as nat,
                );
                match ro {
                    RunOut::Done(st) => r == Ok::<(), VmError>(()) && final(self)@ == st.m,
                    RunOut::Fault(st, e) => r == Err::<(), VmError>(e) && final(self)@ == st.m,
                    RunOut::Out(st) => r == Ok::<(), VmError>(()) && final(self)@ == st.m,
                }
            }),
            old(self)@.code.instrs.len() == 0 && old(self)@.threads.len() < STEP_BUDGET ==> r
                == Ok::<(), VmError>(()) && final(self)@.threads.len() == 0,
    {
        let ghost st0 = SchedState { m: old(self)@, cursor: 0 };
        let mut control_flow = ControlFlow::Normal;
        let mut cursor: usize = self.main_thread_id;
        let mut i: usize = 0;
        while i < STEP_BUDGET - 1
            invariant
                i <= STEP_BUDGET - 1,
                self.wf(),
                control_flow == ControlFlow::Normal,
                self@.funcs == old(self)@.funcs,
                self@.code.labels == old(self)@.code.labels,
                self@.code.start == old(self)@.code.start,
                self@.code.instrs.len() == old(self)@.code.instrs.len(),
                self@.main_thread_id == 0,
                sched_run(st0, (STEP_BUDGET - 1) as nat) == sched_run(
                    SchedState { m: self@, cursor },
                    (STEP_BUDGET - 1 - i) as nat,
                ),
                old(self)@.code.instrs.len() == 0 ==> self@.threads.len() + i <= old(
                    self,
                )@.threads.len(),
            decreases STEP_BUDGET - i,
        {
            let ghost pre = SchedState { m: self@, cursor };
            let ghost fuel = (STEP_BUDGET - 1 - i) as nat;
            let idx = match self.select_next(cursor) {
                Some(idx) => idx,
                None => {
                    proof {
                        assert(sched_turn(pre) == TurnOut::Done);
                        assert(sched_run(pre, fuel) == RunOut::Done(pre));
                    }
                    return Ok(());
                },
            };
            let tid = self.threads[idx].get_id();
            let addr = self.threads[idx].get_addr();
            proof {
                assert(pre.m.threads[idx as int] == self.threads@[idx as int]@);
            }
            let ghost thv = pre.m.threads[idx as int];
            let th = &mut self.threads[idx];
            let step_r = self.byte_code.step(
                addr,
                &mut self.thread_global,
                &mut th.stack,
                &mut th.var_table,
                &mut self.func_table,
                &mut control_flow,
            );
            proof {
                if (addr as int) < pre.m.code.instrs.len() {
                    crate::expr::lemma_apply_preserves_funcs(
                        pre.m.code.instrs[addr as int],
                        crate::expr::EState {
                            globals: pre.m.globals,
                            stack: thv.stack,
                            vars: thv.vars,
                            funcs: pre.m.funcs,
                            cf: ControlFlow::Normal,
                        },
                    );
                }
            }
            match step_r {
                None => {
                    // past the end of the program: reap this thread
                    let done = self.threads.remove(idx);
                    self.ended.push(done);
                    cursor = if tid >= usize::MAX - 1 {
                        0
                    } else if tid + 1 >= self.next_thread_id {
                        0
                    } else {
                        tid + 1
                    };
                    control_flow = ControlFlow::Normal;
                    proof {
                        assert(done@ == thv);
                        assert(self@.threads =~= pre.m.threads.remove(idx as int));
                        assert(self@.ended =~= pre.m.ended.push(thv));
                        assert(cursor == wrap_cursor(thv.id, pre.m.next_thread_id));
                        assert(self@ =~= (InterpreterV {
                            threads: pre.m.threads.remove(idx as int),
                            ended: pre.m.ended.push(thv),
                            ..pre.m
                        }));
                        assert(sched_turn(pre) == TurnOut::Next(SchedState { m: self@, cursor }));
                        assert(sched_run(pre, fuel) == sched_run(
                            SchedState { m: self@, cursor },
                            (fuel - 1) as nat,
                        ));
                    }
                },
                Some(Err(e)) => {
                    proof {
                        assert(self@.code.instrs =~= pre.m.code.instrs);
                        assert(self@.code =~= pre.m.code);
                        assert(self.threads@[idx as int]@ =~= thv);
                        assert_seqs_equal!(self@.threads == pre.m.threads, j => {
                            assert(self@.threads[j] == self.threads@[j]@);
                        });
                        assert(self@ =~= pre.m);
                        assert(sched_turn(pre) == TurnOut::Fault(pre, e));
                        assert(sched_run(pre, fuel) == RunOut::Fault(pre, e));
                        assert(sched_run(st0, (STEP_BUDGET - 1) as nat) == RunOut::Fault(pre, e));
                    }
                    return Err(e);
                },
                Some(Ok(())) => {
                    let ghost out = crate::expr::instr_apply(
                        pre.m.code.instrs[addr as int],
                        crate::expr::EState {
                            globals: pre.m.globals,
                            stack: thv.stack,
                            vars: thv.vars,
                            funcs: pre.m.funcs,
                            cf: ControlFlow::Normal,
                        },
                    );
                    let ghost th2 = (IThreadV { stack: out.state.stack, vars: out.state.vars, ..thv });
                    match control_flow {
                        ControlFlow::Normal => {
                            let t = &mut self.threads[idx];
                            t.addr = addr + 1;
                            proof {
                                assert(self@.threads =~= pre.m.threads.update(
                                    idx as int,
                                    (IThreadV { addr: (thv.addr + 1) as usize, ..th2 }),
                                ));
                            }
                        },
                        ControlFlow::Block => {
                            proof {
                                assert(self@.threads =~= pre.m.threads.update(idx as int, th2));
                            }
                        },
                        ControlFlow::JumpTo(line) => {
                            let t = &mut self.threads[idx];
                            t.addr = line;
                            proof {
                                assert(self@.threads =~= pre.m.threads.update(
                                    idx as int,
                                    (IThreadV { addr: line, ..th2 }),
                                ));
                            }
                        },
                        ControlFlow::Spawn(f1, f2) => {
                            if self.next_thread_id > usize::MAX - 2 {
                                proof {
                                    let stf = SchedState {
                                        m: (InterpreterV {
                                            code: (crate::bytecode::ByteCodeV {
                                                instrs: pre.m.code.instrs.update(
                                                    addr as int,
                                                    out.instr,
                                                ),
                                                ..pre.m.code
                                            }),
                                            globals: out.state.globals,
                                            threads: pre.m.threads.update(idx as int, th2),
                                            ..pre.m
                                        }),
                                        cursor: pre.cursor,
                                    };
                                    assert(self@.code.instrs =~= stf.m.code.instrs);
                                    assert(self@.code =~= stf.m.code);
                                    assert(self.threads@[idx as int]@ =~= th2);
                                    assert_seqs_equal!(self@.threads == stf.m.threads, j => {
                                        assert(self@.threads[j] == self.threads@[j]@);
                                    });
                                    assert(self@ =~= stf.m);
                                    assert(sched_turn(pre) == TurnOut::Fault(
                                        stf,
                                        VmError::TooManyThreads,
                                    ));
                                    assert(sched_run(pre, fuel) == RunOut::Fault(
                                        stf,
                                        VmError::TooManyThreads,
                                    ));
                                }
                                return Err(VmError::TooManyThreads);
                            }
                            let t = &mut self.threads[idx];
                            t.addr = addr + 1;
                            let end_addr = match self.func_table.read("_' end") {
                                Some(a) => a,
                                None => vstd::pervasive::unreached(),
                            };
                            let id1 = self.next_thread_id;
                            let mut th1 = IThread::new(id1, f1);
                            th1.stack.push(StackItem::ReturnAddr(end_addr));
                            self.threads.push(th1);
                            let id2 = id1 + 1;
                            let mut th2x = IThread::new(id2, f2);
                            th2x.stack.push(StackItem::ReturnAddr(end_addr));
                            self.threads.push(th2x);
                            self.next_thread_id = id2 + 1;
                            proof {
                                let end = pre.m.funcs["_' end"@];
                                let t1 = IThreadV {
                                    id: pre.m.next_thread_id,
                                    stack: seq![StackItem::ReturnAddr(end)],
                                    vars: Map::<Seq<char>, ValueType>::empty(),
                                    addr: f1,
                                };
                                let t2 = IThreadV {
                                    id: (pre.m.next_thread_id + 1) as usize,
                                    stack: seq![StackItem::ReturnAddr(end)],
                                    vars: Map::<Seq<char>, ValueType>::empty(),
                                    addr: f2,
                                };
                                assert(th1@.stack =~= t1.stack);
                                assert(th1@ =~= t1);
                                assert(th2x@ =~= t2);
                                assert(self@.threads =~= pre.m.threads.update(
                                    idx as int,
                                    (IThreadV { addr: (thv.addr + 1) as usize, ..th2 }),
                                ).push(t1).push(t2));
                            }
                        },
                    }
                    control_flow = ControlFlow::Normal;
                    cursor = if tid >= usize::MAX - 1 {
                        0
                    } else if tid + 1 >= self.next_thread_id {
                        0
                    } else {
                        tid + 1
                    };
                    proof {
                        assert(cursor == wrap_cursor(thv.id, self@.next_thread_id));
                        assert(self@.code.instrs =~= pre.m.code.instrs.update(
                            addr as int,
                            out.instr,
                        ));
                        assert(self@.code =~= (crate::bytecode::ByteCodeV {
                            instrs: pre.m.code.instrs.update(addr as int, out.instr),
                            ..pre.m.code
                        }));
                        assert(sched_turn(pre) == TurnOut::Next(SchedState { m: self@, cursor }));
                        assert(sched_run(pre, fuel) == sched_run(
                            SchedState { m: self@, cursor },
                            (fuel - 1) as nat,
                        ));
                    }
                },
            }
            i = i + 1;
        }
        proof {
            assert(sched_run(st0, (STEP_BUDGET - 1) as nat) == RunOut::Out(
                SchedState { m: self@, cursor },
            ));
        }
        Ok(())
    }
}

/// What an instruction hands back to the scheduler.
#[derive(Copy, Clone, Debug, PartialEq, Eq, Structural)]
pub enum ControlFlow {
    /// Advance the thread's program counter by one.
    Normal,
    /// Leave the program counter unchanged; retry on the next turn.
    Block,
    /// Set the program counter to the given address.
    JumpTo(usize),
    /// Advance by one and create two threads at the given start addresses.
    Spawn(AddrType, AddrType),
}

/// A tagged operand-stack item.
#[derive(Copy, Clone, Debug, PartialEq, Eq, Structural)]
pub enum StackItem {
    /// An ordinary operand.
    Value(ValueType),
    /// An instruction address pushed by `LOAD_ADDR`.
    Addr(AddrType),
    /// A return address, distinguished from `Addr` so returns can skip locals.
    ReturnAddr(AddrType),
    /// A channel identifier.
    Channel(ValueType),
}

impl StackItem {
    /// The payload of a `Value` item.
    pub fn value(&self) -> (r: ValueType)
        requires
            self is Value,
        ensures
            *self == StackItem::Value(r),
    {
        match self {
            StackItem::Value(v) => *v,
            _ => vstd::pervasive::unreached(),
        }
    }

    /// The payload of an `Addr` item.
    pub fn addr(&self) -> (r: AddrType)
        requires
            self is Addr,
        ensures
            *self == StackItem::Addr(r),
    {
        match self {
            StackItem::Addr(a) => *a,
            _ => vstd::pervasive::unreached(),
        }
    }

    /// The payload of a `ReturnAddr` item.
    pub fn return_addr(&self) -> (r: AddrType)
        requires
            self is ReturnAddr,
        ensures
            *self == StackItem::ReturnAddr(r),
    {
        match self {
            StackItem::ReturnAddr(a) => *a,
            _ => vstd::pervasive::unreached(),
        }
    }

    /// The payload of a `Channel` item.
    pub fn channel(&self) -> (r: ValueType)
        requires
            self is Channel,
        ensures
            *self == StackItem::Channel(r),
    {
        match self {
            StackItem::Channel(c) => *c,
            _ => vstd::pervasive::unreached(),
        }
    }
}

} // verus!
