//! Load-time context and the loaded program.
//!
//! A `CodeContext` carries the assembler state across the single parse pass:
//! the line being parsed, the program start address, the label table, the
//! completed loop and while pairings, and the two stacks of begin lines
//! still waiting for their matching end.  A `ByteCode` is the finished
//! program: the indexed instruction array, the label table and the start
//! address.

use vstd::prelude::*;

use crate::expr::{init_instr, instr_apply, EState, Instr, InstrV};
use crate::parse::{parse_outcome, ParseEngine};
use crate::interpreter::{AddrType, ControlFlow, Stack, StackItem, ValueType, VariableTable,
    VmError};

verus! {

/// The mathematical content of a [`CodeContext`].
pub ghost struct CodeContextV {
    pub line: AddrType,
    pub start: AddrType,
    pub labels: Map<Seq<char>, AddrType>,
    pub loops: Seq<(AddrType, AddrType)>,
    pub whiles: Seq<(AddrType, AddrType)>,
    pub loop_stack: Seq<AddrType>,
    pub while_stack: Seq<AddrType>,
}

/// Mutable assembler state carried across the parse pass.
pub struct CodeContext {
    line: AddrType,
    start: AddrType,
    labels: VariableTable<AddrType>,
    pub loops: Vec<(AddrType, AddrType)>,
    pub whiles: Vec<(AddrType, AddrType)>,
    loop_stack: Stack<AddrType>,
    while_stack: Stack<AddrType>,
}

impl View for CodeContext {
    type V = CodeContextV;

    closed spec fn view(&self) -> CodeContextV {
        CodeContextV {
            line: self.line,
            start: self.start,
            labels: self.labels@,
            loops: self.loops@,
            whiles: self.whiles@,
            loop_stack: self.loop_stack@,
            while_stack: self.while_stack@,
        }
    }
}

impl CodeContext {
    /// Well-formed: the label table holds each name once.
    pub closed spec fn wf(self) -> bool {
        self.labels.wf()
    }

    /// Set the index of the line being parsed.
    pub fn set_line(&mut self, line: AddrType)
        requires
            old(self).wf(),
        ensures
            final(self).wf(),
            final(self)@ == (CodeContextV { line, ..old(self)@ }),
    {
        self.line = line;
    }

    /// The index of the line being parsed.
    pub fn line(&self) -> (r: AddrType)
        ensures
            r == self@.line,
    {
        self.line
    }

    /// The program start address recorded so far.
    pub fn start(&self) -> (r: AddrType)
        ensures
            r == self@.start,
    {
        self.start
    }

    /// Record the program start address.
    pub fn set_start(&mut self, start: AddrType)
        requires
            old(self).wf(),
        ensures
            final(self).wf(),
            final(self)@ == (CodeContextV { start, ..old(self)@ }),
    {
        self.start = start;
    }

    /// Whether `label` is already declared.
    pub fn has_label(&self, label: &str) -> (r: bool)
        requires
            self.wf(),
        ensures
            r == self@.labels.contains_key(label@),
    {
        self.labels.read(label).is_some()
    }

    /// Bind a fresh label; the caller must know it is not yet declared.
    pub fn set_label(&mut self, label: &str, line: AddrType)
        requires
            old(self).wf(),
            !old(self)@.labels.contains_key(label@),
        ensures
            final(self).wf(),
            final(self)@ == (CodeContextV {
                labels: old(self)@.labels.insert(label@, line),
                ..old(self)@
            }),
    {
        self.labels.write_unique(label, line);
    }

    /// The completed `LOOP`/`ENDLOOP` pairs.
    pub fn get_loops(&self) -> (r: &Vec<(AddrType, AddrType)>)
        ensures
            r@ == self@.loops,
    {
        &self.loops
    }

    /// The completed `WHILE`/`ENDWHILE` pairs.
    pub fn get_whiles(&self) -> (r: &Vec<(AddrType, AddrType)>)
        ensures
            r@ == self@.whiles,
    {
        &self.whiles
    }

    /// How many `LOOP` lines await their `ENDLOOP`.
    pub fn loop_depth(&self) -> (r: usize)
        ensures
            r == self@.loop_stack.len(),
    {
        self.loop_stack.len()
    }

    /// How many `WHILE` lines await their `ENDWHILE`.
    pub fn while_depth(&self) -> (r: usize)
        ensures
            r == self@.while_stack.len(),
    {
        self.while_stack.len()
    }

    /// A `LOOP` line: push it, awaiting its `ENDLOOP`.
    pub fn push_loop(&mut self)
        requires
            old(self).wf(),
        ensures
            final(self).wf(),
            final(self)@ == (CodeContextV {
                loop_stack: old(self)@.loop_stack.push(old(self)@.line),
                ..old(self)@
            }),
    {
        let line = self.line;
        self.loop_stack.push(line);
    }

    /// An `ENDLOOP` line: complete the innermost open `LOOP`.
    pub fn consume_loop(&mut self)
        requires
            old(self).wf(),
            old(self)@.loop_stack.len() > 0,
        ensures
            final(self).wf(),
            final(self)@ == (CodeContextV {
                loop_stack: old(self)@.loop_stack.drop_last(),
                loops: old(self)@.loops.push(
                    (old(self)@.loop_stack.last(), old(self)@.line),
                ),
                ..old(self)@
            }),
    {
        let loopstart = match self.loop_stack.pop() {
            Some(b) => b,
            None => vstd::pervasive::unreached(),
        };
        let endloop = self.line;
        self.loops.push((loopstart, endloop));
    }

    /// A `WHILE` line: push it, awaiting its `ENDWHILE`.
    pub fn push_while(&mut self)
        requires
            old(self).wf(),
        ensures
            final(self).wf(),
            final(self)@ == (CodeContextV {
                while_stack: old(self)@.while_stack.push(old(self)@.line),
                ..old(self)@
            }),
    {
        let line = self.line;
        self.while_stack.push(line);
    }

    /// An `ENDWHILE` line: complete the innermost open `WHILE`.
    pub fn consume_while(&mut self)
        requires
            old(self).wf(),
            old(self)@.while_stack.len() > 0,
        ensures
            final(self).wf(),
            final(self)@ == (CodeContextV {
                while_stack: old(self)@.while_stack.drop_last(),
                whiles: old(self)@.whiles.push(
                    (old(self)@.while_stack.last(), old(self)@.line),
                ),
                ..old(self)@
            }),
    {
        let whilestart = match self.while_stack.pop() {
            Some(b) => b,
            None => vstd::pervasive::unreached(),
        };
        let endwhile = self.line;
        self.whiles.push((whilestart, endwhile));
    }
}

impl Default for CodeContext {
    fn default() -> (r: Self)
        ensures
            r.wf(),
            r@ == (CodeContextV {
                line: 0,
                start: 0,
                labels: Map::<Seq<char>, AddrType>::empty(),
                loops: Seq::<(AddrType, AddrType)>::empty(),
                whiles: Seq::<(AddrType, AddrType)>::empty(),
                loop_stack: Seq::<AddrType>::empty(),
                while_stack: Seq::<AddrType>::empty(),
            }),
    {
        CodeContext {
            line: 0,
            start: 0,
            labels: VariableTable::new(),
            loops: Vec::new(),
            whiles: Vec::new(),
            loop_stack: Stack::new(),
            while_stack: Stack::new(),
        }
    }
}

/// The context a load starts from: everything empty, line and start at 0.
pub open spec fn initial_context() -> CodeContextV {
    CodeContextV {
        line: 0,
        start: 0,
        labels: Map::<Seq<char>, AddrType>::empty(),
        loops: Seq::<(AddrType, AddrType)>::empty(),
        whiles: Seq::<(AddrType, AddrType)>::empty(),
        loop_stack: Seq::<AddrType>::empty(),
        while_stack: Seq::<AddrType>::empty(),
    }
}

/// The state after the parse pass has consumed the first `k` lines: the
/// parsed instructions, the context, and the first load-time fault, if any.
pub ghost struct Pass1 {
    pub instrs: Seq<InstrV>,
    pub ctx: CodeContextV,
    pub err: Option<VmError>,
}

/// The parse pass over the first `k` lines: each line is parsed with the
/// context's line index set to its position; a fault stops the pass.
pub open spec fn pass1(lines: Seq<Seq<char>>, k: int) -> Pass1
    decreases k,
{
    if k <= 0 {
        Pass1 { instrs: Seq::empty(), ctx: initial_context(), err: None }
    } else {
        let p = pass1(lines, k - 1);
        if p.err is Some {
            p
        } else {
            let out = parse_outcome(
                lines[k - 1],
                CodeContextV { line: (k - 1) as usize, ..p.ctx },
            );
            Pass1 { instrs: p.instrs.push(out.instr), ctx: out.ctx, err: out.err }
        }
    }
}

proof fn lemma_pass1_stops(lines: Seq<Seq<char>>, k: int, m: int)
    requires
        0 <= k <= m,
        pass1(lines, k).err is Some,
    ensures
        pass1(lines, m) == pass1(lines, k),
    decreases m - k,
{
    if m > k {
        lemma_pass1_stops(lines, k, m - 1);
    }
}

proof fn lemma_parse_outcome_labels(s: Seq<char>, ctx: CodeContextV)
    ensures
        ({
            let out = parse_outcome(s, ctx);
            &&& forall|nm: Seq<char>|
                #[trigger] out.ctx.labels.contains_key(nm) ==> ((ctx.labels.contains_key(nm)
                    && out.ctx.labels[nm] == ctx.labels[nm]) || (!ctx.labels.contains_key(nm)
                    && out.ctx.labels[nm] == (ctx.line + 1) as usize))
            &&& forall|nm: Seq<char>|
                #[trigger] ctx.labels.contains_key(nm) ==> out.ctx.labels.contains_key(nm)
                    && out.ctx.labels[nm] == ctx.labels[nm]
            &&& forall|nm1: Seq<char>, nm2: Seq<char>|
                out.ctx.labels.contains_key(nm1) && !ctx.labels.contains_key(nm1)
                    && out.ctx.labels.contains_key(nm2) && !ctx.labels.contains_key(nm2)
                    ==> nm1 == nm2
        }),
{
}

proof fn lemma_pass1_labels(lines: Seq<Seq<char>>, k: int)
    requires
        0 <= k <= usize::MAX,
    ensures
        ({
            let p = pass1(lines, k);
            p.err is None ==> {
                &&& injective_labels(p.ctx.labels)
                &&& forall|nm: Seq<char>|
                    #[trigger] p.ctx.labels.contains_key(nm) ==> 1 <= p.ctx.labels[nm] <= k
            }
        }),
    decreases k,
{
    if k <= 0 {
    } else {
        lemma_pass1_labels(lines, k - 1);
        let p = pass1(lines, k - 1);
        if p.err is None && pass1(lines, k).err is None {
            let ctxk = CodeContextV { line: (k - 1) as usize, ..p.ctx };
            lemma_parse_outcome_labels(lines[k - 1], ctxk);
        }
    }
}

/// The mathematical content of a [`ByteCode`].
#[verifier::ext_equal]
pub ghost struct ByteCodeV {
    pub labels: Map<Seq<char>, AddrType>,
    pub instrs: Seq<Instr>,
    pub start: AddrType,
}

/// A label table is injective when no two labels share an address.
pub open spec fn injective_labels(m: Map<Seq<char>, AddrType>) -> bool {
    forall|k1: Seq<char>, k2: Seq<char>|
        m.contains_key(k1) && m.contains_key(k2) && k1 != k2 ==> m[k1] != m[k2]
}

/// The loaded program: instruction array, label table, start address.
pub struct ByteCode {
    labels: VariableTable<AddrType>,
    exprs: Vec<Instr>,
    start_addr: AddrType,
}

impl View for ByteCode {
    type V = ByteCodeV;

    closed spec fn view(&self) -> ByteCodeV {
        ByteCodeV { labels: self.labels@, instrs: self.exprs@, start: self.start_addr }
    }
}

impl ByteCode {
    /// Well-formed: the label table holds each name once.
    pub closed spec fn wf(self) -> bool {
        self.labels.wf()
    }

    /// The two-pass load.  Pass one parses each trimmed, non-blank line in
    /// order; then the loop and while pairings must be balanced; pass two
    /// resolves every instruction's slots through `init`.  The label table
    /// of an accepted program is injective: labels bind to line + 1, and
    /// lines are distinct.
    #[verifier::loop_isolation(false)]
    pub fn from_lines(lines: &Vec<String>) -> (r: Result<ByteCode, VmError>)
        requires
            lines@.len() < usize::MAX,
        ensures
            ({
                let lv = lines@.map_values(|s: String| s@);
                let p = pass1(lv, lv.len() as int);
                match p.err {
                    Option::Some(e) => r == Err::<ByteCode, VmError>(e),
                    Option::None => {
                        if p.ctx.loop_stack.len() > 0 {
                            r == Err::<ByteCode, VmError>(VmError::UnbalancedLoop)
                        } else if p.ctx.while_stack.len() > 0 {
                            r == Err::<ByteCode, VmError>(VmError::UnbalancedWhile)
                        } else {
                            &&& r matches Ok(bc)
                            &&& bc.wf()
                            &&& bc@.labels == p.ctx.labels
                            &&& bc@.start == p.ctx.start
                            &&& bc@.instrs.len() == lv.len()
                            &&& forall|t: int|
                                0 <= t < lv.len() ==> (#[trigger] bc@.instrs[t])@ == init_instr(
                                    p.instrs[t],
                                    p.ctx.loops,
                                    p.ctx.whiles,
                                )
                            &&& injective_labels(bc@.labels)
                        }
                    },
                }
            }),
    {
        let ghost lv = lines@.map_values(|s: String| s@);
        let parse_engine: ParseEngine = Default::default();
        let mut code_context: CodeContext = Default::default();
        let mut exprs: Vec<Instr> = Vec::new();
        let mut i: usize = 0;
        while i < lines.len()
            invariant
                i <= lines@.len(),
                pass1(lv, i as int).err is None,
                code_context@ == pass1(lv, i as int).ctx,
                code_context.wf(),
                exprs@.len() == i,
                exprs@.map_values(|e: Instr| e@) =~= pass1(lv, i as int).instrs,
            decreases lines@.len() - i,
        {
            proof {
                assert(lv[i as int] == lines@[i as int]@);
            }
            code_context.set_line(i);
            let res = parse_engine.parse(lines[i].as_str(), &mut code_context);
            match res {
                Ok(instr) => {
                    let ghost prev = exprs@.map_values(|e: Instr| e@);
                    exprs.push(instr);
                    proof {
                        assert(exprs@.map_values(|e: Instr| e@) =~= prev.push(instr@));
                    }
                },
                Err(e) => {
                    proof {
                        lemma_pass1_stops(lv, i + 1, lv.len() as int);
                    }
                    return Err(e);
                },
            }
            i = i + 1;
        }
        if code_context.loop_depth() > 0 {
            return Err(VmError::UnbalancedLoop);
        }
        if code_context.while_depth() > 0 {
            return Err(VmError::UnbalancedWhile);
        }
        let ghost p = pass1(lv, lv.len() as int);
        let mut j: usize = 0;
        while j < exprs.len()
            invariant
                j <= exprs@.len(),
                exprs@.len() == lv.len(),
                code_context@ == p.ctx,
                code_context.wf(),
                forall|t: int|
                    0 <= t < j ==> (#[trigger] exprs@[t])@ == init_instr(
                        p.instrs[t],
                        p.ctx.loops,
                        p.ctx.whiles,
                    ),
                forall|t: int| j <= t < exprs@.len() ==> (#[trigger] exprs@[t])@ == p.instrs[t],
            decreases exprs@.len() - j,
        {
            let instr = &mut exprs[j];
            instr.init(&code_context);
            j = j + 1;
        }
        proof {
            lemma_pass1_labels(lv, lv.len() as int);
        }
        let start_addr = code_context.start();
        let CodeContext { labels, .. } = code_context;
        Ok(ByteCode { labels, exprs, start_addr })
    }

    /// The label table.
    pub fn get_labels(&self) -> (r: &VariableTable<AddrType>)
        requires
            self.wf(),
        ensures
            r@ == self@.labels,
            r.wf(),
    {
        &self.labels
    }

    /// The program start address.
    pub fn start_addr(&self) -> (r: AddrType)
        ensures
            r == self@.start,
    {
        self.start_addr
    }

    /// One past the last instruction.
    pub fn end_addr(&self) -> (r: AddrType)
        ensures
            r == self@.instrs.len(),
    {
        self.exprs.len()
    }

    /// The instruction at `addr`, if any.
    pub fn get_line(&self, addr: usize) -> (r: Option<&Instr>)
        ensures
            addr < self@.instrs.len() ==> (r matches Some(i) && *i == self@.instrs[addr as int]),
            addr >= self@.instrs.len() ==> r is None,
    {
        if addr < self.exprs.len() {
            Some(&self.exprs[addr])
        } else {
            None
        }
    }

    /// Execute the instruction at `addr` on the given thread state, exactly
    /// as [`instr_apply`] describes, updating the instruction's own slots in
    /// place.  `None` when `addr` is past the end of the program.
    pub fn step(
        &mut self,
        addr: usize,
        thread_global: &mut VariableTable<ValueType>,
        stack: &mut Stack<StackItem>,
        var_table: &mut VariableTable<ValueType>,
        func_table: &mut VariableTable<AddrType>,
        control_flow: &mut ControlFlow,
    ) -> (r: Option<Result<(), VmError>>)
        requires
            old(self).wf(),
            old(thread_global).wf(),
            old(var_table).wf(),
            old(func_table).wf(),
        ensures
            final(self).wf(),
            final(thread_global).wf(),
            final(var_table).wf(),
            final(func_table).wf(),
            final(self)@.labels == old(self)@.labels,
            final(self)@.start == old(self)@.start,
            final(self)@.instrs.len() == old(self)@.instrs.len(),
            addr >= old(self)@.instrs.len() ==> r is None && final(self)@ == old(self)@
                && final(thread_global)@ == old(thread_global)@ && final(stack)@ == old(stack)@
                && final(var_table)@ == old(var_table)@ && final(func_table)@ == old(func_table)@
                && *final(control_flow) == *old(control_flow),
            addr < old(self)@.instrs.len() ==> ({
                let out = instr_apply(
                    old(self)@.instrs[addr as int],
                    EState {
                        globals: old(thread_global)@,
                        stack: old(stack)@,
                        vars: old(var_table)@,
                        funcs: old(func_table)@,
                        cf: *old(control_flow),
                    },
                );
                &&& final(self)@.instrs == old(self)@.instrs.update(addr as int, out.instr)
                &&& final(thread_global)@ == out.state.globals
                &&& final(stack)@ == out.state.stack
                &&& final(var_table)@ == out.state.vars
                &&& final(func_table)@ == out.state.funcs
                &&& *final(control_flow) == out.state.cf
                &&& r == Some(
                    match out.err {
                        Option::None => Result::<(), VmError>::Ok(()),
                        Option::Some(e) => Result::<(), VmError>::Err(e),
                    },
                )
            }),
    {
        if addr >= self.exprs.len() {
            return None;
        }
        let instr = &mut self.exprs[addr];
        let res = instr.eval(thread_global, stack, var_table, func_table, control_flow);
        Some(res)
    }
}

} // verus!
