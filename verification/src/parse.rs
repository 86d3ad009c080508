//! The line parser.
//!
//! One instruction per line:
//!
//! ```text
//! <line> ::= <KEYWORD> ( ' ' <int> | ' ' "'" <name> "'" )?
//! <int>  ::= '-'? [0-9]+
//! <name> ::= one or more non-whitespace characters
//! ```
//!
//! The scanner is hand written; [`line_form`] is the grammar it decides, and
//! [`parse_outcome`] the instruction and context effect of each accepted
//! line.  A sign may precede an integer operand, so that negative literals
//! can be loaded directly.

use vstd::prelude::*;

use crate::bytecode::{CodeContext, CodeContextV};
use crate::expr::flow::{Jump, JumpZero};
use crate::expr::loops::{EndLoop, EndWhile, Loop, While};
use crate::expr::thread::{LoadAddr, LoadChannel, RecvChannel, SendChannel, Spawn};
use crate::expr::{
    Add, Call, Instr, InstrV, Label, LoadVal, Multiply, ReadVar, Return, ReturnValue, Start,
    WriteVar,
};
use crate::interpreter::VmError;
use crate::names::str_eq;
use vstd::string::StringExecFns;
use vstd::string::StrSliceExecFns;

verus! {

/// Unicode whitespace, as the scanner rejects it inside tokens.
pub open spec fn is_ws(c: char) -> bool {
    let u = c as u32;
    (9 <= u && u <= 13) || u == 32 || u == 0x85 || u == 0xA0 || u == 0x1680 || (0x2000 <= u && u
        <= 0x200A) || u == 0x2028 || u == 0x2029 || u == 0x202F || u == 0x205F || u == 0x3000
}

/// No character of `s` is whitespace.
pub open spec fn no_ws(s: Seq<char>) -> bool {
    forall|i: int| 0 <= i < s.len() ==> !is_ws(#[trigger] s[i])
}

/// An ASCII decimal digit.
pub open spec fn is_digit(c: char) -> bool {
    48 <= c as u32 && c as u32 <= 57
}

/// Every character of `s` is a decimal digit.
pub open spec fn all_digits(s: Seq<char>) -> bool {
    forall|i: int| 0 <= i < s.len() ==> is_digit(#[trigger] s[i])
}

/// The number a digit string denotes, base 10.
pub open spec fn digits_val(s: Seq<char>) -> int
    decreases s.len(),
{
    if s.len() == 0 {
        0
    } else {
        digits_val(s.drop_last()) * 10 + (s.last() as u32 - 48)
    }
}

/// The value of an optionally negated digit string.
pub open spec fn int_value(neg: bool, ds: Seq<char>) -> int {
    if neg {
        -digits_val(ds)
    } else {
        digits_val(ds)
    }
}

/// Whether the operand fits the signed 64-bit value domain.
pub open spec fn int_in_range(neg: bool, ds: Seq<char>) -> bool {
    i64::MIN <= int_value(neg, ds) && int_value(neg, ds) <= i64::MAX
}

/// The index of the first whitespace character, or the length when none.
pub open spec fn first_ws_idx(s: Seq<char>) -> int
    decreases s.len(),
{
    if s.len() == 0 {
        0
    } else if is_ws(s[0]) {
        0
    } else {
        1 + first_ws_idx(s.drop_first())
    }
}

/// The shape of one source line.
pub ghost enum LineForm {
    /// Not in the grammar.
    Bad,
    /// A keyword alone.
    Bare(Seq<char>),
    /// A keyword, a space, and an optionally negated digit run.
    Int(Seq<char>, bool, Seq<char>),
    /// A keyword, a space, and a quoted name.
    Name(Seq<char>, Seq<char>),
}

/// Decide the grammar: which of the three line shapes `s` has, if any.
pub open spec fn line_form(s: Seq<char>) -> LineForm {
    let i = first_ws_idx(s);
    if i == s.len() {
        if s.len() == 0 {
            LineForm::Bad
        } else {
            LineForm::Bare(s)
        }
    } else if i == 0 || s[i] != ' ' {
        LineForm::Bad
    } else {
        let kw = s.take(i);
        let rest = s.subrange(i + 1, s.len() as int);
        if rest.len() == 0 || !no_ws(rest) {
            LineForm::Bad
        } else if is_digit(rest[0]) {
            if all_digits(rest) {
                LineForm::Int(kw, false, rest)
            } else {
                LineForm::Bad
            }
        } else if rest[0] == '-' {
            if rest.len() >= 2 && all_digits(rest.drop_first()) {
                LineForm::Int(kw, true, rest.drop_first())
            } else {
                LineForm::Bad
            }
        } else if rest[0] == '\'' {
            if rest.len() >= 3 && rest.last() == '\'' {
                LineForm::Name(kw, rest.subrange(1, rest.len() - 1))
            } else {
                LineForm::Bad
            }
        } else {
            LineForm::Bad
        }
    }
}

/// A keyword that takes an integer operand.
pub open spec fn is_int_kw(kw: Seq<char>) -> bool {
    kw == "LOAD_VAL"@ || kw == "LOAD_CHANNEL"@
}

/// A keyword that takes a quoted name operand.
pub open spec fn is_name_kw(kw: Seq<char>) -> bool {
    kw == "WRITE_VAR"@ || kw == "READ_VAR"@ || kw == "LABEL"@ || kw == "CALL"@ || kw == "JUMP"@
        || kw == "JUMP_ZERO"@ || kw == "LOAD_ADDR"@
}

/// A keyword that takes no operand.
pub open spec fn is_bare_kw(kw: Seq<char>) -> bool {
    kw == "START"@ || kw == "ADD"@ || kw == "MULTIPLY"@ || kw == "RETURN_VALUE"@ || kw
        == "RETURN"@ || kw == "LOOP"@ || kw == "ENDLOOP"@ || kw == "WHILE"@ || kw == "ENDWHILE"@
        || kw == "SEND_CHANNEL"@ || kw == "RECV_CHANNEL"@ || kw == "SPAWN"@
}

/// The result of parsing one line: the instruction, the updated context,
/// and the load-time error, if any.  A rejected line leaves the context
/// untouched.
pub ghost struct ParseOut {
    pub instr: InstrV,
    pub ctx: CodeContextV,
    pub err: Option<VmError>,
}

/// An accepted line.
pub open spec fn po_ok(i: InstrV, ctx: CodeContextV) -> ParseOut {
    ParseOut { instr: i, ctx, err: None }
}

/// A rejected line; the context is left as it was.
pub open spec fn po_err(ctx: CodeContextV, e: VmError) -> ParseOut {
    ParseOut { instr: InstrV::Noop, ctx, err: Some(e) }
}

/// The outcome of a bare keyword line.
pub open spec fn bare_outcome(kw: Seq<char>, ctx: CodeContextV) -> ParseOut {
    if kw == "START"@ {
        ParseOut {
            instr: InstrV::Start,
            ctx: (CodeContextV { start: ctx.line, ..ctx }),
            err: None,
        }
    } else if kw == "ADD"@ {
        po_ok(InstrV::Add, ctx)
    } else if kw == "MULTIPLY"@ {
        po_ok(InstrV::Multiply, ctx)
    } else if kw == "RETURN_VALUE"@ {
        po_ok(InstrV::ReturnValue, ctx)
    } else if kw == "RETURN"@ {
        po_ok(InstrV::Return, ctx)
    } else if kw == "LOOP"@ {
        ParseOut {
            instr: InstrV::Loop { line: ctx.line, loop_var: None, count: None, endloop: None },
            ctx: (CodeContextV { loop_stack: ctx.loop_stack.push(ctx.line), ..ctx }),
            err: None,
        }
    } else if kw == "ENDLOOP"@ {
        if ctx.loop_stack.len() == 0 {
            po_err(ctx, VmError::UnbalancedLoop)
        } else {
            ParseOut {
                instr: InstrV::EndLoop { line: ctx.line, loop_var: None, loopstart: None },
                ctx: (CodeContextV {
                    loop_stack: ctx.loop_stack.drop_last(),
                    loops: ctx.loops.push((ctx.loop_stack.last(), ctx.line)),
                    ..ctx
                }),
                err: None,
            }
        }
    } else if kw == "WHILE"@ {
        ParseOut {
            instr: InstrV::While { line: ctx.line, endwhile: None },
            ctx: (CodeContextV { while_stack: ctx.while_stack.push(ctx.line), ..ctx }),
            err: None,
        }
    } else if kw == "ENDWHILE"@ {
        if ctx.while_stack.len() == 0 {
            po_err(ctx, VmError::UnbalancedWhile)
        } else {
            ParseOut {
                instr: InstrV::EndWhile { line: ctx.line, whilestart: None },
                ctx: (CodeContextV {
                    while_stack: ctx.while_stack.drop_last(),
                    whiles: ctx.whiles.push((ctx.while_stack.last(), ctx.line)),
                    ..ctx
                }),
                err: None,
            }
        }
    } else if kw == "SEND_CHANNEL"@ {
        po_ok(InstrV::SendChannel, ctx)
    } else if kw == "RECV_CHANNEL"@ {
        po_ok(InstrV::RecvChannel, ctx)
    } else if kw == "SPAWN"@ {
        po_ok(InstrV::Spawn, ctx)
    } else if is_int_kw(kw) || is_name_kw(kw) {
        po_err(ctx, VmError::MissingOperand)
    } else {
        po_err(ctx, VmError::UnknownKeyword)
    }
}

/// The outcome of a keyword line with an integer operand.
pub open spec fn int_outcome(kw: Seq<char>, neg: bool, ds: Seq<char>, ctx: CodeContextV) -> ParseOut {
    if kw == "LOAD_VAL"@ {
        if int_in_range(neg, ds) {
            po_ok(InstrV::LoadVal(int_value(neg, ds) as i64), ctx)
        } else {
            po_err(ctx, VmError::NumberOutOfRange)
        }
    } else if kw == "LOAD_CHANNEL"@ {
        if int_in_range(neg, ds) {
            po_ok(InstrV::LoadChannel(int_value(neg, ds) as i64), ctx)
        } else {
            po_err(ctx, VmError::NumberOutOfRange)
        }
    } else if is_name_kw(kw) || is_bare_kw(kw) {
        po_err(ctx, VmError::UnexpectedOperand)
    } else {
        po_err(ctx, VmError::UnknownKeyword)
    }
}

/// The outcome of a keyword line with a quoted name operand.
pub open spec fn name_outcome(kw: Seq<char>, nm: Seq<char>, ctx: CodeContextV) -> ParseOut {
    if kw == "WRITE_VAR"@ {
        po_ok(InstrV::WriteVar(nm), ctx)
    } else if kw == "READ_VAR"@ {
        po_ok(InstrV::ReadVar(nm), ctx)
    } else if kw == "LABEL"@ {
        if ctx.labels.contains_key(nm) {
            po_err(ctx, VmError::DuplicateLabel)
        } else {
            ParseOut {
                instr: InstrV::Label,
                ctx: (CodeContextV {
                    labels: ctx.labels.insert(nm, (ctx.line + 1) as usize),
                    ..ctx
                }),
                err: None,
            }
        }
    } else if kw == "CALL"@ {
        po_ok(InstrV::Call(nm, (ctx.line + 1) as usize), ctx)
    } else if kw == "JUMP"@ {
        po_ok(InstrV::Jump(nm), ctx)
    } else if kw == "JUMP_ZERO"@ {
        po_ok(InstrV::JumpZero(nm), ctx)
    } else if kw == "LOAD_ADDR"@ {
        po_ok(InstrV::LoadAddr(nm), ctx)
    } else if is_int_kw(kw) || is_bare_kw(kw) {
        po_err(ctx, VmError::UnexpectedOperand)
    } else {
        po_err(ctx, VmError::UnknownKeyword)
    }
}

/// What parsing `s` yields and does to the context.
pub open spec fn parse_outcome(s: Seq<char>, ctx: CodeContextV) -> ParseOut {
    match line_form(s) {
        LineForm::Bad => po_err(ctx, VmError::UnrecognizedLine),
        LineForm::Bare(kw) => bare_outcome(kw, ctx),
        LineForm::Int(kw, neg, ds) => int_outcome(kw, neg, ds, ctx),
        LineForm::Name(kw, nm) => name_outcome(kw, nm, ctx),
    }
}

fn ws_char(c: char) -> (r: bool)
    ensures
        r == is_ws(c),
{
    let u = c as u32;
    (9 <= u && u <= 13) || u == 32 || u == 0x85 || u == 0xA0 || u == 0x1680 || (0x2000 <= u && u
        <= 0x200A) || u == 0x2028 || u == 0x2029 || u == 0x202F || u == 0x205F || u == 0x3000
}

fn digit_ch(c: char) -> (r: bool)
    ensures
        r == is_digit(c),
{
    let u = c as u32;
    48 <= u && u <= 57
}

proof fn lemma_first_ws(s: Seq<char>, i: int)
    requires
        0 <= i <= s.len(),
        forall|j: int| 0 <= j < i ==> !is_ws(#[trigger] s[j]),
        i < s.len() ==> is_ws(s[i]),
    ensures
        first_ws_idx(s) == i,
    decreases s.len(),
{
    if s.len() == 0 {
    } else if is_ws(s[0]) {
        assert(i == 0);
    } else {
        assert(i >= 1);
        assert(forall|j: int| 0 <= j < i - 1 ==> !is_ws(#[trigger] s.drop_first()[j]));
        assert(i - 1 < s.drop_first().len() ==> is_ws(s.drop_first()[i - 1]));
        lemma_first_ws(s.drop_first(), i - 1);
    }
}

#[verifier::loop_isolation(false)]
fn first_ws(s: &str) -> (r: usize)
    ensures
        r as int == first_ws_idx(s@),
        r <= s@.len(),
{
    let n = s.unicode_len();
    let mut i: usize = 0;
    while i < n
        invariant
            i <= n,
            forall|j: int| 0 <= j < i ==> !is_ws(#[trigger] s@[j]),
        decreases n - i,
    {
        let c = s.get_char(i);
        if ws_char(c) {
            proof {
                lemma_first_ws(s@, i as int);
            }
            return i;
        }
        i = i + 1;
    }
    proof {
        lemma_first_ws(s@, i as int);
    }
    i
}

proof fn lemma_digits_val_nonneg(s: Seq<char>)
    requires
        all_digits(s),
    ensures
        digits_val(s) >= 0,
    decreases s.len(),
{
    if s.len() == 0 {
    } else {
        assert(all_digits(s.drop_last()));
        lemma_digits_val_nonneg(s.drop_last());
        assert(is_digit(s.last()));
    }
}

proof fn lemma_digits_val_prefix(s: Seq<char>, k: int)
    requires
        all_digits(s),
        0 <= k <= s.len(),
    ensures
        digits_val(s.take(k)) <= digits_val(s),
    decreases s.len(),
{
    if k == s.len() {
        assert(s.take(k) =~= s);
    } else {
        assert(all_digits(s.drop_last()));
        assert(s.drop_last().take(k) =~= s.take(k));
        lemma_digits_val_prefix(s.drop_last(), k);
        lemma_digits_val_nonneg(s.drop_last());
        assert(is_digit(s.last()));
        assert(digits_val(s) >= digits_val(s.drop_last()));
    }
}

#[verifier::loop_isolation(false)]
fn parse_int_chars(s: &str, from: usize, to: usize, neg: bool) -> (r: Result<i64, VmError>)
    requires
        from < to,
        to <= s@.len(),
        all_digits(s@.subrange(from as int, to as int)),
    ensures
        ({
            let ds = s@.subrange(from as int, to as int);
            &&& int_in_range(neg, ds) ==> (r matches Ok(v) && v as int == int_value(neg, ds))
            &&& !int_in_range(neg, ds) ==> r == Err::<i64, VmError>(VmError::NumberOutOfRange)
        }),
{
    let ghost ds = s@.subrange(from as int, to as int);
    let bound: u64 = if neg {
        9223372036854775808
    } else {
        9223372036854775807
    };
    let mut acc: u64 = 0;
    let mut j: usize = from;
    while j < to
        invariant
            from <= j <= to,
            acc as int == digits_val(s@.subrange(from as int, j as int)),
        decreases to - j,
    {
        let c = s.get_char(j);
        proof {
            assert(ds[j - from] == s@[j as int]);
            assert(is_digit(s@[j as int]));
        }
        let d: u64 = (c as u32 as u64) - 48;
        let ghost pre = s@.subrange(from as int, j as int);
        let ghost cur = s@.subrange(from as int, j + 1 as int);
        proof {
            assert(cur.drop_last() =~= pre);
            assert(cur.last() == s@[j as int]);
        }
        let step: Option<u64> = match acc.checked_mul(10) {
            Some(x) => x.checked_add(d),
            None => None,
        };
        match step {
            Some(y) => {
                acc = y;
            },
            None => {
                proof {
                    assert(digits_val(cur) > u64::MAX);
                    assert(cur =~= ds.take(j + 1 - from));
                    lemma_digits_val_prefix(ds, j + 1 - from);
                    lemma_digits_val_nonneg(ds);
                }
                return Err(VmError::NumberOutOfRange);
            },
        }
        j = j + 1;
    }
    proof {
        assert(s@.subrange(from as int, j as int) =~= ds);
        lemma_digits_val_nonneg(ds);
    }
    if acc > bound {
        return Err(VmError::NumberOutOfRange);
    }
    if neg {
        if acc == 9223372036854775808 {
            Ok(i64::MIN)
        } else {
            Ok(-(acc as i64))
        }
    } else {
        Ok(acc as i64)
    }
}

fn kw_is_int(kw: &str) -> (r: bool)
    ensures
        r == is_int_kw(kw@),
{
    str_eq(kw, "LOAD_VAL") || str_eq(kw, "LOAD_CHANNEL")
}

fn kw_is_name(kw: &str) -> (r: bool)
    ensures
        r == is_name_kw(kw@),
{
    str_eq(kw, "WRITE_VAR") || str_eq(kw, "READ_VAR") || str_eq(kw, "LABEL") || str_eq(kw, "CALL")
        || str_eq(kw, "JUMP") || str_eq(kw, "JUMP_ZERO") || str_eq(kw, "LOAD_ADDR")
}

fn kw_is_bare(kw: &str) -> (r: bool)
    ensures
        r == is_bare_kw(kw@),
{
    str_eq(kw, "START") || str_eq(kw, "ADD") || str_eq(kw, "MULTIPLY") || str_eq(
        kw,
        "RETURN_VALUE",
    ) || str_eq(kw, "RETURN") || str_eq(kw, "LOOP") || str_eq(kw, "ENDLOOP") || str_eq(kw, "WHILE")
        || str_eq(kw, "ENDWHILE") || str_eq(kw, "SEND_CHANNEL") || str_eq(kw, "RECV_CHANNEL")
        || str_eq(kw, "SPAWN")
}

/// The line parser.
pub struct ParseEngine {}

impl Default for ParseEngine {
    fn default() -> (r: Self)
        ensures
            r == (ParseEngine {  }),
    {
        ParseEngine {  }
    }
}

impl ParseEngine {
    fn parse_bare(&self, kw: &str, context: &mut CodeContext) -> (r: Result<Instr, VmError>)
        requires
            old(context).wf(),
        ensures
            final(context).wf(),
            ({
                let out = bare_outcome(kw@, old(context)@);
                &&& final(context)@ == out.ctx
                &&& (match out.err {
                    Option::None => r matches Ok(i) && i@ == out.instr,
                    Option::Some(e) => r == Err::<Instr, VmError>(e),
                })
            }),
    {
        let line = context.line();
        if str_eq(kw, "START") {
            context.set_start(line);
            Ok(Instr::Start(Start {}))
        } else if str_eq(kw, "ADD") {
            Ok(Instr::Add(Add {}))
        } else if str_eq(kw, "MULTIPLY") {
            Ok(Instr::Multiply(Multiply {}))
        } else if str_eq(kw, "RETURN_VALUE") {
            Ok(Instr::ReturnValue(ReturnValue {}))
        } else if str_eq(kw, "RETURN") {
            Ok(Instr::Return(Return {}))
        } else if str_eq(kw, "LOOP") {
            context.push_loop();
            Ok(Instr::Loop(Loop { line, loop_var: None, count: None, endloop: None }))
        } else if str_eq(kw, "ENDLOOP") {
            if context.loop_depth() == 0 {
                return Err(VmError::UnbalancedLoop);
            }
            context.consume_loop();
            Ok(Instr::EndLoop(EndLoop { line, loop_var: None, loopstart: None }))
        } else if str_eq(kw, "WHILE") {
            context.push_while();
            Ok(Instr::While(While { line, endwhile: None }))
        } else if str_eq(kw, "ENDWHILE") {
            if context.while_depth() == 0 {
                return Err(VmError::UnbalancedWhile);
            }
            context.consume_while();
            Ok(Instr::EndWhile(EndWhile { line, whilestart: None }))
        } else if str_eq(kw, "SEND_CHANNEL") {
            Ok(Instr::SendChannel(SendChannel {}))
        } else if str_eq(kw, "RECV_CHANNEL") {
            Ok(Instr::RecvChannel(RecvChannel {}))
        } else if str_eq(kw, "SPAWN") {
            Ok(Instr::Spawn(Spawn {}))
        } else if kw_is_int(kw) || kw_is_name(kw) {
            Err(VmError::MissingOperand)
        } else {
            Err(VmError::UnknownKeyword)
        }
    }

    fn parse_int_form(
        &self,
        kw: &str,
        s: &str,
        dfrom: usize,
        dto: usize,
        neg: bool,
        context: &mut CodeContext,
    ) -> (r: Result<Instr, VmError>)
        requires
            old(context).wf(),
            dfrom < dto,
            dto <= s@.len(),
            all_digits(s@.subrange(dfrom as int, dto as int)),
        ensures
            final(context).wf(),
            ({
                let out = int_outcome(
                    kw@,
                    neg,
                    s@.subrange(dfrom as int, dto as int),
                    old(context)@,
                );
                &&& final(context)@ == out.ctx
                &&& (match out.err {
                    Option::None => r matches Ok(i) && i@ == out.instr,
                    Option::Some(e) => r == Err::<Instr, VmError>(e),
                })
            }),
    {
        if str_eq(kw, "LOAD_VAL") {
            let v = parse_int_chars(s, dfrom, dto, neg)?;
            Ok(Instr::LoadVal(LoadVal { literal: v }))
        } else if str_eq(kw, "LOAD_CHANNEL") {
            let v = parse_int_chars(s, dfrom, dto, neg)?;
            Ok(Instr::LoadChannel(LoadChannel { channel: v }))
        } else if kw_is_name(kw) || kw_is_bare(kw) {
            Err(VmError::UnexpectedOperand)
        } else {
            Err(VmError::UnknownKeyword)
        }
    }

    fn parse_name_form(&self, kw: &str, nm: &str, context: &mut CodeContext) -> (r: Result<
        Instr,
        VmError,
    >)
        requires
            old(context).wf(),
            old(context)@.line < usize::MAX,
        ensures
            final(context).wf(),
            ({
                let out = name_outcome(kw@, nm@, old(context)@);
                &&& final(context)@ == out.ctx
                &&& (match out.err {
                    Option::None => r matches Ok(i) && i@ == out.instr,
                    Option::Some(e) => r == Err::<Instr, VmError>(e),
                })
            }),
    {
        let line = context.line();
        if str_eq(kw, "WRITE_VAR") {
            Ok(Instr::WriteVar(WriteVar { var_name: String::from_str(nm) }))
        } else if str_eq(kw, "READ_VAR") {
            Ok(Instr::ReadVar(ReadVar { var_name: String::from_str(nm) }))
        } else if str_eq(kw, "LABEL") {
            if context.has_label(nm) {
                return Err(VmError::DuplicateLabel);
            }
            context.set_label(nm, line + 1);
            Ok(Instr::Label(Label {}))
        } else if str_eq(kw, "CALL") {
            Ok(Instr::Call(Call { func_name: String::from_str(nm), return_line: line + 1 }))
        } else if str_eq(kw, "JUMP") {
            Ok(Instr::Jump(Jump { label: String::from_str(nm) }))
        } else if str_eq(kw, "JUMP_ZERO") {
            Ok(Instr::JumpZero(JumpZero { label: String::from_str(nm) }))
        } else if str_eq(kw, "LOAD_ADDR") {
            Ok(Instr::LoadAddr(LoadAddr { label: String::from_str(nm) }))
        } else if kw_is_int(kw) || kw_is_bare(kw) {
            Err(VmError::UnexpectedOperand)
        } else {
            Err(VmError::UnknownKeyword)
        }
    }

    /// Parse one line, exactly as [`parse_outcome`] describes: the returned
    /// instruction, or the load-time fault, and the context effect.
    #[verifier::loop_isolation(false)]
    pub fn parse(&self, expr_str: &str, context: &mut CodeContext) -> (r: Result<Instr, VmError>)
        requires
            old(context).wf(),
            old(context)@.line < usize::MAX,
        ensures
            final(context).wf(),
            ({
                let out = parse_outcome(expr_str@, old(context)@);
                &&& final(context)@ == out.ctx
                &&& (match out.err {
                    Option::None => r matches Ok(i) && i@ == out.instr,
                    Option::Some(e) => r == Err::<Instr, VmError>(e),
                })
            }),
    {
        let ghost s = expr_str@;
        let n = expr_str.unicode_len();
        let i0 = first_ws(expr_str);
        if i0 == n {
            if n == 0 {
                return Err(VmError::UnrecognizedLine);
            }
            proof {
                assert(s.take(n as int) =~= s);
            }
            let kw = expr_str.substring_char(0, n);
            return self.parse_bare(kw, context);
        }
        // a whitespace character exists; the separator must be one space
        let sep = expr_str.get_char(i0);
        if i0 == 0 || sep != ' ' {
            return Err(VmError::UnrecognizedLine);
        }
        let rstart = i0 + 1;
        if rstart >= n {
            return Err(VmError::UnrecognizedLine);
        }
        let ghost rest = s.subrange(rstart as int, n as int);
        // the operand may not contain further whitespace
        let mut j: usize = rstart;
        while j < n
            invariant
                rstart <= j <= n,
                forall|t: int| rstart <= t < j ==> !is_ws(#[trigger] s[t]),
            decreases n - j,
        {
            let c = expr_str.get_char(j);
            if ws_char(c) {
                proof {
                    assert(rest[j - rstart] == s[j as int]);
                    assert(!no_ws(rest));
                }
                return Err(VmError::UnrecognizedLine);
            }
            j = j + 1;
        }
        proof {
            assert(forall|t: int| 0 <= t < rest.len() ==> rest[t] == s[t + rstart]);
            assert(no_ws(rest));
        }
        let kw = expr_str.substring_char(0, i0);
        let c0 = expr_str.get_char(rstart);
        if digit_ch(c0) {
            // every operand character must be a digit
            let mut t: usize = rstart;
            while t < n
                invariant
                    rstart <= t <= n,
                    forall|u: int| rstart <= u < t ==> is_digit(#[trigger] s[u]),
                decreases n - t,
            {
                let c = expr_str.get_char(t);
                if !digit_ch(c) {
                    proof {
                        assert(rest[t - rstart] == s[t as int]);
                        assert(!all_digits(rest));
                    }
                    return Err(VmError::UnrecognizedLine);
                }
                t = t + 1;
            }
            proof {
                assert(all_digits(rest));
                assert(rest =~= s.subrange(rstart as int, n as int));
            }
            self.parse_int_form(kw, expr_str, rstart, n, false, context)
        } else if c0 == '-' {
            if rstart + 1 >= n {
                return Err(VmError::UnrecognizedLine);
            }
            let dstart = rstart + 1;
            let mut t: usize = dstart;
            while t < n
                invariant
                    dstart <= t <= n,
                    forall|u: int| dstart <= u < t ==> is_digit(#[trigger] s[u]),
                decreases n - t,
            {
                let c = expr_str.get_char(t);
                if !digit_ch(c) {
                    proof {
                        assert(rest.drop_first()[t - dstart] == s[t as int]);
                        assert(!all_digits(rest.drop_first()));
                    }
                    return Err(VmError::UnrecognizedLine);
                }
                t = t + 1;
            }
            proof {
                assert(forall|u: int|
                    0 <= u < rest.drop_first().len() ==> rest.drop_first()[u] == s[u + dstart]);
                assert(all_digits(rest.drop_first()));
                assert(rest.drop_first() =~= s.subrange(dstart as int, n as int));
            }
            self.parse_int_form(kw, expr_str, dstart, n, true, context)
        } else if c0 == '\'' {
            if n - rstart < 3 {
                return Err(VmError::UnrecognizedLine);
            }
            let cl = expr_str.get_char(n - 1);
            if cl != '\'' {
                proof {
                    assert(rest.last() == s[n - 1]);
                }
                return Err(VmError::UnrecognizedLine);
            }
            proof {
                assert(rest.last() == s[n - 1]);
                assert(rest.subrange(1, rest.len() - 1) =~= s.subrange(
                    rstart + 1 as int,
                    n - 1 as int,
                ));
            }
            let nm = expr_str.substring_char(rstart + 1, n - 1);
            self.parse_name_form(kw, nm, context)
        } else {
            proof {
                assert(rest[0] == s[rstart as int]);
            }
            Err(VmError::UnrecognizedLine)
        }
    }
}

} // verus!
