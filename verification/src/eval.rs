//! The evaluator: a strict, single-threaded tree walk over the syntax
//! tree, mapping nodes to runtime-state operations.
//!
//! Every evaluation step obeys one discipline, `evolves`: the state
//! stays well formed, call frames are balanced (only the topmost frame
//! may gain bindings), the registry below the current frame's base —
//! the caller's stack — is never touched, and the evaluation budget
//! never grows. Recursion in the program being run consumes budget
//! through the calling convention, so evaluation always terminates; a
//! program that runs too long is stopped with a runtime error.

use vstd::prelude::*;

use std::rc::Rc;

use crate::function::LuaHost;
use crate::parser::ast::{
    args_kinds, chunk_kinds, expr_kinds, exprs_kinds, funcall_kinds, laststat_kinds,
    prefixexp_kinds, stat_kinds, stats_kinds,
};
use crate::parser::ast::{Args, Block, Chunk, Expr, ExprList, FuncBody, FuncName, FunctionCall,
    LastStat, ParamList, PrefixExp, Stat, Var, VarList};
use crate::scanner::{spec_is_digit, Token};
use crate::state::{lookup_env, same_frames_but_top, LuaError, LuaState};
use crate::token_type::TokenType;
use crate::value::{msg_string, push_char, share_rc, Value};

verus! {

/// The registry region evaluation may never touch: everything below
/// the current frame's base — a callee's own arguments and locals are
/// writable (an assignment to a declared local stores into its slot),
/// the caller's stack below them is not. Outside any frame nothing at
/// all may be overwritten.
pub open spec fn frame_floor(l: LuaState) -> int {
    if l.frame_stack@.len() > 0 {
        if l.frame_stack@.last().local_base <= l.reg.top {
            l.frame_stack@.last().local_base as int
        } else {
            l.reg.top as int
        }
    } else {
        l.reg.top as int
    }
}

/// What one evaluation step may do to the runtime state: keep it well
/// formed, bind locals only in the topmost frame, write the registry
/// only from the current frame's base up, only grow its top, and only
/// spend budget.
pub open spec fn evolves(pre: LuaState, post: LuaState) -> bool {
    &&& post.wf()
    &&& same_frames_but_top(pre.frame_stack@, post.frame_stack@)
    &&& post.budget <= pre.budget
    &&& pre.reg.top <= post.reg.top
    &&& post.reg.array@.take(frame_floor(pre)) == pre.reg.array@.take(frame_floor(pre))
}

/// A step that preserves the whole registry below the old top (it
/// only pushed and popped above it) evolves the state a fortiori.
pub proof fn lemma_evolves_from_prefix(pre: LuaState, post: LuaState)
    requires
        pre.wf(),
        post.wf(),
        same_frames_but_top(pre.frame_stack@, post.frame_stack@),
        post.budget <= pre.budget,
        pre.reg.top <= post.reg.top,
        post.reg.array@.take(pre.reg.top as int) == pre.reg.array@.take(pre.reg.top as int),
    ensures
        evolves(pre, post),
{
    assert(frame_floor(pre) <= pre.reg.top);
    assert(post.reg.array@.take(frame_floor(pre)) =~= post.reg.array@.take(
        pre.reg.top as int,
    ).take(frame_floor(pre)));
    assert(pre.reg.array@.take(frame_floor(pre)) =~= pre.reg.array@.take(pre.reg.top as int).take(
        frame_floor(pre),
    ));
}

pub proof fn lemma_evolves_trans(a: LuaState, b: LuaState, c: LuaState)
    requires
        evolves(a, b),
        evolves(b, c),
    ensures
        evolves(a, c),
{
    assert(frame_floor(a) <= frame_floor(b));
    assert(c.reg.array@.take(frame_floor(a)) =~= c.reg.array@.take(frame_floor(b)).take(
        frame_floor(a),
    ));
    assert(b.reg.array@.take(frame_floor(a)) =~= b.reg.array@.take(frame_floor(b)).take(
        frame_floor(a),
    ));
}

proof fn lemma_stats_kinds_member(ss: Seq<Stat>, i: int)
    requires
        0 <= i < ss.len(),
    ensures
        stat_kinds(ss[i]).len() <= stats_kinds(ss).len(),
    decreases ss.len(),
{
    if i > 0 {
        lemma_stats_kinds_member(ss.drop_first(), i - 1);
    }
}

proof fn lemma_exprs_kinds_member(es: Seq<Expr>, i: int)
    requires
        0 <= i < es.len(),
    ensures
        expr_kinds(es[i]).len() <= exprs_kinds(es).len(),
    decreases es.len(),
{
    if i > 0 {
        lemma_exprs_kinds_member(es.drop_first(), i - 1);
    }
}

/// The value of a run of decimal digits read left to right from
/// position `i`, folded onto `acc`; nothing if it ever leaves the
/// 64-bit range. Reading stops at the first non-digit.
pub open spec fn digits_acc(s: Seq<char>, i: nat, acc: int) -> Option<int>
    decreases s.len() - i,
    when i <= s.len()
{
    if i >= s.len() {
        Option::Some(acc)
    } else if !spec_is_digit(s[i as int]) {
        Option::Some(acc)
    } else {
        let acc2 = acc * 10 + (s[i as int] as int - '0' as int);
        if acc2 > i64::MAX {
            Option::None
        } else {
            digits_acc(s, i + 1, acc2)
        }
    }
}

/// The number a numeric lexeme stands for at runtime: the value of its
/// leading digits (a fractional part is cut off, since the runtime is
/// integer-only), or nothing if it has no digits or does not fit.
pub open spec fn spec_parse_number(s: Seq<char>) -> Option<i64> {
    if s.len() == 0 || !spec_is_digit(s[0]) {
        Option::None
    } else {
        match digits_acc(s, 0, 0) {
            Option::Some(v) => Option::Some(v as i64),
            Option::None => Option::None,
        }
    }
}

/// A string literal's body with its single escape translated: the
/// two-character sequence backslash-n stands for a line break.
pub open spec fn unescape(s: Seq<char>) -> Seq<char>
    decreases s.len(),
{
    if s.len() == 0 {
        Seq::empty()
    } else if s[0] == '\\' && s.len() >= 2 && s[1] == 'n' {
        seq!['\n'] + unescape(s.skip(2))
    } else {
        seq![s[0]] + unescape(s.skip(1))
    }
}

/// The runtime text of a string literal lexeme: the quotes stripped
/// and the backslash-n escape translated; nothing if the lexeme is too
/// short to carry its two quotes.
pub open spec fn spec_unquote(s: Seq<char>) -> Option<Seq<char>> {
    if s.len() < 2 {
        Option::None
    } else {
        Option::Some(unescape(s.subrange(1, s.len() - 1)))
    }
}

/// Parse the leading digits of a numeric lexeme.
#[verifier::loop_isolation(false)]
fn parse_number_lexeme(t: &Token) -> (r: Result<i64, LuaError>)
    ensures
        match spec_parse_number(t.lexeme@) {
            Option::Some(n) => r == Result::<i64, LuaError>::Ok(n),
            Option::None => r is Err,
        },
{
    let s = t.lexeme.as_str();
    let n = s.unicode_len();
    if n == 0 {
        return Err(LuaError { message: msg_string("empty numeric literal") });
    }
    let c0 = s.get_char(0);
    if !exec_is_digit(c0) {
        return Err(LuaError { message: msg_string("malformed numeric literal") });
    }
    let mut acc: i64 = 0;
    let mut i: usize = 0;
    let mut stop = false;
    let mut overflow = false;
    while !stop
        invariant
            i <= n,
            n == s@.len(),
            0 <= acc,
            !stop ==> !overflow && digits_acc(s@, 0, 0) == digits_acc(s@, i as nat, acc as int),
            stop && !overflow ==> digits_acc(s@, 0, 0) == Option::Some(acc as int),
            stop && overflow ==> digits_acc(s@, 0, 0) is None,
        decreases n - i, (if stop { 0int } else { 1int }),
    {
        if i >= n {
            stop = true;
        } else {
            let c = s.get_char(i);
            if !exec_is_digit(c) {
                stop = true;
            } else {
                let d = digit_value(c);
                let acc2 = match acc.checked_mul(10) {
                    Some(v) => match v.checked_add(d as i64) {
                        Some(w) => Some(w),
                        None => None,
                    },
                    None => None,
                };
                match acc2 {
                    Some(v) => {
                        acc = v;
                        i = i + 1;
                    },
                    None => {
                        stop = true;
                        overflow = true;
                    },
                }
            }
        }
    }
    if overflow {
        return Err(LuaError { message: msg_string("numeric literal does not fit") });
    }
    Ok(acc)
}

fn exec_is_digit(c: char) -> (b: bool)
    ensures
        b == spec_is_digit(c),
{
    c >= '0' && c <= '9'
}

/// The value of one decimal digit character.
fn digit_value(c: char) -> (d: u8)
    requires
        spec_is_digit(c),
    ensures
        d == c as int - '0' as int,
        d < 10,
{
    (c as u8) - ('0' as u8)
}

/// The runtime text of a string literal lexeme.
#[verifier::loop_isolation(false)]
fn unquote_lexeme(t: &Token) -> (r: Result<String, LuaError>)
    ensures
        match spec_unquote(t.lexeme@) {
            Option::Some(cs) => r matches Ok(s) && s@ == cs,
            Option::None => r is Err,
        },
{
    let s = t.lexeme.as_str();
    let n = s.unicode_len();
    if n < 2 {
        return Err(LuaError { message: msg_string("malformed string literal") });
    }
    let ghost inner = s@.subrange(1, s@.len() - 1);
    let mut out = String::new();
    let mut i: usize = 1;
    let end = n - 1;
    proof {
        assert(inner.skip(0) =~= inner);
        assert(Seq::<char>::empty() + unescape(inner) =~= unescape(inner));
    }
    while i < end
        invariant
            1 <= i <= end,
            end == n - 1,
            n == s@.len(),
            n >= 2,
            inner == s@.subrange(1, s@.len() - 1),
            unescape(inner) == out@ + unescape(inner.skip(i - 1)),
        decreases end - i,
    {
        let c = s.get_char(i);
        proof {
            assert(inner.skip(i - 1)[0] == s@[i as int]);
            if i + 1 < end {
                assert(inner.skip(i - 1)[1] == s@[i as int + 1]);
            }
        }
        if c == '\\' && i + 1 < end && s.get_char(i + 1) == 'n' {
            push_char(&mut out, '\n');
            proof {
                assert(inner.skip(i - 1).skip(2) =~= inner.skip(i + 1));
                assert(out@ + unescape(inner.skip(i + 1)) =~= (out@.drop_last() + (seq!['\n']
                    + unescape(inner.skip(i + 1)))));
            }
            i = i + 2;
        } else {
            push_char(&mut out, c);
            proof {
                assert(inner.skip(i - 1).skip(1) =~= inner.skip(i as int));
                assert(out@ + unescape(inner.skip(i as int)) =~= (out@.drop_last() + (seq![
                    s@[i as int],
                ] + unescape(inner.skip(i as int)))));
            }
            i = i + 1;
        }
    }
    proof {
        assert(inner.skip(end - 1) =~= Seq::<char>::empty());
        assert(out@ + Seq::<char>::empty() =~= out@);
    }
    Ok(out)
}

/// The operator character a binary-operator token stands for in the
/// runtime's dispatch tables, if the runtime implements it.
pub open spec fn spec_binop_char(k: TokenType) -> Option<char> {
    match k {
        TokenType::Plus => Option::Some('+'),
        TokenType::Minus => Option::Some('-'),
        TokenType::Aster => Option::Some('*'),
        TokenType::Slash => Option::Some('/'),
        TokenType::Less => Option::Some('<'),
        TokenType::Le => Option::Some('l'),
        TokenType::Greater => Option::Some('>'),
        TokenType::Ge => Option::Some('g'),
        TokenType::Eql => Option::Some('e'),
        TokenType::Ne => Option::Some('n'),
        TokenType::And => Option::Some('&'),
        TokenType::Or => Option::Some('|'),
        _ => Option::None,
    }
}

fn binop_char(k: TokenType) -> (r: Option<char>)
    ensures
        r == spec_binop_char(k),
{
    match k {
        TokenType::Plus => Some('+'),
        TokenType::Minus => Some('-'),
        TokenType::Aster => Some('*'),
        TokenType::Slash => Some('/'),
        TokenType::Less => Some('<'),
        TokenType::Le => Some('l'),
        TokenType::Greater => Some('>'),
        TokenType::Ge => Some('g'),
        TokenType::Eql => Some('e'),
        TokenType::Ne => Some('n'),
        TokenType::And => Some('&'),
        TokenType::Or => Some('|'),
        _ => None,
    }
}

/// Evaluate one expression. Literals evaluate to themselves; prefix
/// expressions resolve variables and calls; binary operators evaluate
/// both operands, left before right, and dispatch on their runtime
/// types. Expression forms outside the engine's scope (varargs,
/// function literals, table constructors, unary operators) are
/// runtime errors, not crashes.
pub fn eval_exp<H: LuaHost>(l: &mut LuaState, h: &mut H, exp: &Expr) -> (r: Result<Value, LuaError>)
    requires
        old(l).wf(),
    ensures
        evolves(*old(l), *final(l)),
        r is Ok ==> final(l).reg.top == old(l).reg.top,
        exp matches Expr::Nil ==> r == Result::<Value, LuaError>::Ok(Value::Nil) && *final(l)
            == *old(l),
        exp matches Expr::True ==> r == Result::<Value, LuaError>::Ok(Value::Bool(true))
            && *final(l) == *old(l),
        exp matches Expr::False ==> r == Result::<Value, LuaError>::Ok(Value::Bool(false))
            && *final(l) == *old(l),
        (match *exp {
            Expr::Number(t) => *final(l) == *old(l) && (match spec_parse_number(t.lexeme@) {
                Option::Some(n) => r == Result::<Value, LuaError>::Ok(Value::Number(n)),
                Option::None => r is Err,
            }),
            _ => true,
        }),
        (match *exp {
            Expr::String(t) => *final(l) == *old(l) && (match spec_unquote(t.lexeme@) {
                Option::Some(cs) => (match r {
                    Ok(v) => v matches Value::LuaString(s) && s@ == cs,
                    Err(_) => false,
                }),
                Option::None => r is Err,
            }),
            _ => true,
        }),
        exp matches Expr::Dots ==> r is Err && *final(l) == *old(l),
        exp matches Expr::Function(_) ==> r is Err && *final(l) == *old(l),
        exp matches Expr::TableConstructor(_) ==> r is Err && *final(l) == *old(l),
        exp matches Expr::Unop(_, _) ==> r is Err && *final(l) == *old(l),
        literal_binop_spec(*old(l), *final(l), *exp, r),
        (match lit_eval(*exp) {
            Option::Some(v) => r == Result::<Value, LuaError>::Ok(v) && *final(l) == *old(l),
            Option::None => true,
        }),
        (match *exp {
            Expr::PrefixExp(p) => (match p {
                PrefixExp::PrefixVar(v) => *final(l) == *old(l) && (match *v {
                    Var::VarName(t) => (match spec_var_value(*old(l), t.lexeme@) {
                        Option::Some(w) => r == Result::<Value, LuaError>::Ok(w),
                        Option::None => r is Err,
                    }),
                    _ => r is Err,
                }),
                _ => true,
            }),
            _ => true,
        }),
    decreases l.budget, expr_kinds(*exp).len() + 1, 3int,
{
    match exp {
        Expr::Nil => Ok(Value::Nil),
        Expr::True => Ok(Value::Bool(true)),
        Expr::False => Ok(Value::Bool(false)),
        Expr::Number(t) => {
            let n = parse_number_lexeme(t)?;
            Ok(Value::Number(n))
        },
        Expr::String(t) => {
            let s = unquote_lexeme(t)?;
            Ok(Value::LuaString(s))
        },
        Expr::PrefixExp(p) => eval_prefixexp(l, h, p),
        Expr::Binop(_, _, _) => eval_binop(l, h, exp),
        Expr::Dots => Err(l.error("varargs are not implemented")),
        Expr::Function(_) => Err(l.error("function literals are not implemented")),
        Expr::TableConstructor(_) => Err(l.error("table constructors are not implemented")),
        Expr::Unop(_, _) => Err(l.error("unary operators are not implemented")),
    }
}

/// The value of an expression built from literals, parentheses and
/// binary operators alone, as the evaluator computes it: a strict
/// left-to-right fold of the operator tables over the tree as parsed,
/// so the flat, single-level precedence of the grammar is also the
/// precedence of the results. Nothing for any expression that needs
/// the runtime state (or that fails).
pub open spec fn lit_eval(e: Expr) -> Option<Value>
    decreases e,
{
    match e {
        Expr::Nil => Option::Some(Value::Nil),
        Expr::True => Option::Some(Value::Bool(true)),
        Expr::False => Option::Some(Value::Bool(false)),
        Expr::Number(t) => (match spec_parse_number(t.lexeme@) {
            Option::Some(n) => Option::Some(Value::Number(n)),
            Option::None => Option::None,
        }),
        Expr::PrefixExp(p) => (match p {
            PrefixExp::PrefixParen(e2) => lit_eval(*e2),
            _ => Option::None,
        }),
        Expr::Binop(lhs, op, rhs) => (match (
            spec_binop_char(op.0.token_type),
            lit_eval(*lhs),
            lit_eval(*rhs),
        ) {
            (Option::Some(c), Option::Some(a), Option::Some(b)) => crate::state::spec_op(c, a, b),
            _ => Option::None,
        }),
        _ => Option::None,
    }
}

/// What evaluating a binary-operator expression whose operands are
/// both numeric literals must yield: the state untouched and the
/// result pinned by the operator tables — or the error, where the
/// operator is outside the runtime's tables, a literal does not
/// parse, or the operation itself fails.
pub open spec fn literal_binop_spec(
    pre: LuaState,
    post: LuaState,
    e: Expr,
    r: Result<Value, LuaError>,
) -> bool {
    match e {
        Expr::Binop(lhs, op, rhs) => (match (*lhs, *rhs) {
            (Expr::Number(t1), Expr::Number(t2)) => post == pre && (match spec_binop_char(
                op.0.token_type,
            ) {
                Option::Some(c) => (match (
                    spec_parse_number(t1.lexeme@),
                    spec_parse_number(t2.lexeme@),
                ) {
                    (Option::Some(a), Option::Some(b)) => (match crate::state::spec_op_number(
                        c,
                        a,
                        b,
                    ) {
                        Option::Some(v) => r == Result::<Value, LuaError>::Ok(v),
                        Option::None => r is Err,
                    }),
                    _ => r is Err,
                }),
                Option::None => r is Err,
            }),
            _ => true,
        }),
        _ => true,
    }
}

/// Evaluate a binary-operator expression: both operands, left before
/// right, then the operator through the runtime's dispatch tables.
pub fn eval_binop<H: LuaHost>(l: &mut LuaState, h: &mut H, binop: &Expr) -> (r: Result<
    Value,
    LuaError,
>)
    requires
        old(l).wf(),
    ensures
        evolves(*old(l), *final(l)),
        r is Ok ==> final(l).reg.top == old(l).reg.top,
        !(binop matches Expr::Binop(_, _, _)) ==> r is Err && *final(l) == *old(l),
        (match *binop {
            Expr::Binop(_, op, _) => spec_binop_char(op.0.token_type) is None ==> r is Err
                && *final(l) == *old(l),
            _ => true,
        }),
        literal_binop_spec(*old(l), *final(l), *binop, r),
        (binop matches Expr::Binop(_, _, _) && lit_eval(*binop) is Some) ==> r
            == Result::<Value, LuaError>::Ok(lit_eval(*binop)->0) && *final(l) == *old(l),
    decreases l.budget, expr_kinds(*binop).len() + 1, 2int,
{
    match binop {
        Expr::Binop(lhs, op, rhs) => {
            let c = match binop_char(op.0.token_type) {
                Some(c) => c,
                None => {
                    return Err(l.error("unsupported binary operator"));
                },
            };
            let ghost pre = *l;
            let lvalue = eval_exp(l, h, lhs)?;
            let ghost mid = *l;
            let rstep = eval_exp(l, h, rhs);
            proof {
                lemma_evolves_trans(pre, mid, *l);
            }
            let rvalue = rstep?;
            let res = l.process_op(c, lvalue, rvalue);
            proof {
                if lit_eval(*binop) is Some {
                    assert(lit_eval(**lhs) is Some);
                    assert(lvalue == lit_eval(**lhs)->0);
                    assert(lit_eval(**rhs) is Some);
                    assert(rvalue == lit_eval(**rhs)->0);
                    assert(lit_eval(*binop) == crate::state::spec_op(c, lvalue, rvalue));
                }
            }
            res
        },
        _ => Err(l.error("not a binary operator expression")),
    }
}

/// What a name resolves to: the local of the current frame when the
/// frame binds it (a binding to a slot that is no longer live is an
/// error, never a silent fall-through), else the global of that name.
pub open spec fn spec_var_value(l: LuaState, nm: Seq<char>) -> Option<Value> {
    if l.frame_stack@.len() > 0 && lookup_env(l.frame_stack@.last().env@, nm) is Some {
        if lookup_env(l.frame_stack@.last().env@, nm)->0 < l.reg.array@.len() {
            Option::Some(l.reg.array@[lookup_env(l.frame_stack@.last().env@, nm)->0 as int])
        } else {
            Option::None
        }
    } else if l.globals().dom().contains(nm) {
        Option::Some(l.globals()[nm])
    } else {
        Option::None
    }
}

/// Resolve a variable: a local of the current frame first, then a
/// global; a name bound nowhere, or bound to a slot that is no longer
/// live, is a runtime error. Indexed and member variables are outside
/// the engine's scope.
pub fn eval_get_var(l: &mut LuaState, v: &Var) -> (r: Result<Value, LuaError>)
    requires
        old(l).wf(),
    ensures
        *final(l) == *old(l),
        evolves(*old(l), *final(l)),
        match *v {
            Var::VarName(t) => (match spec_var_value(*old(l), t.lexeme@) {
                Option::Some(w) => r == Result::<Value, LuaError>::Ok(w),
                Option::None => r is Err,
            }),
            _ => r is Err,
        },
{
    match v {
        Var::VarName(t) => {
            let name = t.lexeme.as_str();
            if l.has_local_name(name) {
                match l.get_local(name) {
                    Some(v) => Ok(v),
                    None => Err(l.error("local binding refers to a dropped registry slot")),
                }
            } else {
                match l.get_global(name) {
                    Some(v) => Ok(v),
                    None => Err(l.error("variable not found")),
                }
            }
        },
        _ => Err(l.error("indexed variables are not implemented")),
    }
}

/// Evaluate a prefix expression: a call, a variable, or a
/// parenthesized expression.
pub fn eval_prefixexp<H: LuaHost>(l: &mut LuaState, h: &mut H, pexp: &PrefixExp) -> (r: Result<
    Value,
    LuaError,
>)
    requires
        old(l).wf(),
    ensures
        evolves(*old(l), *final(l)),
        r is Ok ==> final(l).reg.top == old(l).reg.top,
        (match *pexp {
            PrefixExp::PrefixVar(v) => *final(l) == *old(l) && (match *v {
                Var::VarName(t) => (match spec_var_value(*old(l), t.lexeme@) {
                    Option::Some(w) => r == Result::<Value, LuaError>::Ok(w),
                    Option::None => r is Err,
                }),
                _ => r is Err,
            }),
            PrefixExp::PrefixParen(e) => literal_binop_spec(*old(l), *final(l), *e, r) && (match
                lit_eval(*e) {
                Option::Some(v) => r == Result::<Value, LuaError>::Ok(v) && *final(l) == *old(l),
                Option::None => true,
            }),
            _ => true,
        }),
    decreases l.budget, prefixexp_kinds(*pexp).len() + 1, 2int,
{
    match pexp {
        PrefixExp::PrefixCall(fc) => eval_funcall(l, h, fc),
        PrefixExp::PrefixVar(v) => eval_get_var(l, v),
        PrefixExp::PrefixParen(e) => eval_exp(l, h, e),
    }
}

/// The plain name a call dispatches on, where its callee is one.
pub open spec fn callee_name(fc: FunctionCall) -> Option<Seq<char>> {
    match *fc.0 {
        PrefixExp::PrefixVar(v) => match *v {
            Var::VarName(t) => Option::Some(t.lexeme@),
            _ => Option::None,
        },
        _ => Option::None,
    }
}

/// Evaluate a function call: the callee must be a plain name, the
/// arguments at most one expression (the calling convention passes a
/// single value; a call with empty parentheses passes nil). The callee
/// is resolved among the globals and dispatched through the calling
/// convention.
pub fn eval_funcall<H: LuaHost>(l: &mut LuaState, h: &mut H, fc: &FunctionCall) -> (r: Result<
    Value,
    LuaError,
>)
    requires
        old(l).wf(),
    ensures
        evolves(*old(l), *final(l)),
        r is Ok ==> final(l).reg.top == old(l).reg.top,
        callee_name(*fc) is None ==> r is Err && *final(l) == *old(l),
        fc.1 is Some ==> r is Err && *final(l) == *old(l),
        !(fc.2 is ArgsList) ==> r is Err && *final(l) == *old(l),
        (match fc.2 {
            Args::ArgsList(el) => {
                &&& (el.0@.len() > 1 ==> r is Err && *final(l) == *old(l))
                &&& (match callee_name(*fc) {
                    Option::Some(nm) => (el.0@.len() == 0 && fc.1 is None && !old(
                        l,
                    ).globals().dom().contains(nm)) ==> r is Err,
                    Option::None => true,
                })
            },
            _ => true,
        }),
    decreases l.budget, funcall_kinds(*fc).len() + 1, 1int,
{
    let name_tok = match &*fc.0 {
        PrefixExp::PrefixVar(v) => match &**v {
            Var::VarName(t) => t,
            _ => {
                return Err(l.error("only calls to plain names are implemented"));
            },
        },
        _ => {
            return Err(l.error("only calls to plain names are implemented"));
        },
    };
    if fc.1.is_some() {
        return Err(l.error("method calls are not implemented"));
    }
    match &fc.2 {
        Args::ArgsList(el) => {
            if el.0.len() == 0 {
                let name = name_tok.lexeme.as_str();
                global_funcall1_entry(l, h, name, Value::Nil)
            } else if el.0.len() == 1 {
                let ghost pre = *l;
                proof {
                    lemma_exprs_kinds_member(el.0@, 0);
                    assert(args_kinds(fc.2).len() == exprs_kinds(el.0@).len() + 2);
                    assert(funcall_kinds(*fc).len() >= args_kinds(fc.2).len());
                }
                let arg1 = eval_exp(l, h, &el.0[0])?;
                let ghost mid = *l;
                let name = name_tok.lexeme.as_str();
                let res = global_funcall1_entry(l, h, name, arg1);
                proof {
                    lemma_evolves_trans(pre, mid, *l);
                }
                res
            } else {
                Err(l.error("calls take at most one argument"))
            }
        },
        _ => Err(l.error("only parenthesized call arguments are implemented")),
    }
}

/// The bridge from expression evaluation into the calling convention.
fn global_funcall1_entry<H: LuaHost>(l: &mut LuaState, h: &mut H, name: &str, arg1: Value) -> (r:
    Result<Value, LuaError>)
    requires
        old(l).wf(),
    ensures
        evolves(*old(l), *final(l)),
        r is Ok ==> final(l).reg.top == old(l).reg.top,
        !old(l).globals().dom().contains(name@) ==> r is Err,
        (old(l).globals().dom().contains(name@) && !(old(l).globals()[name@] is Function)) ==> r
            is Err,
    decreases l.budget, 0int, 2int,
{
    let r = l.global_funcall1(h, name, arg1);
    proof {
        lemma_evolves_from_prefix(*old(l), *l);
    }
    r
}

/// The single name a function declaration binds. Dotted paths and
/// method names are outside the engine's scope.
pub fn process_funcname(_l: &mut LuaState, fname: &FuncName) -> (r: Result<String, LuaError>)
    ensures
        *final(_l) == *old(_l),
        match r {
            Ok(s) => fname.0@.len() == 1 && fname.1 is None && s@ == fname.0@[0].lexeme@,
            Err(_) => fname.0@.len() != 1 || fname.1 is Some,
        },
{
    if fname.0.len() != 1 {
        return Err(LuaError { message: msg_string("dotted function names are not implemented") });
    }
    if fname.1.is_some() {
        return Err(LuaError { message: msg_string("method definitions are not implemented") });
    }
    Ok(fname.0[0].lexeme.clone())
}

/// The declared parameter names of a function body.
#[verifier::loop_isolation(false)]
pub fn process_params(_l: &mut LuaState, params: &ParamList) -> (r: Result<Vec<String>, LuaError>)
    ensures
        *final(_l) == *old(_l),
        r matches Ok(v) && v@.len() == params.0.0@.len() && (forall|i: int|
            0 <= i < v@.len() ==> v@[i]@ == params.0.0@[i].lexeme@),
{
    let n = params.0.0.len();
    let mut v: Vec<String> = Vec::new();
    let mut i: usize = 0;
    while i < n
        invariant
            i <= n,
            n == params.0.0@.len(),
            v@.len() == i,
            forall|j: int| 0 <= j < i ==> v@[j]@ == params.0.0@[j].lexeme@,
        decreases n - i,
    {
        v.push(params.0.0[i].lexeme.clone());
        i = i + 1;
    }
    Ok(v)
}

/// A function body taken apart for registration: its parameter names
/// and its shared block.
pub fn eval_funcbody(l: &mut LuaState, fb: &FuncBody) -> (r: Result<
    (Vec<String>, Rc<Block>),
    LuaError,
>)
    ensures
        *final(l) == *old(l),
        r matches Ok(p) && p.1 == fb.1 && p.0@.len() == fb.0.0.0@.len() && (forall|i: int|
            0 <= i < p.0@.len() ==> p.0@[i]@ == fb.0.0.0@[i].lexeme@),
{
    let params = process_params(l, &fb.0)?;
    let code = share_rc(&fb.1);
    Ok((params, code))
}

/// What a chunk (or block) whose one statement is an assignment must
/// have done on success.
pub open spec fn first_stat_effect(pre: LuaState, post: LuaState, st: Stat) -> bool {
    match st {
        Stat::Assign(vl, el) => (vl.0@.len() == 1 && el.0@.len() == 1) ==> assign_stat_spec(
            pre,
            post,
            vl,
            el,
            Result::<Value, LuaError>::Ok(Value::Nil),
        ),
        _ => true,
    }
}

/// What evaluating a chunk that consists of a bare `return` of a
/// numeric literal must yield: the literal's value, the state
/// untouched — or the error where the literal does not parse.
pub open spec fn literal_return_spec(
    pre: LuaState,
    post: LuaState,
    c: Chunk,
    r: Result<Value, LuaError>,
) -> bool {
    c.0@.len() == 0 ==> (match c.1 {
        Option::Some(LastStat::Return(Option::Some(el))) => el.0@.len() == 1 ==> (match el.0@[0] {
            Expr::Number(t) => post == pre && (match spec_parse_number(t.lexeme@) {
                Option::Some(n) => r == Result::<Value, LuaError>::Ok(Value::Number(n)),
                Option::None => r is Err,
            }),
            _ => true,
        }),
        _ => true,
    })
}

/// Evaluate a chunk: its statements in order, then its final
/// statement. A `return` yields the value of its (single) expression,
/// or nil without one; a chunk that falls through yields nil.
#[verifier::loop_isolation(false)]
pub fn eval_chunk<H: LuaHost>(l: &mut LuaState, h: &mut H, chunk: &Chunk) -> (r: Result<
    Value,
    LuaError,
>)
    requires
        old(l).wf(),
    ensures
        evolves(*old(l), *final(l)),
        (chunk.0@.len() == 0 && chunk.1 is None) ==> r == Result::<Value, LuaError>::Ok(Value::Nil)
            && *final(l) == *old(l),
        (chunk.1 is None && r is Ok) ==> r == Result::<Value, LuaError>::Ok(Value::Nil),
        (chunk.0@.len() == 0 && chunk.1 matches Option::Some(LastStat::Break)) ==> r is Err
            && *final(l) == *old(l),
        literal_return_spec(*old(l), *final(l), *chunk, r),
        (chunk.0@.len() == 1 && chunk.1 is None && r is Ok) ==> first_stat_effect(
            *old(l),
            *final(l),
            chunk.0@[0],
        ),
    decreases l.budget, chunk_kinds(*chunk).len() + 1, 5int,
{
    let ghost pre = *l;
    let n = chunk.0.len();
    let mut i: usize = 0;
    while i < n
        invariant
            i <= n,
            n == chunk.0@.len(),
            l.wf(),
            evolves(pre, *l),
            i == 0 ==> *l == pre,
            i == 1 ==> first_stat_effect(pre, *l, chunk.0@[0]),
            l.budget <= pre.budget,
        decreases n - i,
    {
        let ghost mid = *l;
        proof {
            lemma_stats_kinds_member(chunk.0@, i as int);
            assert(chunk_kinds(*chunk).len() >= stats_kinds(chunk.0@).len());
        }
        let step = eval_stat(l, h, &chunk.0[i]);
        proof {
            lemma_evolves_trans(pre, mid, *l);
        }
        if let Err(e) = step {
            return Err(e);
        }
        i = i + 1;
    }
    match &chunk.1 {
        None => Ok(Value::Nil),
        Some(last) => {
            match last {
                LastStat::Break => Err(l.error("break is not implemented")),
                LastStat::Return(None) => Ok(Value::Nil),
                LastStat::Return(Some(el)) => {
                    if el.0.len() == 0 {
                        Ok(Value::Nil)
                    } else if el.0.len() == 1 {
                        let ghost mid = *l;
                        proof {
                            lemma_exprs_kinds_member(el.0@, 0);
                            assert(chunk.1 == Option::Some(LastStat::Return(Option::Some(*el))));
                            assert(laststat_kinds(LastStat::Return(Option::Some(*el))).len()
                                == exprs_kinds(el.0@).len() + 1);
                            assert(chunk_kinds(*chunk).len() >= laststat_kinds(
                                LastStat::Return(Option::Some(*el)),
                            ).len());
                        }
                        let v = eval_exp(l, h, &el.0[0]);
                        proof {
                            lemma_evolves_trans(pre, mid, *l);
                        }
                        v
                    } else {
                        Err(l.error("multiple return values are not implemented"))
                    }
                },
            }
        },
    }
}

/// Whether an assignment to `nm` can land: at top level always (it
/// stores a global); inside a frame, an existing binding must refer
/// to a live slot of this frame.
pub open spec fn assign_target_live(pre: LuaState, nm: Seq<char>) -> bool {
    if pre.frame_stack@.len() == 0 {
        true
    } else {
        match lookup_env(pre.frame_stack@.last().env@, nm) {
            Option::Some(idx) => pre.frame_stack@.last().local_base <= idx && idx < pre.reg.array@.len(),
            Option::None => true,
        }
    }
}

/// What an assignment of `v` to `nm` does to the state: a global
/// store at top level; inside a frame, a store into the live slot of
/// the local of that name, or — for a name the frame does not bind — a
/// fresh local binding (declaration on first assignment).
pub open spec fn assign_effect(pre: LuaState, post: LuaState, nm: Seq<char>, v: Value) -> bool {
    &&& post.tables == pre.tables
    &&& post.budget == pre.budget
    &&& if pre.frame_stack@.len() == 0 {
        &&& post.globals() == pre.globals().insert(nm, v)
        &&& post.reg == pre.reg
        &&& post.frame_stack == pre.frame_stack
    } else {
        match lookup_env(pre.frame_stack@.last().env@, nm) {
            Option::Some(idx) => {
                &&& post.reg.array@ == pre.reg.array@.update(idx as int, v)
                &&& post.reg.top == pre.reg.top
                &&& post.globals() == pre.globals()
                &&& post.frame_stack == pre.frame_stack
            },
            Option::None => {
                &&& post.reg.array@ == pre.reg.array@.push(v)
                &&& post.reg.top == pre.reg.top + 1
                &&& post.globals() == pre.globals()
                &&& same_frames_but_top(pre.frame_stack@, post.frame_stack@)
                &&& lookup_env(post.frame_stack@.last().env@, nm) == Option::Some(
                    pre.reg.top as usize,
                )
            },
        }
    }
}

/// What a single assignment statement with target `vl` and sources
/// `el` (each of length one) must have done: for a numeric-literal
/// right-hand side the landing place and the stored value are pinned
/// exactly; a target that is not a plain name is an error.
pub open spec fn assign_stat_spec(
    pre: LuaState,
    post: LuaState,
    vl: VarList,
    el: ExprList,
    r: Result<Value, LuaError>,
) -> bool {
    match (vl.0@[0], el.0@[0]) {
        (Var::VarName(nt), Expr::Number(t)) => (match spec_parse_number(t.lexeme@) {
            Option::Some(n) => {
                if assign_target_live(pre, nt.lexeme@) {
                    r == Result::<Value, LuaError>::Ok(Value::Nil) && assign_effect(
                        pre,
                        post,
                        nt.lexeme@,
                        Value::Number(n),
                    )
                } else {
                    r is Err
                }
            },
            Option::None => r is Err,
        }),
        (Var::VarName(_), _) => true,
        _ => r is Err,
    }
}

/// Evaluate one statement. Assignment stores a global at top level
/// and, inside a call frame, a local: an already-declared local's
/// slot is overwritten, and an unbound name becomes a fresh local of
/// the frame (declaration on first assignment). A bare call
/// evaluates for its effects; a function declaration builds a
/// prototype and registers it among the globals; a local declaration
/// binds frame locals. The looping and branching statement forms are
/// outside the engine's scope and are runtime errors, not crashes.
#[verifier::loop_isolation(false)]
pub fn eval_stat<H: LuaHost>(l: &mut LuaState, h: &mut H, stat: &Stat) -> (r: Result<
    Value,
    LuaError,
>)
    requires
        old(l).wf(),
    ensures
        evolves(*old(l), *final(l)),
        stat matches Stat::Do(_) ==> r is Err,
        stat matches Stat::While(_, _) ==> r is Err,
        stat matches Stat::Repeat(_, _) ==> r is Err,
        stat matches Stat::If(_, _, _, _) ==> r is Err,
        stat matches Stat::For(_, _, _, _, _) ==> r is Err,
        stat matches Stat::ForIn(_, _, _) ==> r is Err,
        stat matches Stat::LocalFunction(_, _) ==> r is Err,
        (match *stat {
            Stat::Function(fname, fb) => {
                &&& (r is Ok ==> {
                    &&& fname.0@.len() == 1
                    &&& final(l).globals().dom().contains(fname.0@[0].lexeme@)
                    &&& (match final(l).globals()[fname.0@[0].lexeme@] {
                        Value::Function(f) => {
                            &&& f.luafn is None
                            &&& f.proto.code == fb.1
                            &&& f.proto.parameters@.len() == fb.0.0.0@.len()
                            &&& (forall|i: int|
                                0 <= i < f.proto.parameters@.len()
                                    ==> f.proto.parameters@[i]@ == fb.0.0.0@[i].lexeme@)
                        },
                        _ => false,
                    })
                    &&& r == Result::<Value, LuaError>::Ok(Value::Nil)
                })
                &&& (fname.0@.len() != 1 || fname.1 is Some ==> r is Err)
                &&& ((fname.0@.len() == 1 && fname.1 is None && fb.0.0.0@.len() <= 2147483647)
                    ==> r is Ok)
            },
            Stat::Assign(vl, el) => {
                &&& (r is Ok ==> r == Result::<Value, LuaError>::Ok(Value::Nil) && vl.0@.len() == 1
                    && el.0@.len() == 1)
                &&& (vl.0@.len() != 1 || el.0@.len() != 1 ==> r is Err)
                &&& (vl.0@.len() == 1 && el.0@.len() == 1 ==> assign_stat_spec(
                    *old(l),
                    *final(l),
                    vl,
                    el,
                    r,
                ))
            },
            Stat::LocalDeclVar(_, elo) => {
                &&& (r is Ok ==> r == Result::<Value, LuaError>::Ok(Value::Nil))
                &&& (elo is None ==> r == Result::<Value, LuaError>::Ok(Value::Nil))
            },
            _ => true,
        }),
    decreases l.budget, stat_kinds(*stat).len() + 1, 4int,
{
    match stat {
        Stat::Assign(vl, el) => {
            if vl.0.len() != 1 || el.0.len() != 1 {
                return Err(l.error("only single assignments are implemented"));
            }
            let name_tok = match &vl.0[0] {
                Var::VarName(t) => t,
                _ => {
                    return Err(l.error("only assignments to plain names are implemented"));
                },
            };
            proof {
                lemma_exprs_kinds_member(el.0@, 0);
            }
            let ghost pre = *l;
            let value = eval_exp(l, h, &el.0[0])?;
            let ghost mid = *l;
            let name = name_tok.lexeme.as_str();
            if l.has_local_name(name) {
                // an already-declared local: store into its live slot
                if !l.set_local(name, value) {
                    return Err(l.error("local binding refers to a dropped registry slot"));
                }
                proof {
                    assert(l.reg.array@.take(frame_floor(mid)) =~= mid.reg.array@.take(
                        frame_floor(mid),
                    ));
                    assert(evolves(mid, *l));
                    lemma_evolves_trans(pre, mid, *l);
                }
            } else if l.frame_stack.len() > 0 {
                // inside a frame an unbound name becomes a fresh local
                l.assign_local(name, value);
                proof {
                    lemma_evolves_from_prefix(mid, *l);
                    lemma_evolves_trans(pre, mid, *l);
                }
            } else {
                l.assign_global(name, value);
                proof {
                    lemma_evolves_from_prefix(mid, *l);
                    lemma_evolves_trans(pre, mid, *l);
                }
            }
            Ok(Value::Nil)
        },
        Stat::FunctionCall(fc) => eval_funcall(l, h, fc),
        Stat::Function(fname, fb) => {
            let name = process_funcname(l, fname)?;
            let (params, code) = eval_funcbody(l, fb)?;
            if params.len() > 2147483647 {
                return Err(l.error("too many parameters"));
            }
            l.register_global_code(name.as_str(), params, code);
            Ok(Value::Nil)
        },
        Stat::LocalDeclVar(nl, el) => {
            let n = nl.0.len();
            let ghost pre = *l;
            let mut i: usize = 0;
            while i < n
                invariant
                    i <= n,
                    n == nl.0@.len(),
                    l.wf(),
                    evolves(pre, *l),
                decreases n - i,
            {
                let ghost mid = *l;
                let value: Value = match el {
                    Some(es) => {
                        if i < es.0.len() {
                            proof {
                                lemma_exprs_kinds_member(es.0@, i as int);
                                assert(stat_kinds(*stat).len() >= exprs_kinds(es.0@).len() + 1);
                            }
                            let vstep = eval_exp(l, h, &es.0[i]);
                            proof {
                                lemma_evolves_trans(pre, mid, *l);
                            }
                            vstep?
                        } else {
                            Value::Nil
                        }
                    },
                    None => Value::Nil,
                };
                let ghost mid2 = *l;
                l.assign_local(nl.0[i].lexeme.as_str(), value);
                proof {
                    lemma_evolves_from_prefix(mid2, *l);
                    lemma_evolves_trans(mid, mid2, *l);
                    lemma_evolves_trans(pre, mid, *l);
                }
                i = i + 1;
            }
            Ok(Value::Nil)
        },
        Stat::Do(_) => Err(l.error("do blocks are not implemented")),
        Stat::While(_, _) => Err(l.error("while loops are not implemented")),
        Stat::Repeat(_, _) => Err(l.error("repeat loops are not implemented")),
        Stat::If(_, _, _, _) => Err(l.error("if statements are not implemented")),
        Stat::For(_, _, _, _, _) => Err(l.error("numeric for loops are not implemented")),
        Stat::ForIn(_, _, _) => Err(l.error("generic for loops are not implemented")),
        Stat::LocalFunction(_, _) => Err(l.error("local functions are not implemented")),
    }
}

/// Evaluate a block: exactly its chunk, with the chunk's guarantees.
pub fn eval_block<H: LuaHost>(l: &mut LuaState, h: &mut H, block: &Block) -> (r: Result<
    Value,
    LuaError,
>)
    requires
        old(l).wf(),
    ensures
        evolves(*old(l), *final(l)),
        (block.0.0@.len() == 0 && block.0.1 is None) ==> r == Result::<Value, LuaError>::Ok(
            Value::Nil,
        ) && *final(l) == *old(l),
        (block.0.1 is None && r is Ok) ==> r == Result::<Value, LuaError>::Ok(Value::Nil),
        literal_return_spec(*old(l), *final(l), block.0, r),
        (block.0.0@.len() == 1 && block.0.1 is None && r is Ok) ==> first_stat_effect(
            *old(l),
            *final(l),
            block.0.0@[0],
        ),
    decreases l.budget, crate::parser::ast::block_kinds(*block).len() + 1, 6int,
{
    eval_chunk(l, h, &block.0)
}

} // verus!
