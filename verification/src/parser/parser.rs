//! The recursive-descent parser, one function per grammar production.
//!
//! Statement alternatives are tried in a fixed order with backtracking:
//! a production that fails restores the cursor to where it began. Each
//! successful production consumes exactly the tokens whose kinds are
//! the frontier of the node it returns.

use vstd::prelude::*;

use crate::parser::ast::{
    Args, Binop, Block, Chunk, Expr, Field, FieldList, Fieldsep, FuncBody, FuncName, Function,
    FunctionCall, LastStat, NameList, ParamList, PrefixExp, Stat, TableConstructor, Unop, Var,
    VarList, ExprList,
};
use crate::parser::ast::{
    args_kinds, block_kinds, chunk_kinds, commaed_names_kinds, elifs_kinds, expr_kinds,
    exprlist_kinds, exprs_kinds, field_kinds, fieldlist_kinds, fields_kinds, funcall_kinds,
    funcbody_kinds, funcname_kinds, laststat_kinds, namelist_kinds, names_kinds, paramlist_kinds,
    prefixexp_kinds, stat_kinds, stats_kinds, tc_kinds, var_kinds, varlist_kinds, vars_kinds,
};
use crate::parser::stream::{TokenStream, TokenStreamError};
use crate::scanner::Token;
use crate::token_type::TokenType;

verus! {

/// The kind projection of a token sequence.
pub open spec fn tok_kinds(ts: Seq<Token>) -> Seq<TokenType> {
    ts.map_values(|t: Token| t.token_type)
}

proof fn lemma_kinds_split(s: Seq<Token>, a: int, b: int, c: int)
    requires
        0 <= a <= b <= c <= s.len(),
    ensures
        tok_kinds(s.subrange(a, c)) == tok_kinds(s.subrange(a, b)) + tok_kinds(s.subrange(b, c)),
{
    assert(tok_kinds(s.subrange(a, c)) =~= tok_kinds(s.subrange(a, b)) + tok_kinds(
        s.subrange(b, c),
    ));
}

proof fn lemma_kinds_one(s: Seq<Token>, a: int)
    requires
        0 <= a < s.len(),
    ensures
        tok_kinds(s.subrange(a, a + 1)) == seq![s[a].token_type],
{
    assert(tok_kinds(s.subrange(a, a + 1)) =~= seq![s[a].token_type]);
}

/// The token kinds that can begin a literal expression alternative.
pub open spec fn is_literal_start(k: TokenType) -> bool {
    ||| k == TokenType::Nil
    ||| k == TokenType::False
    ||| k == TokenType::True
    ||| k == TokenType::Int
    ||| k == TokenType::Float
    ||| k == TokenType::StringLit
    ||| k == TokenType::Dots
}

/// The kind of the next token of the stream, if any.
pub open spec fn next_kind(ts: TokenStream) -> Option<TokenType> {
    if ts.position < ts.input@.len() {
        Option::Some(ts.input@[ts.position as int].token_type)
    } else {
        Option::None
    }
}

/// Whether every operator chain along the left spine of an expression
/// is left-associated: a chain's right operand is never itself a
/// chain. This is the flat, single-level precedence the parser builds.
pub open spec fn left_chained(e: Expr) -> bool
    decreases e,
{
    match e {
        Expr::Binop(lhs, _, rhs) => left_chained(*lhs) && !(*rhs is Binop),
        _ => true,
    }
}

proof fn lemma_kinds_empty(s: Seq<Token>, a: int)
    requires
        0 <= a <= s.len(),
    ensures
        tok_kinds(s.subrange(a, a)) == Seq::<TokenType>::empty(),
{
    assert(tok_kinds(s.subrange(a, a)) =~= Seq::<TokenType>::empty());
}


// ------------------------------------------------------------------
// List-extension lemmas for the frontier functions
// ------------------------------------------------------------------

proof fn lemma_stats_kinds_push(ss: Seq<Stat>, st: Stat)
    ensures
        stats_kinds(ss.push(st)) == stats_kinds(ss) + stat_kinds(st),
    decreases ss.len(),
{
    if ss.len() == 0 {
        assert(ss.push(st)[0] == st);
        assert(ss.push(st).drop_first() =~= Seq::<Stat>::empty());
        assert(stats_kinds(ss.push(st)) == stat_kinds(st) + stats_kinds(Seq::<Stat>::empty()));
        assert(stat_kinds(st) + stats_kinds(Seq::<Stat>::empty()) =~= stat_kinds(st));
        assert(stats_kinds(ss) + stat_kinds(st) =~= stat_kinds(st));
    } else {
        lemma_stats_kinds_push(ss.drop_first(), st);
        assert(ss.push(st).drop_first() =~= ss.drop_first().push(st));
        assert(ss.push(st)[0] == ss[0]);
        assert(stat_kinds(ss[0]) + (stats_kinds(ss.drop_first()) + stat_kinds(st)) =~= (stat_kinds(
            ss[0],
        ) + stats_kinds(ss.drop_first())) + stat_kinds(st));
    }
}

proof fn lemma_elifs_kinds_push(es: Seq<(Box<Expr>, Block)>, e: (Box<Expr>, Block))
    ensures
        elifs_kinds(es.push(e)) == elifs_kinds(es) + seq![TokenType::Elseif] + expr_kinds(*e.0)
            + seq![TokenType::Then] + block_kinds(e.1),
    decreases es.len(),
{
    let one = seq![TokenType::Elseif] + expr_kinds(*e.0) + seq![TokenType::Then] + block_kinds(e.1);
    if es.len() == 0 {
        assert(es.push(e)[0] == e);
        assert(es.push(e).drop_first() =~= Seq::<(Box<Expr>, Block)>::empty());
        assert(elifs_kinds(es.push(e)) == seq![TokenType::Elseif] + expr_kinds(*es.push(e)[0].0)
            + seq![TokenType::Then] + block_kinds(es.push(e)[0].1) + elifs_kinds(
            Seq::<(Box<Expr>, Block)>::empty(),
        ));
        assert(seq![TokenType::Elseif] + expr_kinds(*e.0) + seq![TokenType::Then] + block_kinds(e.1)
            + elifs_kinds(Seq::<(Box<Expr>, Block)>::empty()) =~= one);
        assert(elifs_kinds(es) + seq![TokenType::Elseif] + expr_kinds(*e.0) + seq![TokenType::Then]
            + block_kinds(e.1) =~= one);
    } else {
        lemma_elifs_kinds_push(es.drop_first(), e);
        assert(es.push(e).drop_first() =~= es.drop_first().push(e));
        assert(es.push(e)[0] == es[0]);
        let head = seq![TokenType::Elseif] + expr_kinds(*es[0].0) + seq![TokenType::Then]
            + block_kinds(es[0].1);
        assert(elifs_kinds(es.push(e)) == head + (elifs_kinds(es.drop_first()) + seq![
            TokenType::Elseif,
        ] + expr_kinds(*e.0) + seq![TokenType::Then] + block_kinds(e.1)));
        assert(head + (elifs_kinds(es.drop_first()) + seq![TokenType::Elseif] + expr_kinds(*e.0)
            + seq![TokenType::Then] + block_kinds(e.1)) =~= elifs_kinds(es) + seq![
            TokenType::Elseif,
        ] + expr_kinds(*e.0) + seq![TokenType::Then] + block_kinds(e.1));
    }
}

proof fn lemma_exprs_kinds_push(es: Seq<Expr>, e: Expr)
    requires
        es.len() >= 1,
    ensures
        exprs_kinds(es.push(e)) == exprs_kinds(es) + seq![TokenType::Comma] + expr_kinds(e),
    decreases es.len(),
{
    if es.len() == 1 {
        assert(es.push(e)[0] == es[0]);
        assert(es.push(e).drop_first() =~= seq![e]);
        assert(exprs_kinds(seq![e]) == expr_kinds(e));
        assert(expr_kinds(es[0]) + seq![TokenType::Comma] + exprs_kinds(seq![e]) =~= exprs_kinds(es)
            + seq![TokenType::Comma] + expr_kinds(e));
    } else {
        lemma_exprs_kinds_push(es.drop_first(), e);
        assert(es.push(e).drop_first() =~= es.drop_first().push(e));
        assert(es.push(e)[0] == es[0]);
        assert(expr_kinds(es[0]) + seq![TokenType::Comma] + (exprs_kinds(es.drop_first()) + seq![
            TokenType::Comma,
        ] + expr_kinds(e)) =~= (expr_kinds(es[0]) + seq![TokenType::Comma] + exprs_kinds(
            es.drop_first(),
        )) + seq![TokenType::Comma] + expr_kinds(e));
    }
}

proof fn lemma_vars_kinds_push(vs: Seq<Var>, v: Var)
    requires
        vs.len() >= 1,
    ensures
        vars_kinds(vs.push(v)) == vars_kinds(vs) + seq![TokenType::Comma] + var_kinds(v),
    decreases vs.len(),
{
    if vs.len() == 1 {
        assert(vs.push(v)[0] == vs[0]);
        assert(vs.push(v).drop_first() =~= seq![v]);
        assert(vars_kinds(seq![v]) == var_kinds(v));
        assert(var_kinds(vs[0]) + seq![TokenType::Comma] + vars_kinds(seq![v]) =~= vars_kinds(vs)
            + seq![TokenType::Comma] + var_kinds(v));
    } else {
        lemma_vars_kinds_push(vs.drop_first(), v);
        assert(vs.push(v).drop_first() =~= vs.drop_first().push(v));
        assert(vs.push(v)[0] == vs[0]);
        assert(var_kinds(vs[0]) + seq![TokenType::Comma] + (vars_kinds(vs.drop_first()) + seq![
            TokenType::Comma,
        ] + var_kinds(v)) =~= (var_kinds(vs[0]) + seq![TokenType::Comma] + vars_kinds(
            vs.drop_first(),
        )) + seq![TokenType::Comma] + var_kinds(v));
    }
}

proof fn lemma_commaed_names_push(ns: Seq<Token>, n: Token)
    requires
        ns.len() >= 1,
    ensures
        commaed_names_kinds(ns.push(n)) == commaed_names_kinds(ns) + seq![
            TokenType::Comma,
            n.token_type,
        ],
    decreases ns.len(),
{
    if ns.len() == 1 {
        assert(ns.push(n)[0] == ns[0]);
        assert(ns.push(n).drop_first() =~= seq![n]);
        assert(commaed_names_kinds(ns.push(n)) == seq![ns[0].token_type, TokenType::Comma]
            + commaed_names_kinds(seq![n]));
        assert(commaed_names_kinds(seq![n]) == seq![n.token_type]);
        assert(seq![ns[0].token_type, TokenType::Comma] + seq![n.token_type]
            =~= commaed_names_kinds(ns) + seq![TokenType::Comma, n.token_type]);
    } else {
        lemma_commaed_names_push(ns.drop_first(), n);
        assert(ns.push(n).drop_first() =~= ns.drop_first().push(n));
        assert(ns.push(n)[0] == ns[0]);
        assert(seq![ns[0].token_type, TokenType::Comma] + (commaed_names_kinds(ns.drop_first())
            + seq![TokenType::Comma, n.token_type]) =~= (seq![ns[0].token_type, TokenType::Comma]
            + commaed_names_kinds(ns.drop_first())) + seq![TokenType::Comma, n.token_type]);
    }
}

proof fn lemma_names_kinds_push(ns: Seq<Token>, n: Token)
    requires
        ns.len() >= 1,
    ensures
        names_kinds(ns.push(n)) == names_kinds(ns) + seq![TokenType::Period, n.token_type],
    decreases ns.len(),
{
    if ns.len() == 1 {
        assert(ns.push(n)[0] == ns[0]);
        assert(ns.push(n).drop_first() =~= seq![n]);
        assert(names_kinds(ns.push(n)) == seq![ns[0].token_type, TokenType::Period] + names_kinds(
            seq![n],
        ));
        assert(names_kinds(seq![n]) == seq![n.token_type]);
        assert(seq![ns[0].token_type, TokenType::Period] + seq![n.token_type] =~= names_kinds(ns)
            + seq![TokenType::Period, n.token_type]);
    } else {
        lemma_names_kinds_push(ns.drop_first(), n);
        assert(ns.push(n).drop_first() =~= ns.drop_first().push(n));
        assert(ns.push(n)[0] == ns[0]);
        assert(seq![ns[0].token_type, TokenType::Period] + (names_kinds(ns.drop_first()) + seq![
            TokenType::Period,
            n.token_type,
        ]) =~= (seq![ns[0].token_type, TokenType::Period] + names_kinds(ns.drop_first())) + seq![
            TokenType::Period,
            n.token_type,
        ]);
    }
}

proof fn lemma_fields_kinds_push(fs: Seq<Field>, seps: Seq<Fieldsep>, sp: Fieldsep, f: Field)
    requires
        fs.len() == seps.len() + 1,
    ensures
        fields_kinds(fs.push(f), seps.push(sp)) == fields_kinds(fs, seps) + seq![sp.0.token_type]
            + field_kinds(f),
    decreases fs.len(),
{
    if fs.len() == 1 {
        assert(fs.push(f)[0] == fs[0]);
        assert(fs.push(f).drop_first() =~= seq![f]);
        assert(seps.push(sp).drop_first() =~= Seq::<Fieldsep>::empty());
        assert(seps.push(sp)[0] == sp);
        assert(fields_kinds(seq![f], Seq::<Fieldsep>::empty()) == field_kinds(f) + Seq::<
            TokenType,
        >::empty());
        assert(field_kinds(f) + Seq::<TokenType>::empty() =~= field_kinds(f));
        assert(field_kinds(fs[0]) + (seq![sp.0.token_type] + field_kinds(f)) =~= (field_kinds(fs[0])
            + Seq::<TokenType>::empty()) + seq![sp.0.token_type] + field_kinds(f));
    } else {
        lemma_fields_kinds_push(fs.drop_first(), seps.drop_first(), sp, f);
        assert(fs.push(f).drop_first() =~= fs.drop_first().push(f));
        assert(seps.push(sp).drop_first() =~= seps.drop_first().push(sp));
        assert(fs.push(f)[0] == fs[0]);
        assert(seps.push(sp)[0] == seps[0]);
        assert(field_kinds(fs[0]) + (seq![seps[0].0.token_type] + (fields_kinds(
            fs.drop_first(),
            seps.drop_first(),
        ) + seq![sp.0.token_type] + field_kinds(f))) =~= (field_kinds(fs[0]) + (seq![
            seps[0].0.token_type,
        ] + fields_kinds(fs.drop_first(), seps.drop_first()))) + seq![sp.0.token_type]
            + field_kinds(f));
    }
}

proof fn lemma_fields_kinds_trailing(fs: Seq<Field>, seps: Seq<Fieldsep>, sp: Fieldsep)
    requires
        fs.len() == seps.len() + 1,
    ensures
        fields_kinds(fs, seps.push(sp)) == fields_kinds(fs, seps) + seq![sp.0.token_type],
    decreases fs.len(),
{
    if fs.len() == 1 {
        assert(seps.push(sp)[0] == sp);
        assert(fs.drop_first() =~= Seq::<Field>::empty());
        assert(seps.push(sp).drop_first() =~= Seq::<Fieldsep>::empty());
        assert(fields_kinds(fs, seps.push(sp)) == field_kinds(fs[0]) + (seq![sp.0.token_type]
            + fields_kinds(Seq::<Field>::empty(), Seq::<Fieldsep>::empty())));
        assert(field_kinds(fs[0]) + (seq![sp.0.token_type] + Seq::<TokenType>::empty()) =~= (
        field_kinds(fs[0]) + Seq::<TokenType>::empty()) + seq![sp.0.token_type]);
    } else {
        lemma_fields_kinds_trailing(fs.drop_first(), seps.drop_first(), sp);
        assert(seps.push(sp).drop_first() =~= seps.drop_first().push(sp));
        assert(seps.push(sp)[0] == seps[0]);
        assert(field_kinds(fs[0]) + (seq![seps[0].0.token_type] + (fields_kinds(
            fs.drop_first(),
            seps.drop_first(),
        ) + seq![sp.0.token_type])) =~= (field_kinds(fs[0]) + (seq![seps[0].0.token_type]
            + fields_kinds(fs.drop_first(), seps.drop_first()))) + seq![sp.0.token_type]);
    }
}


// ------------------------------------------------------------------
// Leaf productions
// ------------------------------------------------------------------

/// var ::= Name  (indexing and member forms are handled through the
/// prefix-expression suffixes and are not produced here)
#[verifier::loop_isolation(false)]
fn var(ts: &mut TokenStream) -> (r: Result<Var, TokenStreamError>)
    requires
        old(ts).wf(),
    ensures
        final(ts).wf(),
        final(ts).input == old(ts).input,
        old(ts).position <= final(ts).position,
        match r {
            Ok(n) => old(ts).position < final(ts).position && tok_kinds(
                final(ts).input@.subrange(old(ts).position as int, final(ts).position as int),
            ) == var_kinds(n),
            Err(_) => final(ts).position == old(ts).position,
        },
        r is Ok <==> next_kind(*old(ts)) == Option::Some(TokenType::Name),
    decreases ts.input@.len() - ts.position, 1int,
{
    let ghost p0 = ts.position as int;
    let t = ts.expect(TokenType::Name)?;
    proof {
        lemma_kinds_one(ts.input@, p0);
    }
    Ok(Var::VarName(t))
}

/// The literal alternatives of `exp`: nil, false, true, a number, a
/// string, `...`.
#[verifier::loop_isolation(false)]
fn expr_upper(ts: &mut TokenStream) -> (r: Result<Expr, TokenStreamError>)
    requires
        old(ts).wf(),
    ensures
        final(ts).wf(),
        final(ts).input == old(ts).input,
        old(ts).position <= final(ts).position,
        match r {
            Ok(n) => old(ts).position < final(ts).position && tok_kinds(
                final(ts).input@.subrange(old(ts).position as int, final(ts).position as int),
            ) == expr_kinds(n),
            Err(_) => final(ts).position == old(ts).position,
        },
        r is Ok <==> (match next_kind(*old(ts)) {
            Option::Some(k) => is_literal_start(k),
            Option::None => false,
        }),
        (match r {
            Ok(n) => !(n is Binop),
            Err(_) => true,
        }),
    decreases ts.input@.len() - ts.position, 1int,
{
    let ghost p0 = ts.position as int;
    if ts.check(TokenType::Nil) {
        let _t = ts.expect(TokenType::Nil)?;
        proof {
            lemma_kinds_one(ts.input@, p0);
        }
        Ok(Expr::Nil)
    } else if ts.check(TokenType::False) {
        let _t = ts.expect(TokenType::False)?;
        proof {
            lemma_kinds_one(ts.input@, p0);
        }
        Ok(Expr::False)
    } else if ts.check(TokenType::True) {
        let _t = ts.expect(TokenType::True)?;
        proof {
            lemma_kinds_one(ts.input@, p0);
        }
        Ok(Expr::True)
    } else if ts.check(TokenType::Int) {
        let t = ts.expect(TokenType::Int)?;
        proof {
            lemma_kinds_one(ts.input@, p0);
        }
        Ok(Expr::Number(t))
    } else if ts.check(TokenType::Float) {
        let t = ts.expect(TokenType::Float)?;
        proof {
            lemma_kinds_one(ts.input@, p0);
        }
        Ok(Expr::Number(t))
    } else if ts.check(TokenType::StringLit) {
        let t = ts.expect(TokenType::StringLit)?;
        proof {
            lemma_kinds_one(ts.input@, p0);
        }
        Ok(Expr::String(t))
    } else if ts.check(TokenType::Dots) {
        let _t = ts.expect(TokenType::Dots)?;
        proof {
            lemma_kinds_one(ts.input@, p0);
        }
        Ok(Expr::Dots)
    } else {
        Err(TokenStreamError::empty(ts.position))
    }
}

/// unop ::= `-` | not | `#`
#[verifier::loop_isolation(false)]
fn unop(ts: &mut TokenStream) -> (r: Result<Unop, TokenStreamError>)
    requires
        old(ts).wf(),
    ensures
        final(ts).wf(),
        final(ts).input == old(ts).input,
        old(ts).position <= final(ts).position,
        match r {
            Ok(n) => old(ts).position < final(ts).position && tok_kinds(
                final(ts).input@.subrange(old(ts).position as int, final(ts).position as int),
            ) == seq![n.0.token_type],
            Err(_) => final(ts).position == old(ts).position,
        },
    decreases ts.input@.len() - ts.position, 1int,
{
    let ghost p0 = ts.position as int;
    let k = if ts.check(TokenType::Minus) {
        TokenType::Minus
    } else if ts.check(TokenType::Not) {
        TokenType::Not
    } else if ts.check(TokenType::Opus) {
        TokenType::Opus
    } else {
        return Err(TokenStreamError::empty(ts.position));
    };
    let t = ts.expect(k)?;
    proof {
        lemma_kinds_one(ts.input@, p0);
    }
    Ok(Unop(t))
}

/// binop ::= `+` | `-` | `*` | `/` | `%` | `^` | `..` | `<` | `<=` |
/// `>` | `>=` | `==` | `~=` | and | or
#[verifier::loop_isolation(false)]
fn binop(ts: &mut TokenStream) -> (r: Result<Binop, TokenStreamError>)
    requires
        old(ts).wf(),
    ensures
        final(ts).wf(),
        final(ts).input == old(ts).input,
        old(ts).position <= final(ts).position,
        match r {
            Ok(n) => old(ts).position < final(ts).position && tok_kinds(
                final(ts).input@.subrange(old(ts).position as int, final(ts).position as int),
            ) == seq![n.0.token_type],
            Err(_) => final(ts).position == old(ts).position,
        },
    decreases ts.input@.len() - ts.position, 1int,
{
    let ghost p0 = ts.position as int;
    let k = if ts.check(TokenType::Plus) {
        TokenType::Plus
    } else if ts.check(TokenType::Minus) {
        TokenType::Minus
    } else if ts.check(TokenType::Aster) {
        TokenType::Aster
    } else if ts.check(TokenType::Slash) {
        TokenType::Slash
    } else if ts.check(TokenType::Perc) {
        TokenType::Perc
    } else if ts.check(TokenType::Hat) {
        TokenType::Hat
    } else if ts.check(TokenType::Concat) {
        TokenType::Concat
    } else if ts.check(TokenType::And) {
        TokenType::And
    } else if ts.check(TokenType::Or) {
        TokenType::Or
    } else if ts.check(TokenType::Eql) {
        TokenType::Eql
    } else if ts.check(TokenType::Ne) {
        TokenType::Ne
    } else if ts.check(TokenType::Less) {
        TokenType::Less
    } else if ts.check(TokenType::Le) {
        TokenType::Le
    } else if ts.check(TokenType::Greater) {
        TokenType::Greater
    } else if ts.check(TokenType::Ge) {
        TokenType::Ge
    } else {
        return Err(TokenStreamError::empty(ts.position));
    };
    let t = ts.expect(k)?;
    proof {
        lemma_kinds_one(ts.input@, p0);
    }
    Ok(Binop(t))
}

/// exp, one tier: a literal, or one of the structured alternatives.
#[verifier::loop_isolation(false)]
fn expr(ts: &mut TokenStream) -> (r: Result<Expr, TokenStreamError>)
    requires
        old(ts).wf(),
    ensures
        final(ts).wf(),
        final(ts).input == old(ts).input,
        old(ts).position <= final(ts).position,
        match r {
            Ok(n) => old(ts).position < final(ts).position && tok_kinds(
                final(ts).input@.subrange(old(ts).position as int, final(ts).position as int),
            ) == expr_kinds(n),
            Err(_) => final(ts).position == old(ts).position,
        },
        (match next_kind(*old(ts)) {
            Option::Some(k) => is_literal_start(k) ==> r is Ok,
            Option::None => r is Err,
        }),
        (match r {
            Ok(n) => !(n is Binop),
            Err(_) => true,
        }),
    decreases ts.input@.len() - ts.position, 6int,
{
    match expr_upper(ts) {
        Ok(e) => {
            return Ok(e);
        },
        Err(_) => {},
    }
    expr_lower(ts)
}

/// The structured alternatives of `exp`: a function literal, a prefix expression, a table constructor, or a unary operator application.
#[verifier::loop_isolation(false)]
fn expr_lower(ts: &mut TokenStream) -> (r: Result<Expr, TokenStreamError>)
    requires
        old(ts).wf(),
    ensures
        final(ts).wf(),
        final(ts).input == old(ts).input,
        old(ts).position <= final(ts).position,
        match r {
            Ok(n) => old(ts).position < final(ts).position && tok_kinds(
                final(ts).input@.subrange(old(ts).position as int, final(ts).position as int),
            ) == expr_kinds(n),
            Err(_) => final(ts).position == old(ts).position,
        },
        (match r {
            Ok(n) => !(n is Binop),
            Err(_) => true,
        }),
    decreases ts.input@.len() - ts.position, 5int,
{
    let p0 = ts.position;
    let ghost g0 = ts.position as int;
    if ts.check(TokenType::Function) {
        let _f = ts.expect(TokenType::Function)?;
        let ghost g1 = ts.position as int;
        match funcbody(ts) {
            Ok(fb) => {
                let ghost g2 = ts.position as int;
                proof {
                    lemma_kinds_one(ts.input@, g0);
                    lemma_kinds_split(ts.input@, g0, g1, g2);
                    assert(tok_kinds(ts.input@.subrange(g0, g2)) =~= seq![TokenType::Function]
                        + funcbody_kinds(fb));
                }
                return Ok(Expr::Function(Function(fb)));
            },
            Err(e) => {
                ts.position = p0;
                return Err(e);
            },
        }
    }
    match prefixexp(ts) {
        Ok(pe) => {
            return Ok(Expr::PrefixExp(pe));
        },
        Err(_) => {},
    }
    match tableconstructor(ts) {
        Ok(tc) => {
            return Ok(Expr::TableConstructor(tc));
        },
        Err(_) => {},
    }
    let op = unop(ts)?;
    let ghost g1 = ts.position as int;
    match expr_binop_bottom(ts) {
        Ok(e) => {
            let ghost g2 = ts.position as int;
            proof {
                lemma_kinds_split(ts.input@, g0, g1, g2);
                assert(tok_kinds(ts.input@.subrange(g0, g2)) =~= seq![op.0.token_type]
                    + expr_kinds(e));
            }
            Ok(Expr::Unop(op, Box::new(e)))
        },
        Err(e2) => {
            ts.position = p0;
            Err(e2)
        },
    }
}

/// The root expression production: a left-associative fold of `expr` over one flat level of binary operators. Precedence is deliberately flat; evaluation is strictly left to right.
#[verifier::loop_isolation(false)]
fn expr_binop_bottom(ts: &mut TokenStream) -> (r: Result<Expr, TokenStreamError>)
    requires
        old(ts).wf(),
    ensures
        final(ts).wf(),
        final(ts).input == old(ts).input,
        old(ts).position <= final(ts).position,
        match r {
            Ok(n) => old(ts).position < final(ts).position && tok_kinds(
                final(ts).input@.subrange(old(ts).position as int, final(ts).position as int),
            ) == expr_kinds(n) && left_chained(n),
            Err(_) => final(ts).position == old(ts).position,
        },
        (match next_kind(*old(ts)) {
            Option::Some(k) => is_literal_start(k) ==> r is Ok,
            Option::None => r is Err,
        }),
    decreases ts.input@.len() - ts.position, 7int,
{
    let ghost g0 = ts.position as int;
    let first = expr(ts)?;
    let mut acc = first;
    let mut stop = false;
    while !stop
        invariant
            ts.wf(),
            ts.input == old(ts).input,
            g0 < ts.position as int <= ts.input@.len(),
            tok_kinds(ts.input@.subrange(g0, ts.position as int)) == expr_kinds(acc),
            left_chained(acc),
        decreases ts.input@.len() - ts.position, (if stop { 0int } else { 1int }),
    {
        let psave = ts.position;
        let ghost gs = ts.position as int;
        match binop(ts) {
            Err(_) => {
                stop = true;
            },
            Ok(op) => {
                let ghost gop = ts.position as int;
                match expr(ts) {
                    Err(_) => {
                        ts.position = psave;
                        stop = true;
                    },
                    Ok(rhs) => {
                        let ghost g2 = ts.position as int;
                        proof {
                            lemma_kinds_split(ts.input@, g0, gs, g2);
                            lemma_kinds_split(ts.input@, gs, gop, g2);
                            assert(tok_kinds(ts.input@.subrange(g0, g2)) =~= expr_kinds(acc)
                                + seq![op.0.token_type] + expr_kinds(rhs));
                        }
                        acc = Expr::Binop(Box::new(acc), op, Box::new(rhs));
                    },
                }
            },
        }
    }
    Ok(acc)
}

/// prefixexp ::= functioncall | var | `(` exp `)`
#[verifier::loop_isolation(false)]
fn prefixexp(ts: &mut TokenStream) -> (r: Result<PrefixExp, TokenStreamError>)
    requires
        old(ts).wf(),
    ensures
        final(ts).wf(),
        final(ts).input == old(ts).input,
        old(ts).position <= final(ts).position,
        match r {
            Ok(n) => old(ts).position < final(ts).position && tok_kinds(
                final(ts).input@.subrange(old(ts).position as int, final(ts).position as int),
            ) == prefixexp_kinds(n),
            Err(_) => final(ts).position == old(ts).position,
        },
    decreases ts.input@.len() - ts.position, 4int,
{
    match functioncall(ts) {
        Ok(fc) => {
            return Ok(PrefixExp::PrefixCall(fc));
        },
        Err(_) => {},
    }
    match var(ts) {
        Ok(v) => {
            return Ok(PrefixExp::PrefixVar(Box::new(v)));
        },
        Err(_) => {},
    }
    let p0 = ts.position;
    let ghost g0 = ts.position as int;
    let _l = ts.expect(TokenType::ParenL)?;
    let ghost g1 = ts.position as int;
    match expr_binop_bottom(ts) {
        Err(e) => {
            ts.position = p0;
            Err(e)
        },
        Ok(e) => {
            let ghost g2 = ts.position as int;
            match ts.expect(TokenType::ParenR) {
                Err(er) => {
                    ts.position = p0;
                    Err(er)
                },
                Ok(_) => {
                    let ghost g3 = ts.position as int;
                    proof {
                        lemma_kinds_one(ts.input@, g0);
                        lemma_kinds_one(ts.input@, g2);
                        lemma_kinds_split(ts.input@, g0, g1, g3);
                        lemma_kinds_split(ts.input@, g1, g2, g3);
                        assert(tok_kinds(ts.input@.subrange(g0, g3)) =~= seq![TokenType::ParenL]
                            + expr_kinds(e) + seq![TokenType::ParenR]);
                    }
                    Ok(PrefixExp::PrefixParen(Box::new(e)))
                },
            }
        },
    }
}

/// The callee part of a function call: a variable or a parenthesized expression, never itself a call.
#[verifier::loop_isolation(false)]
fn prefixexp_lowered(ts: &mut TokenStream) -> (r: Result<PrefixExp, TokenStreamError>)
    requires
        old(ts).wf(),
    ensures
        final(ts).wf(),
        final(ts).input == old(ts).input,
        old(ts).position <= final(ts).position,
        match r {
            Ok(n) => old(ts).position < final(ts).position && tok_kinds(
                final(ts).input@.subrange(old(ts).position as int, final(ts).position as int),
            ) == prefixexp_kinds(n),
            Err(_) => final(ts).position == old(ts).position,
        },
        !(next_kind(*old(ts)) == Option::Some(TokenType::Name) || next_kind(*old(ts))
            == Option::Some(TokenType::ParenL)) ==> r is Err,
    decreases ts.input@.len() - ts.position, 2int,
{
    match var(ts) {
        Ok(v) => {
            return Ok(PrefixExp::PrefixVar(Box::new(v)));
        },
        Err(_) => {},
    }
    let p0 = ts.position;
    let ghost g0 = ts.position as int;
    let _l = ts.expect(TokenType::ParenL)?;
    let ghost g1 = ts.position as int;
    match expr_binop_bottom(ts) {
        Err(e) => {
            ts.position = p0;
            Err(e)
        },
        Ok(e) => {
            let ghost g2 = ts.position as int;
            match ts.expect(TokenType::ParenR) {
                Err(er) => {
                    ts.position = p0;
                    Err(er)
                },
                Ok(_) => {
                    let ghost g3 = ts.position as int;
                    proof {
                        lemma_kinds_one(ts.input@, g0);
                        lemma_kinds_one(ts.input@, g2);
                        lemma_kinds_split(ts.input@, g0, g1, g3);
                        lemma_kinds_split(ts.input@, g1, g2, g3);
                        assert(tok_kinds(ts.input@.subrange(g0, g3)) =~= seq![TokenType::ParenL]
                            + expr_kinds(e) + seq![TokenType::ParenR]);
                    }
                    Ok(PrefixExp::PrefixParen(Box::new(e)))
                },
            }
        },
    }
}

/// functioncall ::= prefixexp args | prefixexp `:` Name args
#[verifier::loop_isolation(false)]
fn functioncall(ts: &mut TokenStream) -> (r: Result<FunctionCall, TokenStreamError>)
    requires
        old(ts).wf(),
    ensures
        final(ts).wf(),
        final(ts).input == old(ts).input,
        old(ts).position <= final(ts).position,
        match r {
            Ok(n) => old(ts).position < final(ts).position && tok_kinds(
                final(ts).input@.subrange(old(ts).position as int, final(ts).position as int),
            ) == funcall_kinds(n),
            Err(_) => final(ts).position == old(ts).position,
        },
        !(next_kind(*old(ts)) == Option::Some(TokenType::Name) || next_kind(*old(ts))
            == Option::Some(TokenType::ParenL)) ==> r is Err,
    decreases ts.input@.len() - ts.position, 3int,
{
    let p0 = ts.position;
    let ghost g0 = ts.position as int;
    let pe = prefixexp_lowered(ts)?;
    let ghost g1 = ts.position as int;
    let method: Option<Token> = if ts.check(TokenType::Colon) {
        let psave = ts.position;
        match ts.expect(TokenType::Colon) {
            Ok(_) => {
                match ts.expect(TokenType::Name) {
                    Ok(nm) => Some(nm),
                    Err(_) => {
                        ts.position = psave;
                        None
                    },
                }
            },
            Err(_) => None,
        }
    } else {
        None
    };
    let ghost g2 = ts.position as int;
    proof {
        if method is Some {
            lemma_kinds_one(ts.input@, g1);
            lemma_kinds_one(ts.input@, g1 + 1);
            lemma_kinds_split(ts.input@, g1, g1 + 1, g2);
            assert(tok_kinds(ts.input@.subrange(g1, g2)) =~= seq![
                TokenType::Colon,
                method->0.token_type,
            ]);
        } else {
            lemma_kinds_empty(ts.input@, g1);
        }
    }
    match args(ts) {
        Ok(a) => {
            let ghost g3 = ts.position as int;
            proof {
                lemma_kinds_split(ts.input@, g0, g1, g3);
                lemma_kinds_split(ts.input@, g1, g2, g3);
                let mseg = if method is Some {
                    seq![TokenType::Colon, method->0.token_type]
                } else {
                    Seq::<TokenType>::empty()
                };
                assert(tok_kinds(ts.input@.subrange(g0, g3)) =~= prefixexp_kinds(pe) + mseg
                    + args_kinds(a));
            }
            Ok(FunctionCall(Box::new(pe), method, a))
        },
        Err(e) => {
            ts.position = p0;
            Err(e)
        },
    }
}

/// args ::= `(` [explist] `)` | tableconstructor | String
#[verifier::loop_isolation(false)]
fn args(ts: &mut TokenStream) -> (r: Result<Args, TokenStreamError>)
    requires
        old(ts).wf(),
    ensures
        final(ts).wf(),
        final(ts).input == old(ts).input,
        old(ts).position <= final(ts).position,
        match r {
            Ok(n) => old(ts).position < final(ts).position && tok_kinds(
                final(ts).input@.subrange(old(ts).position as int, final(ts).position as int),
            ) == args_kinds(n),
            Err(_) => final(ts).position == old(ts).position,
        },
    decreases ts.input@.len() - ts.position, 3int,
{
    let p0 = ts.position;
    let ghost g0 = ts.position as int;
    if ts.check(TokenType::ParenL) {
        let _l = ts.expect(TokenType::ParenL)?;
        let ghost g1 = ts.position as int;
        let el = exprlist(ts);
        let ghost g2 = ts.position as int;
        match ts.expect(TokenType::ParenR) {
            Ok(_) => {
                let ghost g3 = ts.position as int;
                proof {
                    lemma_kinds_one(ts.input@, g0);
                    lemma_kinds_one(ts.input@, g2);
                    lemma_kinds_split(ts.input@, g0, g1, g3);
                    lemma_kinds_split(ts.input@, g1, g2, g3);
                    assert(tok_kinds(ts.input@.subrange(g0, g3)) =~= seq![TokenType::ParenL]
                        + exprlist_kinds(el) + seq![TokenType::ParenR]);
                }
                return Ok(Args::ArgsList(el));
            },
            Err(e) => {
                ts.position = p0;
                return Err(e);
            },
        }
    }
    match tableconstructor(ts) {
        Ok(tc) => {
            return Ok(Args::ArgsTable(tc));
        },
        Err(_) => {},
    }
    let t = ts.expect(TokenType::StringLit)?;
    proof {
        lemma_kinds_one(ts.input@, g0);
    }
    Ok(Args::ArgsString(t))
}

/// explist ::= {exp `,`} exp, possibly empty.
#[verifier::loop_isolation(false)]
fn exprlist(ts: &mut TokenStream) -> (n: ExprList)
    requires
        old(ts).wf(),
    ensures
        final(ts).wf(),
        final(ts).input == old(ts).input,
        old(ts).position <= final(ts).position,
        tok_kinds(
            final(ts).input@.subrange(old(ts).position as int, final(ts).position as int),
        ) == exprlist_kinds(n),
        forall|i: int| 0 <= i < n.0@.len() ==> left_chained(#[trigger] n.0@[i]),
    decreases ts.input@.len() - ts.position, 8int,
{
    let ghost g0 = ts.position as int;
    let mut v: Vec<Expr> = Vec::new();
    match expr_binop_bottom(ts) {
        Err(_) => {
            proof {
                lemma_kinds_empty(ts.input@, g0);
                assert(exprs_kinds(v@) =~= Seq::<TokenType>::empty());
            }
            return ExprList(v);
        },
        Ok(e) => {
            v.push(e);
            proof {
                assert(v@ =~= seq![e]);
            }
        },
    }
    let mut stop = false;
    while !stop
        invariant
            ts.wf(),
            ts.input == old(ts).input,
            v@.len() >= 1,
            g0 < ts.position as int <= ts.input@.len(),
            tok_kinds(ts.input@.subrange(g0, ts.position as int)) == exprs_kinds(v@),
            forall|i: int| 0 <= i < v@.len() ==> left_chained(#[trigger] v@[i]),
        decreases ts.input@.len() - ts.position, (if stop { 0int } else { 1int }),
    {
        if ts.check(TokenType::Comma) {
            let psave = ts.position;
            let ghost gs = ts.position as int;
            match ts.expect(TokenType::Comma) {
                Ok(_) => {
                    match expr_binop_bottom(ts) {
                        Ok(e2) => {
                            let ghost g2 = ts.position as int;
                            proof {
                                lemma_kinds_one(ts.input@, gs);
                                lemma_kinds_split(ts.input@, g0, gs, g2);
                                lemma_kinds_split(ts.input@, gs, gs + 1, g2);
                                lemma_exprs_kinds_push(v@, e2);
                                assert(tok_kinds(ts.input@.subrange(g0, g2)) =~= exprs_kinds(v@)
                                    + seq![TokenType::Comma] + expr_kinds(e2));
                            }
                            v.push(e2);
                        },
                        Err(_) => {
                            ts.position = psave;
                            stop = true;
                        },
                    }
                },
                Err(_) => {
                    stop = true;
                },
            }
        } else {
            stop = true;
        }
    }
    ExprList(v)
}

/// explist with at least one expression.
#[verifier::loop_isolation(false)]
fn exprlist1(ts: &mut TokenStream) -> (r: Result<ExprList, TokenStreamError>)
    requires
        old(ts).wf(),
    ensures
        final(ts).wf(),
        final(ts).input == old(ts).input,
        old(ts).position <= final(ts).position,
        match r {
            Ok(n) => old(ts).position < final(ts).position && tok_kinds(
                final(ts).input@.subrange(old(ts).position as int, final(ts).position as int),
            ) == exprlist_kinds(n),
            Err(_) => final(ts).position == old(ts).position,
        },
        (match next_kind(*old(ts)) {
            Option::Some(k) => is_literal_start(k) ==> r is Ok,
            Option::None => r is Err,
        }),
        (match r {
            Ok(n) => forall|i: int| 0 <= i < n.0@.len() ==> left_chained(#[trigger] n.0@[i]),
            Err(_) => true,
        }),
    decreases ts.input@.len() - ts.position, 8int,
{
    let ghost g0 = ts.position as int;
    let first = expr_binop_bottom(ts)?;
    let mut v: Vec<Expr> = Vec::new();
    v.push(first);
    proof {
        assert(v@ =~= seq![first]);
    }
    let mut stop = false;
    while !stop
        invariant
            ts.wf(),
            ts.input == old(ts).input,
            v@.len() >= 1,
            g0 < ts.position as int <= ts.input@.len(),
            tok_kinds(ts.input@.subrange(g0, ts.position as int)) == exprs_kinds(v@),
            forall|i: int| 0 <= i < v@.len() ==> left_chained(#[trigger] v@[i]),
        decreases ts.input@.len() - ts.position, (if stop { 0int } else { 1int }),
    {
        if ts.check(TokenType::Comma) {
            let psave = ts.position;
            let ghost gs = ts.position as int;
            match ts.expect(TokenType::Comma) {
                Ok(_) => {
                    match expr_binop_bottom(ts) {
                        Ok(e2) => {
                            let ghost g2 = ts.position as int;
                            proof {
                                lemma_kinds_one(ts.input@, gs);
                                lemma_kinds_split(ts.input@, g0, gs, g2);
                                lemma_kinds_split(ts.input@, gs, gs + 1, g2);
                                lemma_exprs_kinds_push(v@, e2);
                                assert(tok_kinds(ts.input@.subrange(g0, g2)) =~= exprs_kinds(v@)
                                    + seq![TokenType::Comma] + expr_kinds(e2));
                            }
                            v.push(e2);
                        },
                        Err(_) => {
                            ts.position = psave;
                            stop = true;
                        },
                    }
                },
                Err(_) => {
                    stop = true;
                },
            }
        } else {
            stop = true;
        }
    }
    Ok(ExprList(v))
}

/// varlist ::= var {`,` var}
#[verifier::loop_isolation(false)]
fn varlist(ts: &mut TokenStream) -> (r: Result<VarList, TokenStreamError>)
    requires
        old(ts).wf(),
    ensures
        final(ts).wf(),
        final(ts).input == old(ts).input,
        old(ts).position <= final(ts).position,
        match r {
            Ok(n) => old(ts).position < final(ts).position && tok_kinds(
                final(ts).input@.subrange(old(ts).position as int, final(ts).position as int),
            ) == varlist_kinds(n),
            Err(_) => final(ts).position == old(ts).position,
        },
        r is Ok <==> next_kind(*old(ts)) == Option::Some(TokenType::Name),
    decreases ts.input@.len() - ts.position, 8int,
{
    let ghost g0 = ts.position as int;
    let first = var(ts)?;
    let mut v: Vec<Var> = Vec::new();
    v.push(first);
    proof {
        assert(v@ =~= seq![first]);
    }
    let mut stop = false;
    while !stop
        invariant
            ts.wf(),
            ts.input == old(ts).input,
            v@.len() >= 1,
            g0 < ts.position as int <= ts.input@.len(),
            tok_kinds(ts.input@.subrange(g0, ts.position as int)) == vars_kinds(v@),
        decreases ts.input@.len() - ts.position, (if stop { 0int } else { 1int }),
    {
        if ts.check(TokenType::Comma) {
            let psave = ts.position;
            let ghost gs = ts.position as int;
            match ts.expect(TokenType::Comma) {
                Ok(_) => {
                    match var(ts) {
                        Ok(v2) => {
                            let ghost g2 = ts.position as int;
                            proof {
                                lemma_kinds_one(ts.input@, gs);
                                lemma_kinds_split(ts.input@, g0, gs, g2);
                                lemma_kinds_split(ts.input@, gs, gs + 1, g2);
                                lemma_vars_kinds_push(v@, v2);
                                assert(tok_kinds(ts.input@.subrange(g0, g2)) =~= vars_kinds(v@)
                                    + seq![TokenType::Comma] + var_kinds(v2));
                            }
                            v.push(v2);
                        },
                        Err(_) => {
                            ts.position = psave;
                            stop = true;
                        },
                    }
                },
                Err(_) => {
                    stop = true;
                },
            }
        } else {
            stop = true;
        }
    }
    Ok(VarList(v))
}

/// namelist ::= Name {`,` Name}
#[verifier::loop_isolation(false)]
fn namelist(ts: &mut TokenStream) -> (r: Result<NameList, TokenStreamError>)
    requires
        old(ts).wf(),
    ensures
        final(ts).wf(),
        final(ts).input == old(ts).input,
        old(ts).position <= final(ts).position,
        match r {
            Ok(n) => old(ts).position < final(ts).position && tok_kinds(
                final(ts).input@.subrange(old(ts).position as int, final(ts).position as int),
            ) == namelist_kinds(n),
            Err(_) => final(ts).position == old(ts).position,
        },
    decreases ts.input@.len() - ts.position, 1int,
{
    let ghost g0 = ts.position as int;
    let first = ts.expect(TokenType::Name)?;
    let mut v: Vec<Token> = Vec::new();
    v.push(first);
    proof {
        lemma_kinds_one(ts.input@, g0);
        assert(v@ =~= seq![first]);
    }
    let mut stop = false;
    while !stop
        invariant
            ts.wf(),
            ts.input == old(ts).input,
            v@.len() >= 1,
            g0 < ts.position as int <= ts.input@.len(),
            tok_kinds(ts.input@.subrange(g0, ts.position as int)) == commaed_names_kinds(v@),
        decreases ts.input@.len() - ts.position, (if stop { 0int } else { 1int }),
    {
        if ts.check(TokenType::Comma) {
            let psave = ts.position;
            let ghost gs = ts.position as int;
            match ts.expect(TokenType::Comma) {
                Ok(_) => {
                    match ts.expect(TokenType::Name) {
                        Ok(n2) => {
                            let ghost g2 = ts.position as int;
                            proof {
                                lemma_kinds_one(ts.input@, gs);
                                lemma_kinds_one(ts.input@, gs + 1);
                                lemma_kinds_split(ts.input@, g0, gs, g2);
                                lemma_kinds_split(ts.input@, gs, gs + 1, g2);
                                lemma_commaed_names_push(v@, n2);
                                assert(tok_kinds(ts.input@.subrange(g0, g2))
                                    =~= commaed_names_kinds(v@) + seq![
                                    TokenType::Comma,
                                    n2.token_type,
                                ]);
                            }
                            v.push(n2);
                        },
                        Err(_) => {
                            ts.position = psave;
                            stop = true;
                        },
                    }
                },
                Err(_) => {
                    stop = true;
                },
            }
        } else {
            stop = true;
        }
    }
    Ok(NameList(v))
}

/// field ::= `[` exp `]` `=` exp | Name `=` exp | exp
#[verifier::loop_isolation(false)]
fn field(ts: &mut TokenStream) -> (r: Result<Field, TokenStreamError>)
    requires
        old(ts).wf(),
    ensures
        final(ts).wf(),
        final(ts).input == old(ts).input,
        old(ts).position <= final(ts).position,
        match r {
            Ok(n) => old(ts).position < final(ts).position && tok_kinds(
                final(ts).input@.subrange(old(ts).position as int, final(ts).position as int),
            ) == field_kinds(n),
            Err(_) => final(ts).position == old(ts).position,
        },
    decreases ts.input@.len() - ts.position, 8int,
{
    let p0 = ts.position;
    let ghost g0 = ts.position as int;
    if ts.check(TokenType::BracketL) {
        let _l = ts.expect(TokenType::BracketL)?;
        let ghost g1 = ts.position as int;
        let idx = match expr_binop_bottom(ts) {
            Ok(e) => e,
            Err(e) => {
                ts.position = p0;
                return Err(e);
            },
        };
        let ghost g2 = ts.position as int;
        if let Err(e) = ts.expect(TokenType::BracketR) {
            ts.position = p0;
            return Err(e);
        }
        let ghost g3 = ts.position as int;
        if let Err(e) = ts.expect(TokenType::Assign) {
            ts.position = p0;
            return Err(e);
        }
        let ghost g4 = ts.position as int;
        match expr_binop_bottom(ts) {
            Ok(e) => {
                let ghost g5 = ts.position as int;
                proof {
                    lemma_kinds_one(ts.input@, g0);
                    lemma_kinds_one(ts.input@, g2);
                    lemma_kinds_one(ts.input@, g3);
                    lemma_kinds_split(ts.input@, g0, g1, g5);
                    lemma_kinds_split(ts.input@, g1, g2, g5);
                    lemma_kinds_split(ts.input@, g2, g3, g5);
                    lemma_kinds_split(ts.input@, g3, g4, g5);
                    assert(tok_kinds(ts.input@.subrange(g0, g5)) =~= seq![TokenType::BracketL]
                        + expr_kinds(idx) + seq![TokenType::BracketR, TokenType::Assign]
                        + expr_kinds(e));
                }
                return Ok(Field::AssignIdx(Box::new(idx), Box::new(e)));
            },
            Err(e) => {
                ts.position = p0;
                return Err(e);
            },
        }
    }
    if ts.check(TokenType::Name) {
        let psave = ts.position;
        match ts.expect(TokenType::Name) {
            Ok(nm) => {
                let ghost g1 = ts.position as int;
                if ts.check(TokenType::Assign) {
                    match ts.expect(TokenType::Assign) {
                        Ok(_) => {
                            let ghost g2 = ts.position as int;
                            match expr_binop_bottom(ts) {
                                Ok(e) => {
                                    let ghost g3 = ts.position as int;
                                    proof {
                                        lemma_kinds_one(ts.input@, g0);
                                        lemma_kinds_one(ts.input@, g1);
                                        lemma_kinds_split(ts.input@, g0, g1, g3);
                                        lemma_kinds_split(ts.input@, g1, g2, g3);
                                        assert(tok_kinds(ts.input@.subrange(g0, g3)) =~= seq![
                                            nm.token_type,
                                            TokenType::Assign,
                                        ] + expr_kinds(e));
                                    }
                                    return Ok(Field::AssignName(nm, Box::new(e)));
                                },
                                Err(_) => {
                                    ts.position = psave;
                                },
                            }
                        },
                        Err(_) => {
                            ts.position = psave;
                        },
                    }
                } else {
                    ts.position = psave;
                }
            },
            Err(_) => {},
        }
    }
    let e = expr_binop_bottom(ts)?;
    Ok(Field::UniExp(Box::new(e)))
}

/// fieldlist ::= field {fieldsep field} [fieldsep]
#[verifier::loop_isolation(false)]
fn fieldlist(ts: &mut TokenStream) -> (r: Result<FieldList, TokenStreamError>)
    requires
        old(ts).wf(),
    ensures
        final(ts).wf(),
        final(ts).input == old(ts).input,
        old(ts).position <= final(ts).position,
        match r {
            Ok(n) => old(ts).position < final(ts).position && tok_kinds(
                final(ts).input@.subrange(old(ts).position as int, final(ts).position as int),
            ) == fieldlist_kinds(n),
            Err(_) => final(ts).position == old(ts).position,
        },
    decreases ts.input@.len() - ts.position, 9int,
{
    let ghost g0 = ts.position as int;
    let first = field(ts)?;
    let mut fields: Vec<Field> = Vec::new();
    let mut seps: Vec<Fieldsep> = Vec::new();
    fields.push(first);
    proof {
        assert(fields@ =~= seq![first]);
        assert(seps@ =~= Seq::<Fieldsep>::empty());
    }
    let mut stop = false;
    while !stop
        invariant
            ts.wf(),
            ts.input == old(ts).input,
            fields@.len() == seps@.len() + 1 || (stop && fields@.len() == seps@.len()),
            fields@.len() >= 1,
            g0 < ts.position as int <= ts.input@.len(),
            tok_kinds(ts.input@.subrange(g0, ts.position as int)) == fields_kinds(
                fields@,
                seps@,
            ),
        decreases ts.input@.len() - ts.position, (if stop { 0int } else { 1int }),
    {
        if ts.check(TokenType::Comma) || ts.check(TokenType::SemiColon) {
            let k = if ts.check(TokenType::Comma) {
                TokenType::Comma
            } else {
                TokenType::SemiColon
            };
            let ghost gs = ts.position as int;
            match ts.expect(k) {
                Ok(sp) => {
                    match field(ts) {
                        Ok(f) => {
                            let ghost g2 = ts.position as int;
                            proof {
                                lemma_kinds_one(ts.input@, gs);
                                lemma_kinds_split(ts.input@, g0, gs, g2);
                                lemma_kinds_split(ts.input@, gs, gs + 1, g2);
                                lemma_fields_kinds_push(fields@, seps@, Fieldsep(sp), f);
                                assert(tok_kinds(ts.input@.subrange(g0, g2)) =~= fields_kinds(
                                    fields@,
                                    seps@,
                                ) + seq![sp.token_type] + field_kinds(f));
                            }
                            seps.push(Fieldsep(sp));
                            fields.push(f);
                        },
                        Err(_) => {
                            // a trailing separator closes the list
                            let ghost g2 = ts.position as int;
                            proof {
                                lemma_kinds_one(ts.input@, gs);
                                lemma_kinds_split(ts.input@, g0, gs, g2);
                                lemma_fields_kinds_trailing(fields@, seps@, Fieldsep(sp));
                                assert(tok_kinds(ts.input@.subrange(g0, g2)) =~= fields_kinds(
                                    fields@,
                                    seps@,
                                ) + seq![sp.token_type]);
                            }
                            seps.push(Fieldsep(sp));
                            stop = true;
                        },
                    }
                },
                Err(_) => {
                    stop = true;
                },
            }
        } else {
            stop = true;
        }
    }
    Ok(FieldList(fields, seps))
}

/// tableconstructor ::= `{` fieldlist `}`
#[verifier::loop_isolation(false)]
fn tableconstructor(ts: &mut TokenStream) -> (r: Result<TableConstructor, TokenStreamError>)
    requires
        old(ts).wf(),
    ensures
        final(ts).wf(),
        final(ts).input == old(ts).input,
        old(ts).position <= final(ts).position,
        match r {
            Ok(n) => old(ts).position < final(ts).position && tok_kinds(
                final(ts).input@.subrange(old(ts).position as int, final(ts).position as int),
            ) == tc_kinds(n),
            Err(_) => final(ts).position == old(ts).position,
        },
    decreases ts.input@.len() - ts.position, 2int,
{
    let p0 = ts.position;
    let ghost g0 = ts.position as int;
    let _b = ts.expect(TokenType::BraceL)?;
    let ghost g1 = ts.position as int;
    match fieldlist(ts) {
        Err(e) => {
            ts.position = p0;
            Err(e)
        },
        Ok(fl) => {
            let ghost g2 = ts.position as int;
            match ts.expect(TokenType::BraceR) {
                Err(e) => {
                    ts.position = p0;
                    Err(e)
                },
                Ok(_) => {
                    let ghost g3 = ts.position as int;
                    proof {
                        lemma_kinds_one(ts.input@, g0);
                        lemma_kinds_one(ts.input@, g2);
                        lemma_kinds_split(ts.input@, g0, g1, g3);
                        lemma_kinds_split(ts.input@, g1, g2, g3);
                        assert(tok_kinds(ts.input@.subrange(g0, g3)) =~= seq![TokenType::BraceL]
                            + fieldlist_kinds(fl) + seq![TokenType::BraceR]);
                    }
                    Ok(TableConstructor(fl))
                },
            }
        },
    }
}

/// funcname ::= Name {`.` Name} [`:` Name]
#[verifier::loop_isolation(false)]
fn funcname(ts: &mut TokenStream) -> (r: Result<FuncName, TokenStreamError>)
    requires
        old(ts).wf(),
    ensures
        final(ts).wf(),
        final(ts).input == old(ts).input,
        old(ts).position <= final(ts).position,
        match r {
            Ok(n) => old(ts).position < final(ts).position && tok_kinds(
                final(ts).input@.subrange(old(ts).position as int, final(ts).position as int),
            ) == funcname_kinds(n),
            Err(_) => final(ts).position == old(ts).position,
        },
    decreases ts.input@.len() - ts.position, 1int,
{
    let ghost g0 = ts.position as int;
    let first = ts.expect(TokenType::Name)?;
    let mut names: Vec<Token> = Vec::new();
    names.push(first);
    proof {
        lemma_kinds_one(ts.input@, g0);
        assert(names@ =~= seq![first]);
    }
    let mut stop = false;
    while !stop
        invariant
            ts.wf(),
            ts.input == old(ts).input,
            names@.len() >= 1,
            g0 < ts.position as int <= ts.input@.len(),
            tok_kinds(ts.input@.subrange(g0, ts.position as int)) == names_kinds(names@),
        decreases ts.input@.len() - ts.position, (if stop { 0int } else { 1int }),
    {
        if ts.check(TokenType::Period) {
            let psave = ts.position;
            let ghost gs = ts.position as int;
            match ts.expect(TokenType::Period) {
                Ok(_) => {
                    match ts.expect(TokenType::Name) {
                        Ok(n2) => {
                            let ghost g2 = ts.position as int;
                            proof {
                                lemma_kinds_one(ts.input@, gs);
                                lemma_kinds_one(ts.input@, gs + 1);
                                lemma_kinds_split(ts.input@, g0, gs, g2);
                                lemma_kinds_split(ts.input@, gs, gs + 1, g2);
                                lemma_names_kinds_push(names@, n2);
                                assert(tok_kinds(ts.input@.subrange(g0, g2)) =~= names_kinds(
                                    names@,
                                ) + seq![TokenType::Period, n2.token_type]);
                            }
                            names.push(n2);
                        },
                        Err(_) => {
                            ts.position = psave;
                            stop = true;
                        },
                    }
                },
                Err(_) => {
                    stop = true;
                },
            }
        } else {
            stop = true;
        }
    }
    let ghost g1 = ts.position as int;
    let colon: Option<Token> = if ts.check(TokenType::Colon) {
        let psave = ts.position;
        match ts.expect(TokenType::Colon) {
            Ok(_) => {
                match ts.expect(TokenType::Name) {
                    Ok(nm) => Some(nm),
                    Err(_) => {
                        ts.position = psave;
                        None
                    },
                }
            },
            Err(_) => None,
        }
    } else {
        None
    };
    let ghost g2 = ts.position as int;
    proof {
        if colon is Some {
            lemma_kinds_one(ts.input@, g1);
            lemma_kinds_one(ts.input@, g1 + 1);
            lemma_kinds_split(ts.input@, g0, g1, g2);
            lemma_kinds_split(ts.input@, g1, g1 + 1, g2);
            assert(tok_kinds(ts.input@.subrange(g0, g2)) =~= names_kinds(names@) + seq![
                TokenType::Colon,
                colon->0.token_type,
            ]);
        } else {
            lemma_kinds_empty(ts.input@, g1);
        }
    }
    Ok(FuncName(names, colon))
}

/// parlist ::= [namelist] [`...`]
#[verifier::loop_isolation(false)]
fn paramlist(ts: &mut TokenStream) -> (n: ParamList)
    requires
        old(ts).wf(),
    ensures
        final(ts).wf(),
        final(ts).input == old(ts).input,
        old(ts).position <= final(ts).position,
        tok_kinds(
            final(ts).input@.subrange(old(ts).position as int, final(ts).position as int),
        ) == paramlist_kinds(n),
    decreases ts.input@.len() - ts.position, 2int,
{
    let ghost g0 = ts.position as int;
    let nl: NameList = if ts.check(TokenType::Name) {
        match namelist(ts) {
            Ok(nl) => nl,
            Err(_) => NameList(Vec::new()),
        }
    } else {
        NameList(Vec::new())
    };
    let ghost g1 = ts.position as int;
    proof {
        if g1 == g0 {
            lemma_kinds_empty(ts.input@, g0);
            assert(commaed_names_kinds(nl.0@) == tok_kinds(ts.input@.subrange(g0, g1)));
        }
    }
    let vararg = if ts.check(TokenType::Dots) {
        match ts.expect(TokenType::Dots) {
            Ok(_) => true,
            Err(_) => false,
        }
    } else {
        false
    };
    let ghost g2 = ts.position as int;
    proof {
        lemma_kinds_split(ts.input@, g0, g1, g2);
        if vararg {
            lemma_kinds_one(ts.input@, g1);
        } else {
            lemma_kinds_empty(ts.input@, g1);
        }
        assert(tok_kinds(ts.input@.subrange(g0, g2)) =~= namelist_kinds(nl) + (if vararg {
            seq![TokenType::Dots]
        } else {
            Seq::<TokenType>::empty()
        }));
    }
    ParamList(nl, vararg)
}

/// funcbody ::= `(` parlist `)` block end
#[verifier::loop_isolation(false)]
fn funcbody(ts: &mut TokenStream) -> (r: Result<FuncBody, TokenStreamError>)
    requires
        old(ts).wf(),
    ensures
        final(ts).wf(),
        final(ts).input == old(ts).input,
        old(ts).position <= final(ts).position,
        match r {
            Ok(n) => old(ts).position < final(ts).position && tok_kinds(
                final(ts).input@.subrange(old(ts).position as int, final(ts).position as int),
            ) == funcbody_kinds(n),
            Err(_) => final(ts).position == old(ts).position,
        },
    decreases ts.input@.len() - ts.position, 0int,
{
    let p0 = ts.position;
    let ghost g0 = ts.position as int;
    let _l = ts.expect(TokenType::ParenL)?;
    let ghost g1 = ts.position as int;
    let params = paramlist(ts);
    let ghost g2 = ts.position as int;
    if let Err(e) = ts.expect(TokenType::ParenR) {
        ts.position = p0;
        return Err(e);
    }
    let ghost g3 = ts.position as int;
    let b = block(ts);
    let ghost g4 = ts.position as int;
    match ts.expect(TokenType::End) {
        Err(e) => {
            ts.position = p0;
            Err(e)
        },
        Ok(_) => {
            let ghost g5 = ts.position as int;
            proof {
                lemma_kinds_one(ts.input@, g0);
                lemma_kinds_one(ts.input@, g2);
                lemma_kinds_one(ts.input@, g4);
                lemma_kinds_split(ts.input@, g0, g1, g5);
                lemma_kinds_split(ts.input@, g1, g2, g5);
                lemma_kinds_split(ts.input@, g2, g3, g5);
                lemma_kinds_split(ts.input@, g3, g4, g5);
                assert(tok_kinds(ts.input@.subrange(g0, g5)) =~= seq![TokenType::ParenL]
                    + paramlist_kinds(params) + seq![TokenType::ParenR] + block_kinds(b)
                    + seq![TokenType::End]);
            }
            Ok(FuncBody(params, std::rc::Rc::new(b)))
        },
    }
}

/// One statement: the alternatives are tried in a fixed order, each backtracking to the start of the statement when it fails.
#[verifier::loop_isolation(false)]
fn stat(ts: &mut TokenStream) -> (r: Result<Stat, TokenStreamError>)
    requires
        old(ts).wf(),
    ensures
        final(ts).wf(),
        final(ts).input == old(ts).input,
        old(ts).position <= final(ts).position,
        match r {
            Ok(n) => old(ts).position < final(ts).position && tok_kinds(
                final(ts).input@.subrange(old(ts).position as int, final(ts).position as int),
            ) == stat_kinds(n),
            Err(_) => final(ts).position == old(ts).position,
        },
        (match next_kind(*old(ts)) {
            Option::Some(k) => k == TokenType::Eof ==> r is Err,
            Option::None => r is Err,
        }),
    decreases ts.input@.len() - ts.position, 10int,
{
    match stat_assign(ts) {
        Ok(n) => {
            return Ok(n);
        },
        Err(_) => {},
    }
    match stat_function_call(ts) {
        Ok(n) => {
            return Ok(n);
        },
        Err(_) => {},
    }
    match stat_do_block(ts) {
        Ok(n) => {
            return Ok(n);
        },
        Err(_) => {},
    }
    match stat_while_block(ts) {
        Ok(n) => {
            return Ok(n);
        },
        Err(_) => {},
    }
    match stat_repeat_block(ts) {
        Ok(n) => {
            return Ok(n);
        },
        Err(_) => {},
    }
    match stat_if_block(ts) {
        Ok(n) => {
            return Ok(n);
        },
        Err(_) => {},
    }
    match stat_for_block(ts) {
        Ok(n) => {
            return Ok(n);
        },
        Err(_) => {},
    }
    match stat_for_in_block(ts) {
        Ok(n) => {
            return Ok(n);
        },
        Err(_) => {},
    }
    match stat_function_decl(ts) {
        Ok(n) => {
            return Ok(n);
        },
        Err(_) => {},
    }
    match stat_local_function_decl(ts) {
        Ok(n) => {
            return Ok(n);
        },
        Err(_) => {},
    }
    stat_local_var_decl(ts)
}

/// stat ::= varlist `=` explist
#[verifier::loop_isolation(false)]
fn stat_assign(ts: &mut TokenStream) -> (r: Result<Stat, TokenStreamError>)
    requires
        old(ts).wf(),
    ensures
        final(ts).wf(),
        final(ts).input == old(ts).input,
        old(ts).position <= final(ts).position,
        match r {
            Ok(n) => old(ts).position < final(ts).position && tok_kinds(
                final(ts).input@.subrange(old(ts).position as int, final(ts).position as int),
            ) == stat_kinds(n),
            Err(_) => final(ts).position == old(ts).position,
        },
        next_kind(*old(ts)) != Option::Some(TokenType::Name) ==> r is Err,
    decreases ts.input@.len() - ts.position, 9int,
{
    let p0 = ts.position;
    let ghost g0 = ts.position as int;
    let vl = varlist(ts)?;
    let ghost g1 = ts.position as int;
    if let Err(e) = ts.expect(TokenType::Assign) {
        ts.position = p0;
        return Err(e);
    }
    let ghost g2 = ts.position as int;
    match exprlist1(ts) {
        Ok(el) => {
            let ghost g3 = ts.position as int;
            proof {
                lemma_kinds_one(ts.input@, g1);
                lemma_kinds_split(ts.input@, g0, g1, g3);
                lemma_kinds_split(ts.input@, g1, g2, g3);
                assert(tok_kinds(ts.input@.subrange(g0, g3)) =~= varlist_kinds(vl) + seq![
                    TokenType::Assign,
                ] + exprlist_kinds(el));
            }
            Ok(Stat::Assign(vl, el))
        },
        Err(e) => {
            ts.position = p0;
            Err(e)
        },
    }
}

/// stat ::= functioncall
#[verifier::loop_isolation(false)]
fn stat_function_call(ts: &mut TokenStream) -> (r: Result<Stat, TokenStreamError>)
    requires
        old(ts).wf(),
    ensures
        final(ts).wf(),
        final(ts).input == old(ts).input,
        old(ts).position <= final(ts).position,
        match r {
            Ok(n) => old(ts).position < final(ts).position && tok_kinds(
                final(ts).input@.subrange(old(ts).position as int, final(ts).position as int),
            ) == stat_kinds(n),
            Err(_) => final(ts).position == old(ts).position,
        },
        !(next_kind(*old(ts)) == Option::Some(TokenType::Name) || next_kind(*old(ts))
            == Option::Some(TokenType::ParenL)) ==> r is Err,
    decreases ts.input@.len() - ts.position, 9int,
{
    let fc = functioncall(ts)?;
    Ok(Stat::FunctionCall(fc))
}

/// stat ::= do block end
#[verifier::loop_isolation(false)]
fn stat_do_block(ts: &mut TokenStream) -> (r: Result<Stat, TokenStreamError>)
    requires
        old(ts).wf(),
    ensures
        final(ts).wf(),
        final(ts).input == old(ts).input,
        old(ts).position <= final(ts).position,
        match r {
            Ok(n) => old(ts).position < final(ts).position && tok_kinds(
                final(ts).input@.subrange(old(ts).position as int, final(ts).position as int),
            ) == stat_kinds(n),
            Err(_) => final(ts).position == old(ts).position,
        },
        next_kind(*old(ts)) != Option::Some(TokenType::Do) ==> r is Err,
    decreases ts.input@.len() - ts.position, 9int,
{
    let p0 = ts.position;
    let ghost g0 = ts.position as int;
    let _d = ts.expect(TokenType::Do)?;
    let ghost g1 = ts.position as int;
    let b = block(ts);
    let ghost g2 = ts.position as int;
    match ts.expect(TokenType::End) {
        Err(e) => {
            ts.position = p0;
            Err(e)
        },
        Ok(_) => {
            let ghost g3 = ts.position as int;
            proof {
                lemma_kinds_one(ts.input@, g0);
                lemma_kinds_one(ts.input@, g2);
                lemma_kinds_split(ts.input@, g0, g1, g3);
                lemma_kinds_split(ts.input@, g1, g2, g3);
                assert(tok_kinds(ts.input@.subrange(g0, g3)) =~= seq![TokenType::Do] + block_kinds(
                    b,
                ) + seq![TokenType::End]);
            }
            Ok(Stat::Do(b))
        },
    }
}

/// stat ::= while exp do block end
#[verifier::loop_isolation(false)]
fn stat_while_block(ts: &mut TokenStream) -> (r: Result<Stat, TokenStreamError>)
    requires
        old(ts).wf(),
    ensures
        final(ts).wf(),
        final(ts).input == old(ts).input,
        old(ts).position <= final(ts).position,
        match r {
            Ok(n) => old(ts).position < final(ts).position && tok_kinds(
                final(ts).input@.subrange(old(ts).position as int, final(ts).position as int),
            ) == stat_kinds(n),
            Err(_) => final(ts).position == old(ts).position,
        },
        next_kind(*old(ts)) != Option::Some(TokenType::While) ==> r is Err,
    decreases ts.input@.len() - ts.position, 9int,
{
    let p0 = ts.position;
    let ghost g0 = ts.position as int;
    let _w = ts.expect(TokenType::While)?;
    let ghost g1 = ts.position as int;
    let cond = match expr_binop_bottom(ts) {
        Ok(e) => e,
        Err(e) => {
            ts.position = p0;
            return Err(e);
        },
    };
    let ghost g2 = ts.position as int;
    if let Err(e) = ts.expect(TokenType::Do) {
        ts.position = p0;
        return Err(e);
    }
    let ghost g3 = ts.position as int;
    let b = block(ts);
    let ghost g4 = ts.position as int;
    match ts.expect(TokenType::End) {
        Err(e) => {
            ts.position = p0;
            Err(e)
        },
        Ok(_) => {
            let ghost g5 = ts.position as int;
            proof {
                lemma_kinds_one(ts.input@, g0);
                lemma_kinds_one(ts.input@, g2);
                lemma_kinds_one(ts.input@, g4);
                lemma_kinds_split(ts.input@, g0, g1, g5);
                lemma_kinds_split(ts.input@, g1, g2, g5);
                lemma_kinds_split(ts.input@, g2, g3, g5);
                lemma_kinds_split(ts.input@, g3, g4, g5);
                assert(tok_kinds(ts.input@.subrange(g0, g5)) =~= seq![TokenType::While]
                    + expr_kinds(cond) + seq![TokenType::Do] + block_kinds(b) + seq![
                    TokenType::End,
                ]);
            }
            Ok(Stat::While(Box::new(cond), b))
        },
    }
}

/// stat ::= repeat block until exp
#[verifier::loop_isolation(false)]
fn stat_repeat_block(ts: &mut TokenStream) -> (r: Result<Stat, TokenStreamError>)
    requires
        old(ts).wf(),
    ensures
        final(ts).wf(),
        final(ts).input == old(ts).input,
        old(ts).position <= final(ts).position,
        match r {
            Ok(n) => old(ts).position < final(ts).position && tok_kinds(
                final(ts).input@.subrange(old(ts).position as int, final(ts).position as int),
            ) == stat_kinds(n),
            Err(_) => final(ts).position == old(ts).position,
        },
        next_kind(*old(ts)) != Option::Some(TokenType::Repeat) ==> r is Err,
    decreases ts.input@.len() - ts.position, 9int,
{
    let p0 = ts.position;
    let ghost g0 = ts.position as int;
    let _r = ts.expect(TokenType::Repeat)?;
    let ghost g1 = ts.position as int;
    let b = block(ts);
    let ghost g2 = ts.position as int;
    if let Err(e) = ts.expect(TokenType::Until) {
        ts.position = p0;
        return Err(e);
    }
    let ghost g3 = ts.position as int;
    match expr_binop_bottom(ts) {
        Err(e) => {
            ts.position = p0;
            Err(e)
        },
        Ok(cond) => {
            let ghost g4 = ts.position as int;
            proof {
                lemma_kinds_one(ts.input@, g0);
                lemma_kinds_one(ts.input@, g2);
                lemma_kinds_split(ts.input@, g0, g1, g4);
                lemma_kinds_split(ts.input@, g1, g2, g4);
                lemma_kinds_split(ts.input@, g2, g3, g4);
                assert(tok_kinds(ts.input@.subrange(g0, g4)) =~= seq![TokenType::Repeat]
                    + block_kinds(b) + seq![TokenType::Until] + expr_kinds(cond));
            }
            Ok(Stat::Repeat(Box::new(cond), b))
        },
    }
}

/// stat ::= if exp then block {elseif exp then block} [else block] end
#[verifier::loop_isolation(false)]
#[verifier::rlimit(60)]
fn stat_if_block(ts: &mut TokenStream) -> (r: Result<Stat, TokenStreamError>)
    requires
        old(ts).wf(),
    ensures
        final(ts).wf(),
        final(ts).input == old(ts).input,
        old(ts).position <= final(ts).position,
        match r {
            Ok(n) => old(ts).position < final(ts).position && tok_kinds(
                final(ts).input@.subrange(old(ts).position as int, final(ts).position as int),
            ) == stat_kinds(n),
            Err(_) => final(ts).position == old(ts).position,
        },
        next_kind(*old(ts)) != Option::Some(TokenType::If) ==> r is Err,
    decreases ts.input@.len() - ts.position, 9int,
{
    let p0 = ts.position;
    let ghost g0 = ts.position as int;
    let _i = ts.expect(TokenType::If)?;
    let ghost g1 = ts.position as int;
    let cond = match expr_binop_bottom(ts) {
        Ok(e) => e,
        Err(e) => {
            ts.position = p0;
            return Err(e);
        },
    };
    let ghost g2 = ts.position as int;
    if let Err(e) = ts.expect(TokenType::Then) {
        ts.position = p0;
        return Err(e);
    }
    let ghost g3 = ts.position as int;
    let b = block(ts);
    let ghost g4 = ts.position as int;
    proof {
        lemma_kinds_one(ts.input@, g0);
        lemma_kinds_one(ts.input@, g2);
        lemma_kinds_split(ts.input@, g0, g1, g4);
        lemma_kinds_split(ts.input@, g1, g2, g4);
        lemma_kinds_split(ts.input@, g2, g3, g4);
        assert(tok_kinds(ts.input@.subrange(g0, g4)) =~= seq![TokenType::If] + expr_kinds(cond)
            + seq![TokenType::Then] + block_kinds(b));
    }
    let mut elifs: Vec<(Box<Expr>, Block)> = Vec::new();
    proof {
        assert(elifs_kinds(elifs@) =~= Seq::<TokenType>::empty());
        assert(tok_kinds(ts.input@.subrange(g4, g4)) =~= Seq::<TokenType>::empty());
        lemma_kinds_split(ts.input@, g0, g4, g4);
    }
    let mut stop = false;
    while !stop
        invariant
            ts.wf(),
            ts.input == old(ts).input,
            g4 <= ts.position as int <= ts.input@.len(),
            g0 < g4,
            tok_kinds(ts.input@.subrange(g4, ts.position as int)) == elifs_kinds(elifs@),
        decreases ts.input@.len() - ts.position, (if stop { 0int } else { 1int }),
    {
        if ts.check(TokenType::Elseif) {
            let psave = ts.position;
            let ghost gs = ts.position as int;
            match ts.expect(TokenType::Elseif) {
                Ok(_) => {
                    match expr_binop_bottom(ts) {
                        Ok(ec) => {
                            let ghost ge = ts.position as int;
                            match ts.expect(TokenType::Then) {
                                Ok(_) => {
                                    let ghost gt = ts.position as int;
                                    let eb = block(ts);
                                    let ghost g5 = ts.position as int;
                                    proof {
                                        lemma_kinds_one(ts.input@, gs);
                                        lemma_kinds_one(ts.input@, ge);
                                        lemma_kinds_split(ts.input@, g4, gs, g5);
                                        lemma_kinds_split(ts.input@, gs, gs + 1, g5);
                                        lemma_kinds_split(ts.input@, gs + 1, ge, g5);
                                        lemma_kinds_split(ts.input@, ge, gt, g5);
                                        lemma_elifs_kinds_push(elifs@, (Box::new(ec), eb));
                                    }
                                    let pair = (Box::new(ec), eb);
                                    proof {
                                        assert(tok_kinds(ts.input@.subrange(g4, g5))
                                            =~= elifs_kinds(elifs@) + seq![TokenType::Elseif]
                                            + expr_kinds(*pair.0) + seq![TokenType::Then]
                                            + block_kinds(pair.1));
                                        assert(elifs_kinds(elifs@.push(pair)) =~= elifs_kinds(
                                            elifs@,
                                        ) + seq![TokenType::Elseif] + expr_kinds(*pair.0) + seq![
                                            TokenType::Then,
                                        ] + block_kinds(pair.1));
                                    }
                                    elifs.push(pair);
                                },
                                Err(_) => {
                                    ts.position = psave;
                                    stop = true;
                                },
                            }
                        },
                        Err(_) => {
                            ts.position = psave;
                            stop = true;
                        },
                    }
                },
                Err(_) => {
                    stop = true;
                },
            }
        } else {
            stop = true;
        }
    }
    let ghost g6 = ts.position as int;
    let els: Option<Block> = if ts.check(TokenType::Else) {
        match ts.expect(TokenType::Else) {
            Ok(_) => {
                let eb = block(ts);
                Some(eb)
            },
            Err(_) => None,
        }
    } else {
        None
    };
    let ghost g7 = ts.position as int;
    proof {
        if els is Some {
            lemma_kinds_one(ts.input@, g6);
            lemma_kinds_split(ts.input@, g6, g6 + 1, g7);
            assert(tok_kinds(ts.input@.subrange(g6, g7)) =~= seq![TokenType::Else] + block_kinds(
                els->0,
            ));
        } else {
            lemma_kinds_empty(ts.input@, g6);
        }
    }
    match ts.expect(TokenType::End) {
        Err(e) => {
            ts.position = p0;
            Err(e)
        },
        Ok(_) => {
            let ghost g8 = ts.position as int;
            proof {
                lemma_kinds_one(ts.input@, g7);
                lemma_kinds_split(ts.input@, g0, g4, g8);
                lemma_kinds_split(ts.input@, g4, g6, g8);
                lemma_kinds_split(ts.input@, g6, g7, g8);
                let eseg = if els is Some {
                    seq![TokenType::Else] + block_kinds(els->0)
                } else {
                    Seq::<TokenType>::empty()
                };
                assert(tok_kinds(ts.input@.subrange(g0, g8)) =~= seq![TokenType::If] + expr_kinds(
                    cond,
                ) + seq![TokenType::Then] + block_kinds(b) + elifs_kinds(elifs@) + eseg + seq![
                    TokenType::End,
                ]);
            }
            Ok(Stat::If(Box::new(cond), b, elifs, els))
        },
    }
}

/// stat ::= for Name `=` exp `,` exp [`,` exp] do block end
#[verifier::loop_isolation(false)]
#[verifier::rlimit(60)]
fn stat_for_block(ts: &mut TokenStream) -> (r: Result<Stat, TokenStreamError>)
    requires
        old(ts).wf(),
    ensures
        final(ts).wf(),
        final(ts).input == old(ts).input,
        old(ts).position <= final(ts).position,
        match r {
            Ok(n) => old(ts).position < final(ts).position && tok_kinds(
                final(ts).input@.subrange(old(ts).position as int, final(ts).position as int),
            ) == stat_kinds(n),
            Err(_) => final(ts).position == old(ts).position,
        },
        next_kind(*old(ts)) != Option::Some(TokenType::For) ==> r is Err,
    decreases ts.input@.len() - ts.position, 9int,
{
    let p0 = ts.position;
    let ghost g0 = ts.position as int;
    let _f = ts.expect(TokenType::For)?;
    let name = match ts.expect(TokenType::Name) {
        Ok(t) => t,
        Err(e) => {
            ts.position = p0;
            return Err(e);
        },
    };
    if let Err(e) = ts.expect(TokenType::Assign) {
        ts.position = p0;
        return Err(e);
    }
    let ghost g1 = ts.position as int;
    let e1 = match expr_binop_bottom(ts) {
        Ok(e) => e,
        Err(e) => {
            ts.position = p0;
            return Err(e);
        },
    };
    let ghost g2 = ts.position as int;
    if let Err(e) = ts.expect(TokenType::Comma) {
        ts.position = p0;
        return Err(e);
    }
    let ghost g3 = ts.position as int;
    let e2 = match expr_binop_bottom(ts) {
        Ok(e) => e,
        Err(e) => {
            ts.position = p0;
            return Err(e);
        },
    };
    let ghost g4 = ts.position as int;
    let e3: Option<Box<Expr>> = if ts.check(TokenType::Comma) {
        let psave = ts.position;
        match ts.expect(TokenType::Comma) {
            Ok(_) => {
                match expr_binop_bottom(ts) {
                    Ok(e) => Some(Box::new(e)),
                    Err(_) => {
                        ts.position = psave;
                        None
                    },
                }
            },
            Err(_) => None,
        }
    } else {
        None
    };
    let ghost g5 = ts.position as int;
    proof {
        if e3 is Some {
            lemma_kinds_one(ts.input@, g4);
            lemma_kinds_split(ts.input@, g4, g4 + 1, g5);
            assert(tok_kinds(ts.input@.subrange(g4, g5)) =~= seq![TokenType::Comma] + expr_kinds(
                *e3->0,
            ));
        } else {
            lemma_kinds_empty(ts.input@, g4);
        }
    }
    if let Err(e) = ts.expect(TokenType::Do) {
        ts.position = p0;
        return Err(e);
    }
    let ghost g6 = ts.position as int;
    let b = block(ts);
    let ghost g7 = ts.position as int;
    match ts.expect(TokenType::End) {
        Err(e) => {
            ts.position = p0;
            Err(e)
        },
        Ok(_) => {
            let ghost g8 = ts.position as int;
            proof {
                lemma_kinds_one(ts.input@, g0);
                lemma_kinds_one(ts.input@, g0 + 1);
                lemma_kinds_one(ts.input@, g0 + 2);
                lemma_kinds_one(ts.input@, g2);
                lemma_kinds_one(ts.input@, g5);
                lemma_kinds_one(ts.input@, g7);
                lemma_kinds_split(ts.input@, g0, g0 + 1, g8);
                lemma_kinds_split(ts.input@, g0 + 1, g0 + 2, g8);
                lemma_kinds_split(ts.input@, g0 + 2, g1, g8);
                lemma_kinds_split(ts.input@, g1, g2, g8);
                lemma_kinds_split(ts.input@, g2, g3, g8);
                lemma_kinds_split(ts.input@, g3, g4, g8);
                lemma_kinds_split(ts.input@, g4, g5, g8);
                lemma_kinds_split(ts.input@, g5, g6, g8);
                lemma_kinds_split(ts.input@, g6, g7, g8);
                let oseg = if e3 is Some {
                    seq![TokenType::Comma] + expr_kinds(*e3->0)
                } else {
                    Seq::<TokenType>::empty()
                };
                assert(tok_kinds(ts.input@.subrange(g0, g8)) =~= seq![
                    TokenType::For,
                    name.token_type,
                    TokenType::Assign,
                ] + expr_kinds(e1) + seq![TokenType::Comma] + expr_kinds(e2) + oseg + seq![
                    TokenType::Do,
                ] + block_kinds(b) + seq![TokenType::End]);
            }
            Ok(Stat::For(name, Box::new(e1), Box::new(e2), e3, b))
        },
    }
}

/// stat ::= for namelist in explist do block end
#[verifier::loop_isolation(false)]
fn stat_for_in_block(ts: &mut TokenStream) -> (r: Result<Stat, TokenStreamError>)
    requires
        old(ts).wf(),
    ensures
        final(ts).wf(),
        final(ts).input == old(ts).input,
        old(ts).position <= final(ts).position,
        match r {
            Ok(n) => old(ts).position < final(ts).position && tok_kinds(
                final(ts).input@.subrange(old(ts).position as int, final(ts).position as int),
            ) == stat_kinds(n),
            Err(_) => final(ts).position == old(ts).position,
        },
        next_kind(*old(ts)) != Option::Some(TokenType::For) ==> r is Err,
    decreases ts.input@.len() - ts.position, 9int,
{
    let p0 = ts.position;
    let ghost g0 = ts.position as int;
    let _f = ts.expect(TokenType::For)?;
    let ghost g1 = ts.position as int;
    let nl = match namelist(ts) {
        Ok(nl) => nl,
        Err(e) => {
            ts.position = p0;
            return Err(e);
        },
    };
    let ghost g2 = ts.position as int;
    if let Err(e) = ts.expect(TokenType::In) {
        ts.position = p0;
        return Err(e);
    }
    let ghost g3 = ts.position as int;
    let el = exprlist(ts);
    let ghost g4 = ts.position as int;
    if let Err(e) = ts.expect(TokenType::Do) {
        ts.position = p0;
        return Err(e);
    }
    let ghost g5 = ts.position as int;
    let b = block(ts);
    let ghost g6 = ts.position as int;
    match ts.expect(TokenType::End) {
        Err(e) => {
            ts.position = p0;
            Err(e)
        },
        Ok(_) => {
            let ghost g7 = ts.position as int;
            proof {
                lemma_kinds_one(ts.input@, g0);
                lemma_kinds_one(ts.input@, g2);
                lemma_kinds_one(ts.input@, g4);
                lemma_kinds_one(ts.input@, g6);
                lemma_kinds_split(ts.input@, g0, g1, g7);
                lemma_kinds_split(ts.input@, g1, g2, g7);
                lemma_kinds_split(ts.input@, g2, g3, g7);
                lemma_kinds_split(ts.input@, g3, g4, g7);
                lemma_kinds_split(ts.input@, g4, g5, g7);
                lemma_kinds_split(ts.input@, g5, g6, g7);
                assert(tok_kinds(ts.input@.subrange(g0, g7)) =~= seq![TokenType::For]
                    + namelist_kinds(nl) + seq![TokenType::In] + exprlist_kinds(el) + seq![
                    TokenType::Do,
                ] + block_kinds(b) + seq![TokenType::End]);
            }
            Ok(Stat::ForIn(nl, el, b))
        },
    }
}

/// stat ::= function funcname funcbody
#[verifier::loop_isolation(false)]
fn stat_function_decl(ts: &mut TokenStream) -> (r: Result<Stat, TokenStreamError>)
    requires
        old(ts).wf(),
    ensures
        final(ts).wf(),
        final(ts).input == old(ts).input,
        old(ts).position <= final(ts).position,
        match r {
            Ok(n) => old(ts).position < final(ts).position && tok_kinds(
                final(ts).input@.subrange(old(ts).position as int, final(ts).position as int),
            ) == stat_kinds(n),
            Err(_) => final(ts).position == old(ts).position,
        },
        next_kind(*old(ts)) != Option::Some(TokenType::Function) ==> r is Err,
    decreases ts.input@.len() - ts.position, 9int,
{
    let p0 = ts.position;
    let ghost g0 = ts.position as int;
    let _f = ts.expect(TokenType::Function)?;
    let ghost g1 = ts.position as int;
    let fname = match funcname(ts) {
        Ok(f) => f,
        Err(e) => {
            ts.position = p0;
            return Err(e);
        },
    };
    let ghost g2 = ts.position as int;
    match funcbody(ts) {
        Err(e) => {
            ts.position = p0;
            Err(e)
        },
        Ok(fb) => {
            let ghost g3 = ts.position as int;
            proof {
                lemma_kinds_one(ts.input@, g0);
                lemma_kinds_split(ts.input@, g0, g1, g3);
                lemma_kinds_split(ts.input@, g1, g2, g3);
                assert(tok_kinds(ts.input@.subrange(g0, g3)) =~= seq![TokenType::Function]
                    + funcname_kinds(fname) + funcbody_kinds(fb));
            }
            Ok(Stat::Function(fname, fb))
        },
    }
}

/// stat ::= local function Name funcbody
#[verifier::loop_isolation(false)]
fn stat_local_function_decl(ts: &mut TokenStream) -> (r: Result<Stat, TokenStreamError>)
    requires
        old(ts).wf(),
    ensures
        final(ts).wf(),
        final(ts).input == old(ts).input,
        old(ts).position <= final(ts).position,
        match r {
            Ok(n) => old(ts).position < final(ts).position && tok_kinds(
                final(ts).input@.subrange(old(ts).position as int, final(ts).position as int),
            ) == stat_kinds(n),
            Err(_) => final(ts).position == old(ts).position,
        },
        next_kind(*old(ts)) != Option::Some(TokenType::Local) ==> r is Err,
    decreases ts.input@.len() - ts.position, 9int,
{
    let p0 = ts.position;
    let ghost g0 = ts.position as int;
    let _l = ts.expect(TokenType::Local)?;
    if let Err(e) = ts.expect(TokenType::Function) {
        ts.position = p0;
        return Err(e);
    }
    let name = match ts.expect(TokenType::Name) {
        Ok(t) => t,
        Err(e) => {
            ts.position = p0;
            return Err(e);
        },
    };
    let ghost g1 = ts.position as int;
    match funcbody(ts) {
        Err(e) => {
            ts.position = p0;
            Err(e)
        },
        Ok(fb) => {
            let ghost g2 = ts.position as int;
            proof {
                lemma_kinds_one(ts.input@, g0);
                lemma_kinds_one(ts.input@, g0 + 1);
                lemma_kinds_one(ts.input@, g0 + 2);
                lemma_kinds_split(ts.input@, g0, g0 + 1, g2);
                lemma_kinds_split(ts.input@, g0 + 1, g0 + 2, g2);
                lemma_kinds_split(ts.input@, g0 + 2, g1, g2);
                assert(tok_kinds(ts.input@.subrange(g0, g2)) =~= seq![
                    TokenType::Local,
                    TokenType::Function,
                    name.token_type,
                ] + funcbody_kinds(fb));
            }
            Ok(Stat::LocalFunction(name, fb))
        },
    }
}

/// stat ::= local namelist [`=` explist]
#[verifier::loop_isolation(false)]
fn stat_local_var_decl(ts: &mut TokenStream) -> (r: Result<Stat, TokenStreamError>)
    requires
        old(ts).wf(),
    ensures
        final(ts).wf(),
        final(ts).input == old(ts).input,
        old(ts).position <= final(ts).position,
        match r {
            Ok(n) => old(ts).position < final(ts).position && tok_kinds(
                final(ts).input@.subrange(old(ts).position as int, final(ts).position as int),
            ) == stat_kinds(n),
            Err(_) => final(ts).position == old(ts).position,
        },
        next_kind(*old(ts)) != Option::Some(TokenType::Local) ==> r is Err,
    decreases ts.input@.len() - ts.position, 9int,
{
    let p0 = ts.position;
    let ghost g0 = ts.position as int;
    let _l = ts.expect(TokenType::Local)?;
    let ghost g1 = ts.position as int;
    let nl = match namelist(ts) {
        Ok(nl) => nl,
        Err(e) => {
            ts.position = p0;
            return Err(e);
        },
    };
    let ghost g2 = ts.position as int;
    let el: Option<ExprList> = if ts.check(TokenType::Assign) {
        let psave = ts.position;
        match ts.expect(TokenType::Assign) {
            Ok(_) => {
                match exprlist1(ts) {
                    Ok(es) => Some(es),
                    Err(_) => {
                        ts.position = psave;
                        None
                    },
                }
            },
            Err(_) => None,
        }
    } else {
        None
    };
    let ghost g3 = ts.position as int;
    proof {
        lemma_kinds_one(ts.input@, g0);
        lemma_kinds_split(ts.input@, g0, g1, g3);
        lemma_kinds_split(ts.input@, g1, g2, g3);
        if el is Some {
            lemma_kinds_one(ts.input@, g2);
            lemma_kinds_split(ts.input@, g2, g2 + 1, g3);
            assert(tok_kinds(ts.input@.subrange(g2, g3)) =~= seq![TokenType::Assign]
                + exprlist_kinds(el->0));
        } else {
            lemma_kinds_empty(ts.input@, g2);
        }
        let oseg = if el is Some {
            seq![TokenType::Assign] + exprlist_kinds(el->0)
        } else {
            Seq::<TokenType>::empty()
        };
        assert(tok_kinds(ts.input@.subrange(g0, g3)) =~= seq![TokenType::Local] + namelist_kinds(
            nl,
        ) + oseg);
    }
    Ok(Stat::LocalDeclVar(nl, el))
}

/// laststat ::= return [explist] | break
#[verifier::loop_isolation(false)]
fn laststat(ts: &mut TokenStream) -> (r: Result<LastStat, TokenStreamError>)
    requires
        old(ts).wf(),
    ensures
        final(ts).wf(),
        final(ts).input == old(ts).input,
        old(ts).position <= final(ts).position,
        match r {
            Ok(n) => old(ts).position < final(ts).position && tok_kinds(
                final(ts).input@.subrange(old(ts).position as int, final(ts).position as int),
            ) == laststat_kinds(n),
            Err(_) => final(ts).position == old(ts).position,
        },
        !(next_kind(*old(ts)) == Option::Some(TokenType::Return) || next_kind(*old(ts))
            == Option::Some(TokenType::Break)) ==> r is Err,
    decreases ts.input@.len() - ts.position, 2int,
{
    let ghost g0 = ts.position as int;
    if ts.check(TokenType::Return) {
        let _r = ts.expect(TokenType::Return)?;
        let ghost g1 = ts.position as int;
        let el = exprlist(ts);
        let ghost g2 = ts.position as int;
        proof {
            lemma_kinds_one(ts.input@, g0);
            lemma_kinds_split(ts.input@, g0, g1, g2);
            assert(tok_kinds(ts.input@.subrange(g0, g2)) =~= seq![TokenType::Return]
                + exprlist_kinds(el));
        }
        return Ok(LastStat::Return(Some(el)));
    }
    let _b = ts.expect(TokenType::Break)?;
    proof {
        lemma_kinds_one(ts.input@, g0);
    }
    Ok(LastStat::Break)
}

/// chunk ::= {stat} [laststat]
#[verifier::loop_isolation(false)]
fn chunk(ts: &mut TokenStream) -> (n: Chunk)
    requires
        old(ts).wf(),
    ensures
        final(ts).wf(),
        final(ts).input == old(ts).input,
        old(ts).position <= final(ts).position,
        tok_kinds(
            final(ts).input@.subrange(old(ts).position as int, final(ts).position as int),
        ) == chunk_kinds(n),
        (match next_kind(*old(ts)) {
            Option::Some(k) => k == TokenType::Eof ==> final(ts).position == old(ts).position
                && n.0@.len() == 0 && n.1 is None,
            Option::None => final(ts).position == old(ts).position && n.0@.len() == 0 && n.1
                is None,
        }),
    decreases ts.input@.len() - ts.position, 11int,
{
    let ghost g0 = ts.position as int;
    let mut stats: Vec<Stat> = Vec::new();
    proof {
        lemma_kinds_empty(ts.input@, g0);
        assert(stats_kinds(stats@) =~= Seq::<TokenType>::empty());
    }
    let mut stop = false;
    while !stop
        invariant
            ts.wf(),
            ts.input == old(ts).input,
            g0 <= ts.position as int <= ts.input@.len(),
            tok_kinds(ts.input@.subrange(g0, ts.position as int)) == stats_kinds(stats@),
            (match next_kind(*old(ts)) {
                Option::Some(k) => k == TokenType::Eof ==> ts.position as int == g0
                    && stats@.len() == 0,
                Option::None => ts.position as int == g0 && stats@.len() == 0,
            }),
        decreases ts.input@.len() - ts.position, (if stop { 0int } else { 1int }),
    {
        let ghost gs = ts.position as int;
        match stat(ts) {
            Ok(st) => {
                let ghost g2 = ts.position as int;
                proof {
                    lemma_kinds_split(ts.input@, g0, gs, g2);
                    lemma_stats_kinds_push(stats@, st);
                }
                stats.push(st);
            },
            Err(_) => {
                stop = true;
            },
        }
    }
    let ghost g1 = ts.position as int;
    let last: Option<LastStat> = match laststat(ts) {
        Ok(ls) => Some(ls),
        Err(_) => None,
    };
    let ghost g2 = ts.position as int;
    proof {
        lemma_kinds_split(ts.input@, g0, g1, g2);
        if last is None {
            lemma_kinds_empty(ts.input@, g1);
        }
        let lseg = if last is Some {
            laststat_kinds(last->0)
        } else {
            Seq::<TokenType>::empty()
        };
        assert(tok_kinds(ts.input@.subrange(g0, g2)) =~= stats_kinds(stats@) + lseg);
    }
    Chunk(stats, last)
}

/// block ::= chunk
#[verifier::loop_isolation(false)]
fn block(ts: &mut TokenStream) -> (n: Block)
    requires
        old(ts).wf(),
    ensures
        final(ts).wf(),
        final(ts).input == old(ts).input,
        old(ts).position <= final(ts).position,
        tok_kinds(
            final(ts).input@.subrange(old(ts).position as int, final(ts).position as int),
        ) == block_kinds(n),
        (match next_kind(*old(ts)) {
            Option::Some(k) => k == TokenType::Eof ==> final(ts).position == old(ts).position
                && n.0.0@.len() == 0 && n.0.1 is None,
            Option::None => final(ts).position == old(ts).position && n.0.0@.len() == 0 && n.0.1
                is None,
        }),
    decreases ts.input@.len() - ts.position, 12int,
{
    let c = chunk(ts);
    Block(c)
}

/// Parse a whole token stream into a block. On success the consumed
/// tokens are exactly the frontier of the returned tree followed by
/// an end-of-input token: nothing is dropped, duplicated or
/// reordered. On a stream whose only `Eof` closes it — what the
/// scanner produces — the frontier covers the entire input but that
/// closing token.
#[verifier::loop_isolation(false)]
pub fn parse(stream: TokenStream) -> (r: Result<Block, TokenStreamError>)
    requires
        stream.wf(),
    ensures
        match r {
            Ok(b) => exists|p: int|
                {
                    &&& stream.position <= p < stream.input@.len()
                    &&& tok_kinds(stream.input@.subrange(stream.position as int, p)) == block_kinds(
                        b,
                    )
                    &&& stream.input@[p].token_type == TokenType::Eof
                },
            Err(_) => true,
        },
        (match r {
            Ok(b) => (stream.position == 0 && (forall|i: int|
                0 <= i < stream.input@.len() - 1 ==> (#[trigger] stream.input@[i].token_type)
                    != TokenType::Eof)) ==> tok_kinds(
                stream.input@.subrange(0, stream.input@.len() - 1),
            ) == block_kinds(b),
            Err(_) => true,
        }),
        next_kind(stream) == Option::Some(TokenType::Eof) ==> (match r {
            Ok(b) => b.0.0@.len() == 0 && b.0.1 is None,
            Err(_) => false,
        }),
{
    let mut ts = stream;
    let ghost g0 = ts.position as int;
    let b = block(&mut ts);
    let ghost g1 = ts.position as int;
    match ts.expect(TokenType::Eof) {
        Ok(_) => {
            proof {
                assert({
                    &&& stream.position <= g1 < stream.input@.len()
                    &&& tok_kinds(stream.input@.subrange(stream.position as int, g1))
                        == block_kinds(b)
                    &&& stream.input@[g1].token_type == TokenType::Eof
                });
            }
            Ok(b)
        },
        Err(e) => Err(e),
    }
}

} // verus!
