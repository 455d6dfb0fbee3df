//! The abstract syntax tree, following the grammar of Lua 5.1:
//!
//! ```text
//! chunk ::= {stat [`;`]} [laststat [`;`]]
//! block ::= chunk
//! stat ::=  varlist `=` explist |
//!   functioncall |
//!   do block end |
//!   while exp do block end |
//!   repeat block until exp |
//!   if exp then block {elseif exp then block} [else block] end |
//!   for Name `=` exp `,` exp [`,` exp] do block end |
//!   for namelist in explist do block end |
//!   function funcname funcbody |
//!   local function Name funcbody |
//!   local namelist [`=` explist]
//! laststat ::= return [explist] | break
//! funcname ::= Name {`.` Name} [`:` Name]
//! varlist ::= var {`,` var}
//! var ::=  Name | prefixexp `[` exp `]` | prefixexp `.` Name
//! namelist ::= Name {`,` Name}
//! explist ::= {exp `,`} exp
//! exp ::=  nil | false | true | Number | String | `...` | function |
//!   prefixexp | tableconstructor | exp binop exp | unop exp
//! prefixexp ::= var | functioncall | `(` exp `)`
//! functioncall ::=  prefixexp args | prefixexp `:` Name args
//! args ::=  `(` [explist] `)` | tableconstructor | String
//! function ::= function funcbody
//! funcbody ::= `(` [parlist] `)` block end
//! parlist ::= namelist [`...`] | `...`
//! tableconstructor ::= `{` [fieldlist] `}`
//! fieldlist ::= field {fieldsep field} [fieldsep]
//! field ::= `[` exp `]` `=` exp | Name `=` exp | exp
//! fieldsep ::= `,` | `;`
//! ```
//!
//! Every recursive child is exclusively owned by its parent, except a
//! function body's block, which is shared so that registering the
//! function in the runtime needs no deep copy.
//!
//! Leaf data (names, numbers, strings, operators) is carried as the
//! token it was read from. The frontier of a tree — the token kinds of
//! the source text it was parsed from, in order — is given by the
//! `*_kinds` functions; the parser proves that the frontier of its
//! output is exactly the input it consumed, so no node is dropped,
//! duplicated or reordered.

use vstd::prelude::*;

use std::rc::Rc;

use crate::scanner::Token;
use crate::token_type::TokenType;

verus! {

#[derive(Debug)]
pub struct Chunk(pub Vec<Stat>, pub Option<LastStat>);

#[derive(Debug)]
pub struct Block(pub Chunk);

#[derive(Debug)]
pub enum Stat {
    Assign(VarList, ExprList),
    FunctionCall(FunctionCall),
    Do(Block),
    While(Box<Expr>, Block),
    Repeat(Box<Expr>, Block),
    If(Box<Expr>, Block, Vec<(Box<Expr>, Block)>, Option<Block>),
    For(Token, Box<Expr>, Box<Expr>, Option<Box<Expr>>, Block),
    ForIn(NameList, ExprList, Block),
    Function(FuncName, FuncBody),
    LocalFunction(Token, FuncBody),
    LocalDeclVar(NameList, Option<ExprList>),
}

#[derive(Debug)]
pub enum LastStat {
    Return(Option<ExprList>),
    Break,
}

#[derive(Debug)]
pub struct FuncName(pub Vec<Token>, pub Option<Token>);

#[derive(Debug)]
pub struct VarList(pub Vec<Var>);

#[derive(Debug)]
pub enum Var {
    VarName(Token),
    VarIdx(PrefixExp, Box<Expr>),
    VarMember(PrefixExp, Token),
}

#[derive(Debug)]
pub struct NameList(pub Vec<Token>);

#[derive(Debug)]
pub struct ExprList(pub Vec<Expr>);

#[derive(Debug)]
pub enum Expr {
    Nil,
    False,
    True,
    Number(Token),
    String(Token),
    Dots,
    Function(Function),
    PrefixExp(PrefixExp),
    TableConstructor(TableConstructor),
    Binop(Box<Expr>, Binop, Box<Expr>),
    Unop(Unop, Box<Expr>),
}

#[derive(Debug)]
pub enum PrefixExp {
    PrefixVar(Box<Var>),
    PrefixCall(FunctionCall),
    PrefixParen(Box<Expr>),
}

#[derive(Debug)]
pub struct FunctionCall(pub Box<PrefixExp>, pub Option<Token>, pub Args);

#[derive(Debug)]
pub enum Args {
    ArgsNone,
    ArgsList(ExprList),
    ArgsTable(TableConstructor),
    ArgsString(Token),
}

#[derive(Debug)]
pub struct Function(pub FuncBody);

/// Parameter list and body. The block is shared: the evaluator hands
/// it to the runtime's function registry without copying the tree.
#[derive(Debug)]
pub struct FuncBody(pub ParamList, pub Rc<Block>);

/// Parameter names, and whether a trailing `...` was given.
#[derive(Debug)]
pub struct ParamList(pub NameList, pub bool);

#[derive(Debug)]
pub struct TableConstructor(pub FieldList);

/// Fields of a table constructor and the separators between (and
/// possibly after) them: either one separator less than fields, or,
/// with a trailing separator, exactly as many.
#[derive(Debug)]
pub struct FieldList(pub Vec<Field>, pub Vec<Fieldsep>);

#[derive(Debug)]
pub enum Field {
    AssignIdx(Box<Expr>, Box<Expr>),
    AssignName(Token, Box<Expr>),
    UniExp(Box<Expr>),
}

/// A field separator inside a table constructor: `,` or `;`.
#[derive(Debug)]
pub struct Fieldsep(pub Token);

/// A binary operator, carried as its token.
#[derive(Debug)]
pub struct Binop(pub Token);

/// A unary operator, carried as its token.
#[derive(Debug)]
pub struct Unop(pub Token);

// ------------------------------------------------------------------
// The frontier of a tree: the token kinds it was parsed from
// ------------------------------------------------------------------

pub open spec fn chunk_kinds(c: Chunk) -> Seq<TokenType>
    decreases c,
{
    stats_kinds(c.0@) + match c.1 {
        Option::None => Seq::<TokenType>::empty(),
        Option::Some(ls) => laststat_kinds(ls),
    }
}

pub open spec fn stats_kinds(ss: Seq<Stat>) -> Seq<TokenType>
    decreases ss,
{
    if ss.len() == 0 {
        Seq::empty()
    } else {
        stat_kinds(ss[0]) + stats_kinds(ss.drop_first())
    }
}

pub open spec fn block_kinds(b: Block) -> Seq<TokenType>
    decreases b,
{
    chunk_kinds(b.0)
}

pub open spec fn stat_kinds(s: Stat) -> Seq<TokenType>
    decreases s,
{
    match s {
        Stat::Assign(vl, el) => varlist_kinds(vl) + seq![TokenType::Assign] + exprlist_kinds(el),
        Stat::FunctionCall(fc) => funcall_kinds(fc),
        Stat::Do(b) => seq![TokenType::Do] + block_kinds(b) + seq![TokenType::End],
        Stat::While(e, b) => seq![TokenType::While] + expr_kinds(*e) + seq![TokenType::Do]
            + block_kinds(b) + seq![TokenType::End],
        Stat::Repeat(e, b) => seq![TokenType::Repeat] + block_kinds(b) + seq![TokenType::Until]
            + expr_kinds(*e),
        Stat::If(e, b, elifs, els) => seq![TokenType::If] + expr_kinds(*e) + seq![TokenType::Then]
            + block_kinds(b) + elifs_kinds(elifs@) + (match els {
            Option::None => Seq::<TokenType>::empty(),
            Option::Some(eb) => seq![TokenType::Else] + block_kinds(eb),
        }) + seq![TokenType::End],
        Stat::For(name, e1, e2, e3, b) => seq![TokenType::For, name.token_type, TokenType::Assign]
            + expr_kinds(*e1) + seq![TokenType::Comma] + expr_kinds(*e2) + (match e3 {
            Option::None => Seq::<TokenType>::empty(),
            Option::Some(e) => seq![TokenType::Comma] + expr_kinds(*e),
        }) + seq![TokenType::Do] + block_kinds(b) + seq![TokenType::End],
        Stat::ForIn(nl, el, b) => seq![TokenType::For] + namelist_kinds(nl) + seq![TokenType::In]
            + exprlist_kinds(el) + seq![TokenType::Do] + block_kinds(b) + seq![TokenType::End],
        Stat::Function(fname, fbody) => seq![TokenType::Function] + funcname_kinds(fname)
            + funcbody_kinds(fbody),
        Stat::LocalFunction(name, fbody) => seq![
            TokenType::Local,
            TokenType::Function,
            name.token_type,
        ] + funcbody_kinds(fbody),
        Stat::LocalDeclVar(nl, el) => seq![TokenType::Local] + namelist_kinds(nl) + (match el {
            Option::None => Seq::<TokenType>::empty(),
            Option::Some(es) => seq![TokenType::Assign] + exprlist_kinds(es),
        }),
    }
}

pub open spec fn elifs_kinds(es: Seq<(Box<Expr>, Block)>) -> Seq<TokenType>
    decreases es,
{
    if es.len() == 0 {
        Seq::empty()
    } else {
        seq![TokenType::Elseif] + expr_kinds(*es[0].0) + seq![TokenType::Then] + block_kinds(
            es[0].1,
        ) + elifs_kinds(es.drop_first())
    }
}

pub open spec fn laststat_kinds(ls: LastStat) -> Seq<TokenType>
    decreases ls,
{
    match ls {
        LastStat::Return(el) => seq![TokenType::Return] + (match el {
            Option::None => Seq::<TokenType>::empty(),
            Option::Some(es) => exprlist_kinds(es),
        }),
        LastStat::Break => seq![TokenType::Break],
    }
}

pub open spec fn funcname_kinds(f: FuncName) -> Seq<TokenType>
    decreases f,
{
    names_kinds(f.0@) + match f.1 {
        Option::None => Seq::<TokenType>::empty(),
        Option::Some(n) => seq![TokenType::Colon, n.token_type],
    }
}

/// Names separated by periods, as in a function name path.
pub open spec fn names_kinds(ns: Seq<Token>) -> Seq<TokenType>
    decreases ns,
{
    if ns.len() == 0 {
        Seq::empty()
    } else if ns.len() == 1 {
        seq![ns[0].token_type]
    } else {
        seq![ns[0].token_type, TokenType::Period] + names_kinds(ns.drop_first())
    }
}

pub open spec fn varlist_kinds(vl: VarList) -> Seq<TokenType>
    decreases vl,
{
    vars_kinds(vl.0@)
}

pub open spec fn vars_kinds(vs: Seq<Var>) -> Seq<TokenType>
    decreases vs,
{
    if vs.len() == 0 {
        Seq::empty()
    } else if vs.len() == 1 {
        var_kinds(vs[0])
    } else {
        var_kinds(vs[0]) + seq![TokenType::Comma] + vars_kinds(vs.drop_first())
    }
}

pub open spec fn var_kinds(v: Var) -> Seq<TokenType>
    decreases v,
{
    match v {
        Var::VarName(t) => seq![t.token_type],
        Var::VarIdx(p, e) => prefixexp_kinds(p) + seq![TokenType::BracketL] + expr_kinds(*e)
            + seq![TokenType::BracketR],
        Var::VarMember(p, n) => prefixexp_kinds(p) + seq![TokenType::Period, n.token_type],
    }
}

pub open spec fn namelist_kinds(nl: NameList) -> Seq<TokenType>
    decreases nl,
{
    commaed_names_kinds(nl.0@)
}

/// Names separated by commas, as in name lists and parameter lists.
pub open spec fn commaed_names_kinds(ns: Seq<Token>) -> Seq<TokenType>
    decreases ns,
{
    if ns.len() == 0 {
        Seq::empty()
    } else if ns.len() == 1 {
        seq![ns[0].token_type]
    } else {
        seq![ns[0].token_type, TokenType::Comma] + commaed_names_kinds(ns.drop_first())
    }
}

pub open spec fn exprlist_kinds(el: ExprList) -> Seq<TokenType>
    decreases el,
{
    exprs_kinds(el.0@)
}

pub open spec fn exprs_kinds(es: Seq<Expr>) -> Seq<TokenType>
    decreases es,
{
    if es.len() == 0 {
        Seq::empty()
    } else if es.len() == 1 {
        expr_kinds(es[0])
    } else {
        expr_kinds(es[0]) + seq![TokenType::Comma] + exprs_kinds(es.drop_first())
    }
}

pub open spec fn expr_kinds(e: Expr) -> Seq<TokenType>
    decreases e,
{
    match e {
        Expr::Nil => seq![TokenType::Nil],
        Expr::False => seq![TokenType::False],
        Expr::True => seq![TokenType::True],
        Expr::Number(t) => seq![t.token_type],
        Expr::String(t) => seq![t.token_type],
        Expr::Dots => seq![TokenType::Dots],
        Expr::Function(f) => seq![TokenType::Function] + funcbody_kinds(f.0),
        Expr::PrefixExp(p) => prefixexp_kinds(p),
        Expr::TableConstructor(tc) => tc_kinds(tc),
        Expr::Binop(l, op, r) => expr_kinds(*l) + seq![op.0.token_type] + expr_kinds(*r),
        Expr::Unop(op, e1) => seq![op.0.token_type] + expr_kinds(*e1),
    }
}

pub open spec fn prefixexp_kinds(p: PrefixExp) -> Seq<TokenType>
    decreases p,
{
    match p {
        PrefixExp::PrefixVar(v) => var_kinds(*v),
        PrefixExp::PrefixCall(fc) => funcall_kinds(fc),
        PrefixExp::PrefixParen(e) => seq![TokenType::ParenL] + expr_kinds(*e)
            + seq![TokenType::ParenR],
    }
}

pub open spec fn funcall_kinds(fc: FunctionCall) -> Seq<TokenType>
    decreases fc,
{
    prefixexp_kinds(*fc.0) + (match fc.1 {
        Option::None => Seq::<TokenType>::empty(),
        Option::Some(n) => seq![TokenType::Colon, n.token_type],
    }) + args_kinds(fc.2)
}

pub open spec fn args_kinds(a: Args) -> Seq<TokenType>
    decreases a,
{
    match a {
        Args::ArgsNone => Seq::empty(),
        Args::ArgsList(el) => seq![TokenType::ParenL] + exprlist_kinds(el)
            + seq![TokenType::ParenR],
        Args::ArgsTable(tc) => tc_kinds(tc),
        Args::ArgsString(t) => seq![t.token_type],
    }
}

pub open spec fn funcbody_kinds(fb: FuncBody) -> Seq<TokenType>
    decreases fb,
{
    seq![TokenType::ParenL] + paramlist_kinds(fb.0) + seq![TokenType::ParenR] + block_kinds(
        *fb.1,
    ) + seq![TokenType::End]
}

pub open spec fn paramlist_kinds(p: ParamList) -> Seq<TokenType>
    decreases p,
{
    namelist_kinds(p.0) + if p.1 {
        seq![TokenType::Dots]
    } else {
        Seq::<TokenType>::empty()
    }
}

pub open spec fn tc_kinds(tc: TableConstructor) -> Seq<TokenType>
    decreases tc,
{
    seq![TokenType::BraceL] + fieldlist_kinds(tc.0) + seq![TokenType::BraceR]
}

pub open spec fn fieldlist_kinds(fl: FieldList) -> Seq<TokenType>
    decreases fl,
{
    fields_kinds(fl.0@, fl.1@)
}

/// Fields interleaved with their separators; a separator beyond the
/// last field is the trailing one.
pub open spec fn fields_kinds(fs: Seq<Field>, seps: Seq<Fieldsep>) -> Seq<TokenType>
    decreases fs, seps,
{
    if fs.len() == 0 {
        if seps.len() == 0 {
            Seq::empty()
        } else {
            seq![seps[0].0.token_type]
        }
    } else {
        field_kinds(fs[0]) + (if seps.len() == 0 {
            Seq::<TokenType>::empty()
        } else {
            seq![seps[0].0.token_type] + fields_kinds(fs.drop_first(), seps.drop_first())
        })
    }
}

pub open spec fn field_kinds(f: Field) -> Seq<TokenType>
    decreases f,
{
    match f {
        Field::AssignIdx(i, e) => seq![TokenType::BracketL] + expr_kinds(*i) + seq![
            TokenType::BracketR,
            TokenType::Assign,
        ] + expr_kinds(*e),
        Field::AssignName(n, e) => seq![n.token_type, TokenType::Assign] + expr_kinds(*e),
        Field::UniExp(e) => expr_kinds(*e),
    }
}

} // verus!
