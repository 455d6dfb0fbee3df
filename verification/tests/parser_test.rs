use purua::parser::ast::{Args, Expr, LastStat, PrefixExp, Stat, Var};
use purua::parser::parser::parse;
use purua::parser::stream::TokenStream;
use purua::scanner::Scanner;

fn parse_src(src: &str) -> Result<purua::parser::ast::Block, purua::parser::stream::TokenStreamError>
{
    let mut scanner = Scanner::new(src);
    scanner.scan().expect("scan failed");
    let stream = TokenStream::new(scanner.tokens);
    parse(stream)
}

#[test]
fn parses_assignment_shape() {
    let block = parse_src("x = 1").unwrap();
    let chunk = block.0;
    assert_eq!(1, chunk.0.len());
    assert!(chunk.1.is_none());
    match &chunk.0[0] {
        Stat::Assign(vl, el) => {
            assert_eq!(1, vl.0.len());
            match &vl.0[0] {
                Var::VarName(t) => assert_eq!("x", t.lexeme),
                _ => panic!("expected a plain name"),
            }
            assert_eq!(1, el.0.len());
        }
        _ => panic!("expected an assignment"),
    }
}

#[test]
fn parses_call_statement_shape() {
    let block = parse_src("print(\"hi\")").unwrap();
    match &block.0 .0[0] {
        Stat::FunctionCall(fc) => {
            match &*fc.0 {
                PrefixExp::PrefixVar(v) => match &**v {
                    Var::VarName(t) => assert_eq!("print", t.lexeme),
                    _ => panic!("expected a name callee"),
                },
                _ => panic!("expected a variable callee"),
            }
            assert!(fc.1.is_none());
            match &fc.2 {
                Args::ArgsList(el) => assert_eq!(1, el.0.len()),
                _ => panic!("expected parenthesized arguments"),
            }
        }
        _ => panic!("expected a call statement"),
    }
}

#[test]
fn parses_flat_left_associative_operators() {
    // one flat precedence level: ((((0 + 1) * 2) + 3) - 4) / 5
    let block = parse_src("local a = 0 + 1 * 2 + 3 - 4 / 5").unwrap();
    let stat = &block.0 .0[0];
    let el = match stat {
        Stat::LocalDeclVar(_, Some(el)) => el,
        _ => panic!("expected a local declaration"),
    };
    fn leftmost_depth(e: &Expr) -> usize {
        match e {
            Expr::Binop(l, _, _) => 1 + leftmost_depth(l),
            _ => 0,
        }
    }
    // five operators fold into a five-deep left spine
    assert_eq!(5, leftmost_depth(&el.0[0]));
}

#[test]
fn parses_control_flow_shapes() {
    let block = parse_src("while x do y = 1 end").unwrap();
    assert!(matches!(&block.0 .0[0], Stat::While(_, _)));

    let block = parse_src("repeat y = 1 until x").unwrap();
    assert!(matches!(&block.0 .0[0], Stat::Repeat(_, _)));

    let block = parse_src("if x then y = 1 elseif z then y = 2 else y = 3 end").unwrap();
    match &block.0 .0[0] {
        Stat::If(_, _, elifs, els) => {
            assert_eq!(1, elifs.len());
            assert!(els.is_some());
        }
        _ => panic!("expected an if statement"),
    }

    let block = parse_src("for i = 1, 10, 2 do x = i end").unwrap();
    match &block.0 .0[0] {
        Stat::For(name, _, _, step, _) => {
            assert_eq!("i", name.lexeme);
            assert!(step.is_some());
        }
        _ => panic!("expected a numeric for"),
    }

    let block = parse_src("for k, v in pairs(t) do x = k end").unwrap();
    match &block.0 .0[0] {
        Stat::ForIn(nl, _, _) => assert_eq!(2, nl.0.len()),
        _ => panic!("expected a generic for"),
    }
}

#[test]
fn parses_function_declarations() {
    let block = parse_src("function dofib(n) if n < 2 then return 1 end return n end").unwrap();
    match &block.0 .0[0] {
        Stat::Function(fname, fb) => {
            assert_eq!(1, fname.0.len());
            assert_eq!("dofib", fname.0[0].lexeme);
            assert_eq!(1, fb.0 .0 .0.len());
            assert_eq!("n", fb.0 .0 .0[0].lexeme);
        }
        _ => panic!("expected a function declaration"),
    }

    let block = parse_src("local function helper() return 1 end").unwrap();
    assert!(matches!(&block.0 .0[0], Stat::LocalFunction(_, _)));

    let block = parse_src("function a.b.c() return 1 end").unwrap();
    match &block.0 .0[0] {
        Stat::Function(fname, _) => assert_eq!(3, fname.0.len()),
        _ => panic!("expected a function declaration"),
    }
}

#[test]
fn parses_table_constructors() {
    let block = parse_src("t = {1, 2; x = 3, [4] = 5,}").unwrap();
    match &block.0 .0[0] {
        Stat::Assign(_, el) => match &el.0[0] {
            Expr::TableConstructor(tc) => {
                assert_eq!(4, tc.0 .0.len());
                // three separators between fields and one trailing
                assert_eq!(4, tc.0 .1.len());
            }
            _ => panic!("expected a table constructor"),
        },
        _ => panic!("expected an assignment"),
    }
}

#[test]
fn parses_return_and_break() {
    let block = parse_src("x = 1 return x").unwrap();
    assert!(matches!(&block.0 .1, Some(LastStat::Return(_))));

    let block = parse_src("break").unwrap();
    assert!(matches!(&block.0 .1, Some(LastStat::Break)));
}

#[test]
fn rejects_trailing_garbage() {
    assert!(parse_src("do end end").is_err());
    assert!(parse_src("x = ").is_err());
    assert!(parse_src(") (").is_err());
}

#[test]
fn empty_source_parses_to_empty_block() {
    let block = parse_src("").unwrap();
    assert_eq!(0, block.0 .0.len());
    assert!(block.0 .1.is_none());
}
