use purua::eval::eval_block;
use purua::function::LuaHost;
use purua::parser::parser::parse;
use purua::parser::stream::TokenStream;
use purua::prelude::{prelude, Prelude};
use purua::scanner::Scanner;
use purua::state::{LuaError, LuaState};
use purua::value::Value;

fn run(l: &mut LuaState, h: &mut Prelude, src: &str) -> Result<Value, LuaError> {
    let mut scanner = Scanner::new(src);
    scanner.scan().expect("scan failed");
    let stream = TokenStream::new(scanner.tokens);
    let block = parse(stream).expect("parse failed");
    eval_block(l, h, &block)
}

#[test]
fn assigning_a_global_stores_its_value() {
    let mut l = LuaState::new(256);
    let mut h = Prelude {};
    run(&mut l, &mut h, "foo = 1").unwrap();
    match l.get_global("foo") {
        Some(Value::Number(n)) => assert_eq!(1, n),
        other => panic!("expected Number(1), got {:?}", other),
    }
}

#[test]
fn flat_precedence_evaluates_left_to_right() {
    // ((((0 + 1) * 2) + 3) - 4) / 5 with integer division: 1 / 5 = 0
    let mut l = LuaState::new(256);
    let mut h = Prelude {};
    let top = l.start_block_raw();
    run(&mut l, &mut h, "local a = 0 + 1 * 2 + 3 - 4 / 5").unwrap();
    match l.get_local("a") {
        Some(Value::Number(n)) => assert_eq!(0, n),
        other => panic!("expected Number(0), got {:?}", other),
    }
    l.end_block_raw(top).unwrap();
}

/// A host whose `fib` recurses by calling back through the runtime
/// under its registered global name.
struct RecursiveFibHost;

impl LuaHost for RecursiveFibHost {
    fn call_native(&mut self, fn_id: u64, l: &mut LuaState) -> Result<i32, LuaError> {
        assert_eq!(7, fn_id);
        let v = l.arg_int(1)?;
        if v <= 2 {
            l.push_return(Value::Number(1));
        } else {
            let r0 = match l.global_funcall1(self, "fib", Value::Number(v - 2))? {
                Value::Number(n) => n,
                other => panic!("fib returned {:?}", other),
            };
            let r1 = match l.global_funcall1(self, "fib", Value::Number(v - 1))? {
                Value::Number(n) => n,
                other => panic!("fib returned {:?}", other),
            };
            l.push_return(Value::Number(r0 + r1));
        }
        Ok(1)
    }
}

#[test]
fn native_fib_recurses_through_global_funcall1() {
    let mut l = LuaState::new(256);
    let mut h = RecursiveFibHost;
    l.register_global_fn("fib", 7);
    let top_before = l.reg.top;
    let r = l.global_funcall1(&mut h, "fib", Value::Number(8)).unwrap();
    match r {
        Value::Number(n) => assert_eq!(21, n),
        other => panic!("expected Number(21), got {:?}", other),
    }
    // a successful call leaves the registry top where it found it
    assert_eq!(top_before, l.reg.top);
}

#[test]
fn prelude_fib_agrees_with_the_convention() {
    let mut l = LuaState::new(256);
    let mut h = Prelude {};
    prelude(&mut l);
    for (arg, want) in [(1, 1), (2, 1), (3, 2), (8, 21)] {
        let r = l.global_funcall1(&mut h, "fib", Value::Number(arg)).unwrap();
        match r {
            Value::Number(n) => assert_eq!(want, n),
            other => panic!("expected a number, got {:?}", other),
        }
    }
}

#[test]
fn calling_an_undefined_global_is_an_error_not_a_panic() {
    let mut l = LuaState::new(256);
    let mut h = Prelude {};
    let r = run(&mut l, &mut h, "doesNotExist()");
    match r {
        Err(e) => assert!(e.message.contains("doesNotExist")),
        Ok(v) => panic!("expected an error, got {:?}", v),
    }
}

#[test]
fn calling_a_non_function_global_names_it() {
    let mut l = LuaState::new(256);
    let mut h = Prelude {};
    run(&mut l, &mut h, "notfn = 1").unwrap();
    match l.global_funcall1(&mut h, "notfn", Value::Nil) {
        Err(e) => assert!(e.message.contains("notfn")),
        Ok(v) => panic!("expected an error, got {:?}", v),
    }
}

#[test]
fn assignment_updates_a_declared_local_inside_a_frame() {
    let mut l = LuaState::new(256);
    let mut h = Prelude {};
    let top = l.start_block_raw();
    run(&mut l, &mut h, "local a = 1 a = 2").unwrap();
    assert!(matches!(l.get_local("a"), Some(Value::Number(2))));
    // the local store leaves the globals alone
    assert!(l.get_global("a").is_none());
    l.end_block_raw(top).unwrap();
}

#[test]
fn assignment_inside_a_frame_declares_a_fresh_local() {
    let mut l = LuaState::new(256);
    let mut h = Prelude {};
    let top = l.start_block_raw();
    run(&mut l, &mut h, "b = 2").unwrap();
    assert!(matches!(l.get_local("b"), Some(Value::Number(2))));
    assert!(l.get_global("b").is_none());
    l.end_block_raw(top).unwrap();
    // at top level the same statement stores a global
    run(&mut l, &mut h, "b = 3").unwrap();
    assert!(matches!(l.get_global("b"), Some(Value::Number(3))));
}

#[test]
fn funcall_binds_parameters_in_call_order() {
    let mut l = LuaState::new(256);
    let mut h = Prelude {};
    run(&mut l, &mut h, "function sub2(a, b) return a - b end").unwrap();
    let f = l.get_global("sub2").unwrap();
    let r = l
        .funcall(&mut h, f, vec![Value::Number(10), Value::Number(4)])
        .unwrap();
    assert_eq!(1, r.len());
    // 10 - 4, not 4 - 10: the first argument is the first parameter
    assert!(matches!(r[0], Value::Number(6)));
}

#[test]
fn undefined_variable_is_a_runtime_error() {
    let mut l = LuaState::new(256);
    let mut h = Prelude {};
    assert!(run(&mut l, &mut h, "x = y").is_err());
}

#[test]
fn type_mismatch_in_operator_is_a_runtime_error() {
    let mut l = LuaState::new(256);
    let mut h = Prelude {};
    assert!(run(&mut l, &mut h, "x = 1 + true").is_err());
}

#[test]
fn division_by_zero_is_a_runtime_error() {
    let mut l = LuaState::new(256);
    let mut h = Prelude {};
    assert!(run(&mut l, &mut h, "x = 1 / 0").is_err());
}

#[test]
fn oversized_literal_is_a_runtime_error() {
    let mut l = LuaState::new(256);
    let mut h = Prelude {};
    assert!(run(&mut l, &mut h, "x = 99999999999999999999").is_err());
}

#[test]
fn comparison_and_boolean_operators_evaluate() {
    let mut l = LuaState::new(256);
    let mut h = Prelude {};
    run(&mut l, &mut h, "a = 1 < 2").unwrap();
    assert!(matches!(l.get_global("a"), Some(Value::Bool(true))));
    run(&mut l, &mut h, "b = 2 <= 1").unwrap();
    assert!(matches!(l.get_global("b"), Some(Value::Bool(false))));
    run(&mut l, &mut h, "c = true and false").unwrap();
    assert!(matches!(l.get_global("c"), Some(Value::Bool(false))));
    run(&mut l, &mut h, "d = true or false").unwrap();
    assert!(matches!(l.get_global("d"), Some(Value::Bool(true))));
    run(&mut l, &mut h, "e = \"hi\" == \"hi\"").unwrap();
    assert!(matches!(l.get_global("e"), Some(Value::Bool(true))));
    run(&mut l, &mut h, "f = \"hi\" ~= \"ho\"").unwrap();
    assert!(matches!(l.get_global("f"), Some(Value::Bool(true))));
}

#[test]
fn string_literal_evaluates_with_escape() {
    let mut l = LuaState::new(256);
    let mut h = Prelude {};
    run(&mut l, &mut h, "s = \"a\\nb\"").unwrap();
    match l.get_global("s") {
        Some(Value::LuaString(s)) => assert_eq!("a\nb", s),
        other => panic!("expected a string, got {:?}", other),
    }
}

#[test]
fn declared_function_runs_when_called() {
    let mut l = LuaState::new(256);
    let mut h = Prelude {};
    run(&mut l, &mut h, "function addone(n) return n + 1 end").unwrap();
    let r = l
        .global_funcall1(&mut h, "addone", Value::Number(41))
        .unwrap();
    match r {
        Value::Number(n) => assert_eq!(42, n),
        other => panic!("expected Number(42), got {:?}", other),
    }
}

#[test]
fn chunk_return_yields_its_value() {
    let mut l = LuaState::new(256);
    let mut h = Prelude {};
    let v = run(&mut l, &mut h, "x = 2 return x + 1").unwrap();
    match v {
        Value::Number(n) => assert_eq!(3, n),
        other => panic!("expected Number(3), got {:?}", other),
    }
}

#[test]
fn unimplemented_statements_error_cleanly() {
    let mut l = LuaState::new(256);
    let mut h = Prelude {};
    assert!(run(&mut l, &mut h, "while x do y = 1 end").is_err());
    assert!(run(&mut l, &mut h, "do x = 1 end").is_err());
}

#[test]
fn exhausted_budget_stops_evaluation() {
    let mut l = LuaState::new(256);
    let mut h = Prelude {};
    prelude(&mut l);
    l.budget = 0;
    assert!(l
        .global_funcall1(&mut h, "fib", Value::Number(3))
        .is_err());
}

#[test]
fn registry_underflow_is_an_error() {
    let mut l = LuaState::new(16);
    assert!(l.reg.ensure_pop().is_err());
}

#[test]
fn zero_parameter_function_ignores_its_argument_slot() {
    let mut l = LuaState::new(256);
    let mut h = Prelude {};
    run(&mut l, &mut h, "function five() return 5 end").unwrap();
    // a call with empty parentheses still passes one nil by convention
    let r = l.global_funcall1(&mut h, "five", Value::Nil).unwrap();
    assert!(matches!(r, Value::Number(5)));
}

#[test]
fn short_local_declarations_default_to_nil() {
    let mut l = LuaState::new(256);
    let mut h = Prelude {};
    let top = l.start_block_raw();
    run(&mut l, &mut h, "local a, b = 1").unwrap();
    assert!(matches!(l.get_local("a"), Some(Value::Number(1))));
    assert!(matches!(l.get_local("b"), Some(Value::Nil)));
    l.end_block_raw(top).unwrap();
}

#[test]
fn registry_push_and_pop_are_exact() {
    let mut l = LuaState::new(8);
    assert_eq!(0, l.reg.top);
    let t = l.reg.push(Value::Number(9));
    assert_eq!(1, t);
    assert_eq!(Ok(9), l.reg.to_int(0).map_err(|_| ()));
    assert!(l.reg.to_int(1).is_err());
    match l.reg.pop() {
        Some(Value::Number(9)) => {}
        other => panic!("expected Number(9), got {:?}", other),
    }
    assert_eq!(0, l.reg.top);
}

#[test]
fn number_renders_to_decimal_text() {
    assert_eq!(Some("-42".to_string()), Value::Number(-42).to_string());
    assert_eq!(Some("0".to_string()), Value::Number(0).to_string());
    assert_eq!(Some("105".to_string()), Value::Number(105).to_string());
    assert_eq!(
        Some("-9223372036854775808".to_string()),
        Value::Number(i64::MIN).to_string()
    );
    assert_eq!(
        Some("9223372036854775807".to_string()),
        Value::Number(i64::MAX).to_string()
    );
}

#[test]
fn parenthesized_chains_keep_flat_precedence() {
    let mut l = LuaState::new(256);
    let mut h = Prelude {};
    // parentheses regroup what the flat fold would otherwise chain
    run(&mut l, &mut h, "a = 2 + 3 * 4").unwrap();
    assert!(matches!(l.get_global("a"), Some(Value::Number(20))));
    run(&mut l, &mut h, "b = 2 + (3 * 4)").unwrap();
    assert!(matches!(l.get_global("b"), Some(Value::Number(14))));
}

#[test]
fn table_natives_build_and_extend_arrays() {
    let mut l = LuaState::new(256);
    let mut h = Prelude {};
    prelude(&mut l);
    l.global_funcall1(&mut h, "setarray", Value::Nil).unwrap();
    let handle = match l.get_global("myarray") {
        Some(Value::Table(hh)) => hh,
        other => panic!("expected a table, got {:?}", other),
    };
    let snapshot: Vec<i64> = l.tables[handle]
        .vec
        .iter()
        .map(|v| match v {
            Value::Number(n) => *n,
            other => panic!("expected numbers, got {:?}", other),
        })
        .collect();
    assert_eq!(vec![1, 2, 3], snapshot);

    l.global_funcall1(&mut h, "updatearray", Value::Nil).unwrap();
    assert_eq!(6, l.tables[handle].vec.len());

    // next(t, nil) starts the walk; next(t, i) continues it
    let tbl = Value::Table(handle);
    let nextv = l.get_global("next").unwrap();
    let r = l.funcall(&mut h, nextv, vec![tbl, Value::Nil]).unwrap();
    assert_eq!(2, r.len());
    assert!(matches!(r[0], Value::Number(1)));
    assert!(matches!(r[1], Value::Number(1)));
}

#[test]
fn pairs_returns_the_iteration_triple() {
    let mut l = LuaState::new(256);
    let mut h = Prelude {};
    prelude(&mut l);
    l.global_funcall1(&mut h, "setarray", Value::Nil).unwrap();
    let tbl = l.get_global("myarray").unwrap();
    let pairsv = l.get_global("pairs").unwrap();
    let top_before = l.reg.top;
    let r = l.funcall(&mut h, pairsv, vec![tbl]).unwrap();
    assert_eq!(3, r.len());
    assert!(matches!(r[0], Value::Function(_)));
    assert!(matches!(r[1], Value::Table(_)));
    assert!(matches!(r[2], Value::Nil));
    assert_eq!(top_before, l.reg.top);
}
