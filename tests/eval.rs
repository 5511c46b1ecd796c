use harald::ast;
use harald::eval::{compile_script, BuiltInFunction, CompiledScript, InterpreterError, NameHint, Value};
use harald::run_script;

fn assign(name: &str, value: ast::Expression) -> ast::Statement {
    ast::Statement::AssignmentS(ast::Assignment { name: String::from(name), value: Box::new(value) })
}

fn lit(s: &str) -> ast::Expression {
    ast::Expression::LiteralE(String::from(s))
}

#[test]
fn eval_literal() {
    let compiled = compile_script(vec![assign("result", lit("Hello, world!"))]).unwrap();
    let output = compiled.run().unwrap();
    assert_eq!(output, "Hello, world!");
}

#[test]
fn eval_upper_first() {
    let compiled =
        compile_script(vec![assign("result", ast::Expression::CallE(String::from("capitalise"), vec![lit("robert")]))])
            .unwrap();
    let output = compiled.run().unwrap();
    assert_eq!(output, "Robert");
}

#[test]
fn try_parse_known_and_unknown() {
    assert_eq!(BuiltInFunction::try_parse("capitalise"), Some(BuiltInFunction::UpperFirst));
    assert_eq!(BuiltInFunction::try_parse("maybePrepend"), Some(BuiltInFunction::MaybePrepend));
    assert_eq!(BuiltInFunction::try_parse("maybeAppend"), Some(BuiltInFunction::MaybeAppend));
    assert_eq!(BuiltInFunction::try_parse("print"), None);
}

#[test]
fn name_hint_names() {
    assert_eq!(NameHint::InAssignment(String::from("x")).get_name(), "x");
    assert_eq!(NameHint::Repl.get_name(), "<repl>");
}

#[test]
fn unknown_function_is_a_compile_error() {
    let r = compile_script(vec![assign("result", ast::Expression::CallE(String::from("print"), vec![lit("x")]))]);
    match r {
        Err(harald::eval::CompilerError::UnknownFunction(name)) => assert_eq!(name, "print"),
        other => panic!("unexpected: {:?}", other.map(|_| ())),
    }
}

#[test]
fn empty_bag_is_a_compile_error() {
    let r = compile_script(vec![assign("b", ast::Expression::BagE(ast::Bag { items: vec![] }))]);
    match r {
        Err(harald::eval::CompilerError::EmptyBag { name }) => assert_eq!(name, "b"),
        other => panic!("unexpected: {:?}", other.map(|_| ())),
    }
}

#[test]
fn failed_statement_leaves_script_unchanged() {
    let mut script = CompiledScript::new();
    script.add_statement(assign("result", lit("kept"))).unwrap();
    let r = script.add_statement(assign("result", ast::Expression::BagE(ast::Bag { items: vec![] })));
    assert!(r.is_err());
    assert_eq!(script.run().unwrap(), "kept");
}

#[test]
fn later_binding_wins() {
    let mut script = CompiledScript::new();
    script.add_statement(assign("result", lit("first"))).unwrap();
    script.add_statement(assign("result", lit("second"))).unwrap();
    assert_eq!(script.run().unwrap(), "second");
}

#[test]
fn unknown_variable() {
    let r = run_script("result = { missing };");
    match r {
        Err(harald::eval::ExecutionError::Interpreter(InterpreterError::UnknownVariable(name))) => {
            assert_eq!(name, "missing")
        }
        other => panic!("unexpected: {:?}", other),
    }
}

#[test]
fn missing_result_binding() {
    let r = run_script("other = \"x\";");
    match r {
        Err(harald::eval::ExecutionError::Interpreter(InterpreterError::UnknownVariable(name))) => {
            assert_eq!(name, "result")
        }
        other => panic!("unexpected: {:?}", other),
    }
}

#[test]
fn self_reference_hits_recursion_limit() {
    let r = run_script("result = { result };");
    match r {
        Err(harald::eval::ExecutionError::Interpreter(InterpreterError::RecursionLimit)) => {}
        other => panic!("unexpected: {:?}", other),
    }
}

#[test]
fn string_cannot_be_indexed() {
    let r = run_script("word = \"x\"; result = word.plural;");
    match r {
        Err(harald::eval::ExecutionError::Interpreter(InterpreterError::CannotBeIndexed { was, key })) => {
            assert_eq!(was, "string");
            assert_eq!(key, "plural");
        }
        other => panic!("unexpected: {:?}", other),
    }
}

#[test]
fn wrong_number_of_arguments() {
    let r = run_script("result = maybeAppend(\"x\");");
    match r {
        Err(harald::eval::ExecutionError::Interpreter(InterpreterError::FunctionError { function, inner })) => {
            assert_eq!(function, BuiltInFunction::MaybeAppend);
            match inner {
                harald::eval::FunctionError::WrongNumberOfArguments { expected, was } => {
                    assert_eq!(expected, 2);
                    assert_eq!(was, 1);
                }
                other => panic!("unexpected: {:?}", other),
            }
        }
        other => panic!("unexpected: {:?}", other),
    }
}

#[test]
fn maybe_prepend_and_append() {
    assert_eq!(run_script("result = maybePrepend(\"the \", \"cat\");").unwrap(), "the cat");
    assert_eq!(run_script("result = maybePrepend(\"the \", \"\");").unwrap(), "");
    assert_eq!(run_script("result = maybeAppend(\"cat\", \"s\");").unwrap(), "cats");
    assert_eq!(run_script("result = maybeAppend(\"\", \"s\");").unwrap(), "");
}

#[test]
fn maybe_prepend_does_not_evaluate_unused_prefix() {
    assert_eq!(run_script("result = maybePrepend(missing, \"\");").unwrap(), "");
    assert_eq!(run_script("result = maybeAppend(\"\", missing);").unwrap(), "");
}

#[test]
fn literal_is_idempotent() {
    let script = harald::compile_script("result = { \"a\" \"b\" \"c\" };").unwrap();
    for _ in 0..50 {
        assert_eq!(script.run().unwrap(), "abc");
    }
}

#[test]
fn bag_draws_are_roughly_even() {
    let script = harald::compile_script("result = bag[\"x\", \"y\"];").unwrap();
    let mut xs: u32 = 0;
    let n: u32 = 100_000;
    for _ in 0..n {
        let out = script.run().unwrap();
        assert!(out == "x" || out == "y");
        if out == "x" {
            xs += 1;
        }
    }
    let freq = xs as f64 / n as f64;
    assert!((freq - 0.5).abs() < 0.05, "frequency {}", freq);
}

#[test]
fn weighted_bag_prefers_heavier_item() {
    let script = harald::compile_script("result = bag[9 \"heavy\", 1 \"light\"];").unwrap();
    let mut heavy: u32 = 0;
    for _ in 0..10_000 {
        if script.run().unwrap() == "heavy" {
            heavy += 1;
        }
    }
    assert!(heavy > 8_500 && heavy < 9_500, "heavy {}", heavy);
}

#[test]
fn eval_expression_leaves_bags_unsampled() {
    let mut script = CompiledScript::new();
    let e = script
        .transform_expression(&ast::Expression::BagE(ast::Bag { items: vec![ast::BagEntry::from_string(String::from("x"))] }), &Some(NameHint::Repl))
        .unwrap();
    let v = script.eval_expression(&e).unwrap();
    assert_eq!(v.get_type_name(), "bag");
    assert_eq!(script.try_coerce_to_string(v).unwrap(), "x");
}

#[test]
fn try_as_string_of_string_value() {
    let v = Value::StringV(String::from("s"));
    assert_eq!(v.try_as_string().unwrap(), "s");
}
