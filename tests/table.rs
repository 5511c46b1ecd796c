use harald::eval::{CompilerError, ExecutionError};
use harald::run_script;

#[test]
fn table_holes() {
    let output = run_script(
        "t = table[[.first, .second], [\"a\", _], [_, \"b\"]];\nresult = { t.first \" \" t.second };\n",
    )
    .unwrap();
    assert_eq!(output, "a b");
}

#[test]
fn table_trailing_comma() {
    let output = run_script(
        "t = table[\n  [.first, .second],\n  [\"a\", \"b\"],\n];\nresult = { t.first \" \" t.second };\n",
    )
    .unwrap();
    assert_eq!(output, "a b");
}

#[test]
fn table_weight() {
    let output = run_script("t = table[[.word], 2.5 [\"a\"]];\nresult = { t.word \" \" t.word };\n").unwrap();
    assert_eq!(output, "a a");
}

#[test]
fn empty_table() {
    let output = run_script(
        "testTable = table[[.hasEntries, .hasNoEntries], [\"a\", _]];\nresult = testTable.hasEntries;\n",
    );
    match output {
        Err(ExecutionError::Compiler(CompilerError::EmptyTableColumn { column_name, in_variable })) => {
            assert_eq!(column_name, "hasNoEntries");
            assert_eq!(in_variable, "testTable");
        }
        other => panic!("unexpected result: {:?}", other),
    }
}

#[test]
fn table_append_plural() {
    let script = "nouns = table[[.base, .plural], [\"unicorn\", \"unicorns\"], [\"kitten\", +\"s\"]];\nresult = nouns.plural;\n";
    for _ in 0..200 {
        let output = run_script(script).unwrap();
        assert!(output == "unicorns" || output == "kittens", "got {}", output);
    }
}

#[test]
fn table_append_after_hole_base() {
    let output = run_script("t = table[[.base, .long], [_, +\"x\"]];\nresult = t.long;\n");
    match output {
        Err(ExecutionError::Compiler(CompilerError::EmptyTableColumn { column_name, .. })) => {
            assert_eq!(column_name, "base");
        }
        other => panic!("unexpected result: {:?}", other),
    }
}

#[test]
fn table_append_in_first_column() {
    let output = run_script("t = table[[.base], [+\"x\"]];\nresult = t.base;\n");
    match output {
        Err(ExecutionError::Compiler(CompilerError::AppendInFirstColumn { row_number, in_variable })) => {
            assert_eq!(row_number, 0);
            assert_eq!(in_variable, "t");
        }
        other => panic!("unexpected result: {:?}", other),
    }
}

#[test]
fn table_invalid_row() {
    let output = run_script("t = table[[.a, .b], [\"x\", \"y\"], [\"z\"]];\nresult = t.a;\n");
    match output {
        Err(ExecutionError::Compiler(CompilerError::InvalidTableRow { expected_columns, values, row_number })) => {
            assert_eq!(expected_columns, vec![String::from("a"), String::from("b")]);
            assert_eq!(values.len(), 1);
            assert_eq!(row_number, 1);
        }
        other => panic!("unexpected result: {:?}", other),
    }
}

#[test]
fn table_without_columns() {
    let output = run_script("t = table[[], [\"x\"]];\nresult = t.a;\n");
    match output {
        Err(ExecutionError::Compiler(CompilerError::EmptyTable { name })) => assert_eq!(name, "t"),
        other => panic!("unexpected result: {:?}", other),
    }
}

#[test]
fn table_missing_property() {
    let output = run_script("prefix = table[[.a, .b], [\"x\", \"y\"]];\nresult = prefix.missingColumn;\n");
    match output {
        Err(ExecutionError::Interpreter(harald::eval::InterpreterError::TableMissingProperty { columns, key })) => {
            let mut columns = columns;
            columns.sort();
            assert_eq!(columns, vec![String::from("a"), String::from("b")]);
            assert_eq!(key, "missingColumn");
        }
        other => panic!("unexpected result: {:?}", other),
    }
}

#[test]
fn table_cannot_be_coerced() {
    let output = run_script("t = table[[.a], [\"x\"]];\nresult = { t };\n");
    match output {
        Err(ExecutionError::Interpreter(harald::eval::InterpreterError::CoercionError { target, was })) => {
            assert_eq!(target, "string");
            assert_eq!(was, "table");
        }
        other => panic!("unexpected result: {:?}", other),
    }
}

#[test]
fn table_as_result_is_unexpected() {
    let output = run_script("t = table[[.a], [\"x\"]];\nresult = t;\n");
    match output {
        Err(ExecutionError::Interpreter(harald::eval::InterpreterError::UnexpectedType { expected, was })) => {
            assert_eq!(expected, "string");
            assert_eq!(was, "table");
        }
        other => panic!("unexpected result: {:?}", other),
    }
}
