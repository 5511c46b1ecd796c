use harald::eval::{CompilerError, ExecutionError};
use harald::{compile_script, run_script};
use std::collections::BTreeSet;

fn outcomes(script: &str, runs: usize) -> BTreeSet<String> {
    let compiled = compile_script(script).unwrap();
    let mut seen = BTreeSet::new();
    for _ in 0..runs {
        seen.insert(compiled.run().unwrap());
    }
    seen
}

#[test]
fn compiling_twice_gives_same_outcomes() {
    let script = "colour = bag[\"red\", 2 \"green\", 0.5 \"blue\"];\nresult = { colour \"!\" };\n";
    let first = outcomes(script, 2000);
    let second = outcomes(script, 2000);
    assert_eq!(first, second);
    let expected: BTreeSet<String> =
        ["red!", "green!", "blue!"].iter().map(|s| String::from(*s)).collect();
    assert_eq!(first, expected);
}

#[test]
fn column_holds_one_item_per_filled_row() {
    let script = "t = table[[.a, .b], [\"x\", _], [\"y\", \"q\"], [\"z\", _]];\nresult = { t.a t.b };\n";
    let seen = outcomes(script, 2000);
    let expected: BTreeSet<String> = ["xq", "yq", "zq"].iter().map(|s| String::from(*s)).collect();
    assert_eq!(seen, expected);
}

#[test]
fn append_entry_is_base_followed_by_fragment() {
    let script = "t = table[[.base, .past], [\"walk\", +\"ed\"]];\nresult = t.past;\n";
    for _ in 0..20 {
        assert_eq!(run_script(script).unwrap(), "walked");
    }
}

#[test]
fn literal_bag_coerces_to_one_of_its_items() {
    let seen = outcomes("result = { bag[\"a\", \"b\", \"c\"] };", 3000);
    let expected: BTreeSet<String> = ["a", "b", "c"].iter().map(|s| String::from(*s)).collect();
    assert_eq!(seen, expected);
}

#[test]
fn parse_error_reports_position() {
    match run_script("result = ;") {
        Err(ExecutionError::Compiler(CompilerError::ParseError { position })) => assert_eq!(position, 0),
        other => panic!("unexpected: {:?}", other),
    }
}

#[test]
fn weights_are_thousandths() {
    let s: Vec<char> = "2.25 \"x\"".chars().collect();
    let (entry, _) = harald::parser::parse_bag_entry(&s, 0).unwrap();
    assert_eq!(entry.weight, Some(2250));
    let s: Vec<char> = "0.0005".chars().collect();
    assert_eq!(harald::parser::parse_weight(&s, 0), None);
    let s: Vec<char> = "7".chars().collect();
    assert_eq!(harald::parser::parse_weight(&s, 0), Some((7000, 1)));
}
