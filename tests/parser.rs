use harald::ast::{Assignment, Bag, BagEntry, Expression, Pattern, Statement, Table, TableEntry, TableRow};
use harald::parser::{
    parse_assignment, parse_bag, parse_bag_entry, parse_call, parse_expression, parse_program,
    parse_string_literal, parse_table, parse_table_entry, parse_table_row,
};

fn chars(s: &str) -> Vec<char> {
    s.chars().collect()
}

fn lit(s: &str) -> Box<Expression> {
    Box::new(Expression::LiteralE(String::from(s)))
}

#[test]
fn test_parse_string_literal() {
    let s = chars(r#""Hello, world!""#);
    assert_eq!(parse_string_literal(&s, 0), Some((String::from("Hello, world!"), s.len())));
}

#[test]
fn test_parse_string_literal_empty() {
    let s = chars(r#""""#);
    assert_eq!(parse_string_literal(&s, 0), Some((String::from(""), s.len())));
}

#[test]
fn test_parse_string_literal_newline() {
    let s = chars("\"Hello\nWorld\"");
    assert_eq!(parse_string_literal(&s, 0), Some((String::from("Hello\nWorld"), s.len())));
}

#[test]
fn parse_string_literal_escapes() {
    let s = chars(r#""a\"b\\c\nd""#);
    assert_eq!(parse_string_literal(&s, 0), Some((String::from("a\"b\\c\nd"), s.len())));
}

#[test]
fn test_parse_bag() {
    let expected_items: Vec<_> = vec![
        BagEntry::from_string(String::from("epic")),
        BagEntry::from_string(String::from("awesome")),
        BagEntry::from_string(String::from("cool")),
    ];
    let s = chars(r#"bag["epic", "awesome", "cool"]"#);
    assert_eq!(parse_bag(&s, 0), Some((Bag { items: expected_items }, s.len())));
}

#[test]
fn test_parse_bag_entry() {
    let s = chars(r#""no weight""#);
    assert_eq!(parse_bag_entry(&s, 0), Some((BagEntry::from_string(String::from("no weight")), s.len())));
    let s = chars(r#"3.0 "float weighted""#);
    assert_eq!(
        parse_bag_entry(&s, 0),
        Some((BagEntry::from_string(String::from("float weighted")).with_weight(3000), s.len()))
    );
}

#[test]
fn test_parse_assignment() {
    let s = chars(r#"adjective = bag["Friendly", "Unfriendly"]"#);
    assert_eq!(
        parse_assignment(&s, 0),
        Some((
            Assignment {
                name: String::from("adjective"),
                value: Box::new(Expression::BagE(Bag {
                    items: vec![
                        BagEntry::from_string(String::from("Friendly")),
                        BagEntry::from_string(String::from("Unfriendly")),
                    ],
                })),
            },
            s.len()
        ))
    );
}

#[test]
fn test_parse_assignment_literal() {
    let s = chars(r#"secretWord = "hunter2""#);
    assert_eq!(
        parse_assignment(&s, 0),
        Some((Assignment { name: String::from("secretWord"), value: lit("hunter2") }, s.len()))
    );
}

#[test]
fn test_parse_program() {
    let s = chars(
        r#"
        adjective = bag["Friendly", "Unfriendly"];
        result = adjective;
    "#,
    );
    assert_eq!(
        parse_program(&s),
        Ok(vec![
            Statement::AssignmentS(Assignment {
                name: String::from("adjective"),
                value: Box::new(Expression::BagE(Bag {
                    items: vec![
                        BagEntry::from_string(String::from("Friendly")),
                        BagEntry::from_string(String::from("Unfriendly")),
                    ],
                })),
            }),
            Statement::AssignmentS(Assignment {
                name: String::from("result"),
                value: Box::new(Expression::VariableE(String::from("adjective"))),
            }),
        ])
    );
}

#[test]
fn parse_program_rejects_trailing_text() {
    let s = chars("result = \"x\"; result");
    assert!(parse_program(&s).is_err());
}

#[test]
fn test_parse_pattern() {
    let s = chars(r#"{ "Hello " world }"#);
    assert_eq!(
        parse_expression(&s, 0),
        Some((
            Expression::PatternE(Pattern {
                parts: vec![Expression::LiteralE(String::from("Hello ")), Expression::VariableE(String::from("world"))],
            }),
            s.len()
        ))
    );
}

#[test]
fn test_parse_call_1() {
    let s = chars(r#"print("Hello, world!")"#);
    assert_eq!(
        parse_call(&s, 0),
        Some((
            Expression::CallE(String::from("print"), vec![Expression::LiteralE(String::from("Hello, world!"))]),
            s.len()
        ))
    );
}

#[test]
fn test_parse_call_0() {
    let s = chars("printHello()");
    assert_eq!(parse_call(&s, 0), Some((Expression::CallE(String::from("printHello"), vec![]), s.len())));
}

#[test]
fn test_parse_call_2_pattern() {
    let s = chars(r#"concat( { "Hello" }, {" world!"} )"#);
    assert_eq!(
        parse_expression(&s, 0),
        Some((
            Expression::CallE(
                String::from("concat"),
                vec![
                    Expression::PatternE(Pattern { parts: vec![Expression::LiteralE(String::from("Hello"))] }),
                    Expression::PatternE(Pattern { parts: vec![Expression::LiteralE(String::from(" world!"))] }),
                ]
            ),
            s.len()
        ))
    );
}

#[test]
fn test_parse_table_entry() {
    let s = chars(r#""Harald""#);
    assert_eq!(parse_table_entry(&s, 0), Some((TableEntry::Literal(lit("Harald")), s.len())));
    let s = chars(r#"+"in""#);
    assert_eq!(parse_table_entry(&s, 0), Some((TableEntry::Append(lit("in")), s.len())));
}

#[test]
fn test_parse_table_row() {
    let s = chars(r#"["unicorn", "unicorns"]"#);
    assert_eq!(
        parse_table_row(&s, 0),
        Some((
            TableRow {
                weight: None,
                items: vec![TableEntry::Literal(lit("unicorn")), TableEntry::Literal(lit("unicorns"))],
            },
            s.len()
        ))
    );
    let s = chars(r#"["unicorn", +"s"]"#);
    assert_eq!(
        parse_table_row(&s, 0),
        Some((
            TableRow { weight: None, items: vec![TableEntry::Literal(lit("unicorn")), TableEntry::Append(lit("s"))] },
            s.len()
        ))
    );
    let s = chars(r#"[  "unicorn"  , + "s"   ]"#);
    assert_eq!(
        parse_table_row(&s, 0),
        Some((
            TableRow { weight: None, items: vec![TableEntry::Literal(lit("unicorn")), TableEntry::Append(lit("s"))] },
            s.len()
        ))
    );
    let s = chars(r#"0.5 ["a", "b"]"#);
    assert_eq!(
        parse_table_row(&s, 0),
        Some((
            TableRow { weight: Some(500), items: vec![TableEntry::Literal(lit("a")), TableEntry::Literal(lit("b"))] },
            s.len()
        ))
    );
}

#[test]
fn test_parse_table() {
    let s = chars(
        r#"table [
            [.base, .plural],
            ["unicorn", "unicorns"],
            ["kitten", +"s"]
        ]"#,
    );
    assert_eq!(
        parse_table(&s, 0),
        Some((
            Table {
                columns: vec![String::from("base"), String::from("plural")],
                rows: vec![
                    TableRow {
                        weight: None,
                        items: vec![TableEntry::Literal(lit("unicorn")), TableEntry::Literal(lit("unicorns"))],
                    },
                    TableRow { weight: None, items: vec![TableEntry::Literal(lit("kitten")), TableEntry::Append(lit("s"))] },
                ],
            },
            s.len()
        ))
    );
}

#[test]
fn parse_table_hole() {
    let s = chars(r#"[_, "b"]"#);
    assert_eq!(
        parse_table_row(&s, 0),
        Some((TableRow { weight: None, items: vec![TableEntry::Hole, TableEntry::Literal(lit("b"))] }, s.len()))
    );
}

#[test]
fn parse_zero_weight_is_rejected() {
    let s = chars(r#"0 "never""#);
    assert_eq!(parse_bag_entry(&s, 0), None);
}

#[test]
fn identifiers_take_letters_and_digits() {
    let s = chars("größe2 = \"x\";");
    assert_eq!(harald::parser::parse_identifier(&s, 0), Some((String::from("größe2"), 6)));
    let s = chars("2abc");
    assert_eq!(harald::parser::parse_identifier(&s, 0), None);
}

#[test]
fn property_access_reads_variable_and_key() {
    let s = chars("nouns.plural");
    assert_eq!(
        harald::parser::parse_property_access(&s, 0),
        Some((
            Expression::PropertyAccessE(
                Box::new(Expression::VariableE(String::from("nouns"))),
                String::from("plural")
            ),
            s.len()
        ))
    );
}
