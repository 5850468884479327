use c420::arithmetic::parse_arithmetic_expression;
use c420::ast::{
    ArithmeticExpression, Assign, CallExpression, Identifier, MemberExpression, NumericLiteral,
    Object, Property, Statement,
};
use c420::error::{ParseError, Span};
use c420::generic::{get_identifier, take_until_unbalanced};
use c420::grammar::{parse_ast, parse_object};

fn value(digits: &str) -> ArithmeticExpression {
    ArithmeticExpression::Value(NumericLiteral { digits: digits.to_string() })
}

fn name(id: &str) -> ArithmeticExpression {
    ArithmeticExpression::Identifier(Identifier { id: id.to_string() })
}

#[test]
fn declaration_with_precedence() {
    let program = parse_ast("let x = 1 + 2 * 3;").unwrap();
    let expected = Statement::Declaration(Assign {
        id: "x",
        constant: false,
        expression: Box::new(Statement::ArithmeticExpression(ArithmeticExpression::Add(
            Box::new(value("1")),
            Box::new(ArithmeticExpression::Mul(Box::new(value("2")), Box::new(value("3")))),
        ))),
    });
    assert_eq!(program.body, vec![expected]);
}

#[test]
fn subtraction_folds_to_the_left() {
    let (rest, tree) = parse_arithmetic_expression("10 - 3 - 2;").unwrap();
    assert_eq!(rest, "");
    let expected = ArithmeticExpression::Sub(
        Box::new(ArithmeticExpression::Sub(Box::new(value("10")), Box::new(value("3")))),
        Box::new(value("2")),
    );
    assert_eq!(tree, expected);
}

#[test]
fn identifier_rejects_leading_digit() {
    assert_eq!(get_identifier("1abc"), None);
    assert_eq!(get_identifier("abc1 rest"), Some((" rest", "abc1")));
    assert_eq!(get_identifier("_a_1-"), Some(("-", "_a_1")));
    assert_eq!(get_identifier(""), None);
}

#[test]
fn scan_balanced_to_the_end() {
    assert_eq!(take_until_unbalanced('{', '}', "a{b}c"), Ok(("", "a{b}c")));
}

#[test]
fn scan_stops_before_unmatched_close() {
    assert_eq!(take_until_unbalanced('{', '}', "b}c"), Ok(("}c", "b")));
}

#[test]
fn scan_never_balanced() {
    assert_eq!(take_until_unbalanced('{', '}', "a{b"), Err(ParseError::UnbalancedBracket));
}

#[test]
fn scan_skips_escaped_brackets() {
    assert_eq!(take_until_unbalanced('{', '}', "a\\}b}c"), Ok(("}c", "a\\}b")));
    assert_eq!(take_until_unbalanced('{', '}', "a\\"), Ok(("", "a\\")));
}

#[test]
fn leftover_input_is_fatal() {
    assert_eq!(
        parse_ast("let x = 1; = 2"),
        Err(ParseError::UnconsumedInput { span: Span::Program, remainder: "= 2".to_string() })
    );
}

#[test]
fn identifier_in_expression() {
    let (rest, tree) = parse_arithmetic_expression("(a + 1) * b").unwrap();
    assert_eq!(rest, "");
    let expected = ArithmeticExpression::Mul(
        Box::new(ArithmeticExpression::Paren(Box::new(ArithmeticExpression::Add(
            Box::new(name("a")),
            Box::new(value("1")),
        )))),
        Box::new(name("b")),
    );
    assert_eq!(tree, expected);
}

#[test]
fn statements_of_every_kind() {
    let program =
        parse_ast("  // note \r\ntrue ;\n42;\nname ;\nconst c = false;\nc = { a: 1, b: { d } };\nprint( a , b+1 );\nobj[\"key\"];\n1 + x;")
            .unwrap();
    let expected = vec![
        Statement::Comment("note".to_string()),
        Statement::BooleanLiteral(true),
        Statement::NumericLiteral(NumericLiteral { digits: "42".to_string() }),
        Statement::Identifier(Identifier { id: "name".to_string() }),
        Statement::Declaration(Assign {
            id: "c",
            constant: true,
            expression: Box::new(Statement::BooleanLiteral(false)),
        }),
        Statement::Assign(Assign {
            id: "c",
            constant: false,
            expression: Box::new(Statement::ObjectLiteral(Object {
                properties: vec![
                    Property {
                        key: "a",
                        value: Some(Box::new(Statement::NumericLiteral(NumericLiteral {
                            digits: "1".to_string(),
                        }))),
                    },
                    Property {
                        key: "b",
                        value: Some(Box::new(Statement::ObjectLiteral(Object {
                            properties: vec![Property { key: "d", value: None }],
                        }))),
                    },
                ],
            })),
        }),
        Statement::CallExpression(CallExpression { func: "print", args: vec!["a", "b+1"] }),
        Statement::MemberExpression(MemberExpression { object: "obj", property: "key" }),
        Statement::ArithmeticExpression(ArithmeticExpression::Add(Box::new(value("1")), Box::new(name("x")))),
    ];
    assert_eq!(program.body, expected);
}

#[test]
fn property_values_in_their_priority() {
    let (rest, object) = parse_object("{ t: true, e: x; n: 12 } tail").unwrap().unwrap();
    assert_eq!(rest, " tail");
    let expected = Statement::ObjectLiteral(Object {
        properties: vec![
            Property { key: "t", value: Some(Box::new(Statement::BooleanLiteral(true))) },
            Property {
                key: "e",
                value: Some(Box::new(Statement::Identifier(Identifier { id: "x".to_string() }))),
            },
            Property {
                key: "n",
                value: Some(Box::new(Statement::NumericLiteral(NumericLiteral { digits: "12".to_string() }))),
            },
        ],
    });
    assert_eq!(object, expected);
    assert_eq!(
        parse_object("{ n: 12 + 1 }"),
        Err(ParseError::UnconsumedInput { span: Span::ObjectBody, remainder: "+ 1 ".to_string() })
    );
    let (_, sum) = parse_object("{ s: y + 1 }").unwrap().unwrap();
    assert_eq!(
        sum,
        Statement::ObjectLiteral(Object {
            properties: vec![Property {
                key: "s",
                value: Some(Box::new(Statement::ArithmeticExpression(ArithmeticExpression::Add(
                    Box::new(name("y")),
                    Box::new(value("1")),
                )))),
            }],
        })
    );
}

#[test]
fn object_brackets() {
    assert_eq!(parse_object("{ a: { b "), Err(ParseError::UnbalancedBracket));
    assert_eq!(parse_object("{ a: { b }"), Ok(None));
    assert_eq!(parse_object("{ a "), Ok(None));
    assert_eq!(parse_object("a"), Ok(None));
    assert_eq!(parse_ast("let o = { a: { b ;"), Err(ParseError::UnbalancedBracket));
    assert_eq!(
        parse_object("{}").unwrap(),
        Some(("", Statement::ObjectLiteral(Object { properties: vec![] })))
    );
}

#[test]
fn right_hand_side_must_be_consumed() {
    assert_eq!(
        parse_ast("let t = truex;"),
        Err(ParseError::UnconsumedInput { span: Span::RightHandSide, remainder: "x".to_string() })
    );
    assert_eq!(
        parse_ast("a = 1 2;"),
        Err(ParseError::UnconsumedInput { span: Span::RightHandSide, remainder: "2".to_string() })
    );
}

#[test]
fn call_arguments_are_texts() {
    let program = parse_ast("print();print( 1+2 ,, x );").unwrap();
    assert_eq!(
        program.body,
        vec![
            Statement::CallExpression(CallExpression { func: "print", args: vec![""] }),
            Statement::CallExpression(CallExpression { func: "print", args: vec!["1+2", "", "x"] }),
        ]
    );
}

#[test]
fn stray_semicolons_around_a_factor() {
    let (rest, tree) = parse_arithmetic_expression("1 ;; + 2 ; * 3").unwrap();
    assert_eq!(rest, "");
    let expected = ArithmeticExpression::Add(
        Box::new(value("1")),
        Box::new(ArithmeticExpression::Mul(Box::new(value("2")), Box::new(value("3")))),
    );
    assert_eq!(tree, expected);
}

#[test]
fn operator_without_operand_is_left() {
    let (rest, tree) = parse_arithmetic_expression("1 + ").unwrap();
    assert_eq!(rest, "+ ");
    assert_eq!(tree, value("1"));
    assert_eq!(parse_arithmetic_expression("-1"), None);
    assert_eq!(parse_arithmetic_expression(""), None);
}

#[test]
fn scan_stops_at_the_first_unmatched_close() {
    assert_eq!(take_until_unbalanced('{', '}', "a}b{"), Ok(("}b{", "a")));
    assert_eq!(take_until_unbalanced('{', '}', "plain"), Ok(("", "plain")));
    assert_eq!(take_until_unbalanced('{', '}', ""), Ok(("", "")));
    assert_eq!(take_until_unbalanced('{', '}', "{{}}}"), Ok(("}", "{{}}")));
    assert_eq!(take_until_unbalanced('(', ')', "a{b"), Ok(("", "a{b")));
    assert_eq!(take_until_unbalanced('{', '}', "\\{"), Ok(("", "\\{")));
    assert_eq!(take_until_unbalanced('{', '}', "{\\}"), Err(ParseError::UnbalancedBracket));
}

#[test]
fn scan_with_equal_brackets_only_opens() {
    assert_eq!(take_until_unbalanced('|', '|', "a|b|"), Err(ParseError::UnbalancedBracket));
    assert_eq!(take_until_unbalanced('|', '|', "ab"), Ok(("", "ab")));
}

#[test]
fn text_beyond_ascii() {
    assert_eq!(take_until_unbalanced('{', '}', "é{ü}ß}x"), Ok(("}x", "é{ü}ß")));
    assert_eq!(get_identifier("éa"), None);
    assert_eq!(get_identifier("aé"), Some(("é", "a")));
    let program = parse_ast(" \t// héllo wörld \u{a0}\nlet x = 1; // ✓ done").unwrap();
    assert_eq!(program.body.len(), 3);
    assert_eq!(program.body[0], Statement::Comment("héllo wörld".to_string()));
    assert_eq!(program.body[2], Statement::Comment("✓ done".to_string()));
    assert_eq!(
        parse_ast("let x = 1; ünïcode"),
        Err(ParseError::UnconsumedInput { span: Span::Program, remainder: "ünïcode".to_string() })
    );
}

#[test]
fn keywords_need_no_space_behind_them() {
    let program = parse_ast("constk=2;").unwrap();
    assert_eq!(
        program.body,
        vec![Statement::Declaration(Assign {
            id: "k",
            constant: true,
            expression: Box::new(Statement::ArithmeticExpression(value("2"))),
        })]
    );
}

#[test]
fn first_matching_alternative_wins() {
    let program = parse_ast("true;truth;let;12;12 + 1;x[\"y\"];").unwrap();
    assert_eq!(
        program.body,
        vec![
            Statement::BooleanLiteral(true),
            Statement::Identifier(Identifier { id: "truth".to_string() }),
            Statement::Identifier(Identifier { id: "let".to_string() }),
            Statement::NumericLiteral(NumericLiteral { digits: "12".to_string() }),
            Statement::ArithmeticExpression(ArithmeticExpression::Add(
                Box::new(value("12")),
                Box::new(value("1"))
            )),
            Statement::MemberExpression(MemberExpression { object: "x", property: "y" }),
        ]
    );
    assert_eq!(
        parse_ast("x = y[\"z\"];"),
        Err(ParseError::UnconsumedInput { span: Span::RightHandSide, remainder: "[\"z\"]".to_string() })
    );
}

#[test]
fn empty_program() {
    assert_eq!(parse_ast("").unwrap().body, vec![]);
    assert_eq!(
        parse_ast("   "),
        Err(ParseError::UnconsumedInput { span: Span::Program, remainder: "   ".to_string() })
    );
}

#[test]
fn comment_skips_only_spaces_and_tabs_before_it() {
    assert_eq!(parse_ast("1;\n \t// a").unwrap().body.len(), 2);
    assert_eq!(
        parse_ast("// a\n// b"),
        Err(ParseError::UnconsumedInput { span: Span::Program, remainder: "\n// b".to_string() })
    );
    assert_eq!(parse_ast("// a\r\nb;").unwrap().body.len(), 2);
}
