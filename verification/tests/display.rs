use c420::arithmetic::parse_arithmetic_expression;
use c420::ast::Oper;
use c420::error::{EvalError, NodeKind, Operand, ParseError, Span};
use c420::grammar::parse_ast;

fn round_trip(source: &str) {
    let (rest, tree) = parse_arithmetic_expression(source).unwrap();
    assert_eq!(rest, "");
    let text = tree.to_text();
    let (rest_again, again) = parse_arithmetic_expression(&text).unwrap();
    assert_eq!(rest_again, "");
    assert_eq!(again, tree);
    assert_eq!(again.to_text(), text);
}

#[test]
fn text_of_an_expression() {
    let (_, tree) = parse_arithmetic_expression("1+2 *( a- 3 )%b").unwrap();
    assert_eq!(tree.to_text(), "1 + 2 * (a - 3) % b");
    assert_eq!(tree.to_debug_text(), "(1 + ((2 * [(a - 3)]) % b))");
}

#[test]
fn text_parses_back_to_the_tree() {
    round_trip("1 + 2 * 3");
    round_trip("10 - 3 - 2;");
    round_trip(" ( ( a ) ) ;; ");
    round_trip("(1 + 2) * (3 - x_1) / 007 % _y");
    round_trip("a * (b + c * (d - e)) - f");
}

#[test]
fn text_of_statements() {
    let program = parse_ast("// hi\nlet x = 1 + 2;\ntrue;\nprint(a, b);\nconst o = { k: 1, m };\nq[\"r\"];\n7;\nn;").unwrap();
    let lines: Vec<String> = program.body.iter().map(|s| s.to_text()).collect();
    assert_eq!(
        lines,
        vec![
            "Comment: \t\thi",
            "Declaration: \t\tid: x, constant: false, expression: Arithmetic Expression:  1 + 2",
            "Boolean Literal: \ttrue",
            "Call Expression: \tfn print(a,b)",
            "Declaration: \t\tid: o, constant: true, expression: Object Literal: \t{\n\tkey: k - value: Numeric Literal: \t1\n\tkey: m - no value\n}",
            "Member Expression: \tobject: q - property: r",
            "Numeric Literal: \t7",
            "Identifier: \tn",
        ]
    );
    assert_eq!(
        parse_ast("1;\nx;").unwrap().to_text(),
        "Program:\n\tNumeric Literal: \t1\n\tIdentifier: \tx\n"
    );
}

#[test]
fn messages_of_errors() {
    assert_eq!(
        ParseError::UnconsumedInput { span: Span::Program, remainder: "= 2".to_string() }.message(),
        "Input remainder to be parsed: = 2"
    );
    assert_eq!(
        ParseError::UnconsumedInput { span: Span::ObjectBody, remainder: "+".to_string() }.message(),
        "Object remainder to be parsed: +"
    );
    assert_eq!(
        EvalError::UnresolvedVariable("z".to_string()).message(),
        "Cannot resolve variable 'z' as it does not exist"
    );
    assert_eq!(
        EvalError::DuplicateDeclaration("z".to_string()).message(),
        "Cannot declare variable 'z' as it is already defined"
    );
    assert_eq!(
        EvalError::ConstantReassignment("z".to_string()).message(),
        "Cannot reassign values to a constant variable 'z'"
    );
    assert_eq!(
        EvalError::TypeMismatch { operator: Oper::Sub, operand: Operand::Bool(false) }.message(),
        "Cannot Subtract bool 'false' with number"
    );
    assert_eq!(EvalError::DivideByZero.message(), "Cannot divide by 0");
    assert_eq!(
        EvalError::Unimplemented(NodeKind::Property).message(),
        "Need to implement AST node type evaluation: Property"
    );
    assert_ne!(EvalError::DivideByZero.message(), ParseError::UnbalancedBracket.message());
}
