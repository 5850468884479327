use c420::ast::{
    ArithmeticExpression, Assign, Identifier, NumericLiteral, Oper, Property, Statement,
};
use c420::error::{EvalError, NodeKind, Operand};
use c420::grammar::parse_ast;
use c420::runtime::environment::Environment;
use c420::runtime::value_types::{RuntimeValue, ValueType};
use c420::runtime::{evaluate, evaluate_numeric_arithmetic_expression, evaluate_program, evaluate_trace};

fn number(digits: &str) -> u64 {
    digits.parse::<f64>().unwrap().to_bits()
}

fn apply(operator: Oper, left: u64, right: u64) -> u64 {
    let (x, y) = (f64::from_bits(left), f64::from_bits(right));
    let z = match operator {
        Oper::Add => x + y,
        Oper::Sub => x - y,
        Oper::Mul => x * y,
        Oper::Div => x / y,
        Oper::Mod => x % y,
    };
    z.to_bits()
}

fn num(x: f64) -> RuntimeValue {
    RuntimeValue { kind: ValueType::Number(x.to_bits()) }
}

fn run(source: &str) -> Result<RuntimeValue, EvalError> {
    let program = parse_ast(source).unwrap();
    evaluate_program(&program, &number, &apply)
}

#[test]
fn declaration_evaluates_with_precedence() {
    assert_eq!(run("let x = 1 + 2 * 3;"), Ok(num(7.0)));
}

#[test]
fn subtraction_is_left_associative() {
    assert_eq!(run("10 - 3 - 2;"), Ok(num(5.0)));
}

#[test]
fn multiplication_binds_tighter() {
    assert_eq!(run("2 + 3 * 4;"), Ok(num(14.0)));
}

#[test]
fn constant_cannot_be_reassigned() {
    assert!(parse_ast("const y = 5; y = 6;").is_ok());
    assert_eq!(run("const y = 5; y = 6;"), Err(EvalError::ConstantReassignment("y".to_string())));
}

#[test]
fn assignment_needs_a_declaration() {
    assert_eq!(run("z = 1;"), Err(EvalError::UnresolvedVariable("z".to_string())));
}

#[test]
fn division_by_zero() {
    assert!(parse_ast("let a = 5 / 0;").is_ok());
    assert_eq!(run("let a = 5 / 0;"), Err(EvalError::DivideByZero));
}

#[test]
fn division_by_negative_zero() {
    assert_eq!(run("let a = 5 / (0 * (0 - 1));"), Err(EvalError::DivideByZero));
}

#[test]
fn brackets_are_transparent() {
    assert_eq!(run("(2 + 3) * 4;"), Ok(num(20.0)));
    assert_eq!(run("((7));"), Ok(num(7.0)));
}

#[test]
fn division_and_remainder() {
    assert_eq!(run("7 / 2;"), Ok(num(3.5)));
    assert_eq!(run("7 % 4;"), Ok(num(3.0)));
}

#[test]
fn variables_are_read_and_written() {
    assert_eq!(run("let a = 2; let b = a * 3; a = b + 1; a;"), Ok(num(7.0)));
}

#[test]
fn redeclaration_in_one_scope() {
    assert_eq!(run("let a = 1; let a = 2;"), Err(EvalError::DuplicateDeclaration("a".to_string())));
}

#[test]
fn empty_program_and_comment_give_nothing() {
    assert_eq!(run(""), Ok(RuntimeValue { kind: ValueType::Nothing }));
    assert_eq!(run("// nothing here"), Ok(RuntimeValue { kind: ValueType::Nothing }));
}

#[test]
fn boolean_literal_evaluates_to_itself() {
    assert_eq!(run("true;"), Ok(RuntimeValue { kind: ValueType::Bool(true) }));
    assert_eq!(run("let t = false;"), Ok(RuntimeValue { kind: ValueType::Bool(false) }));
}

#[test]
fn boolean_operand_is_a_type_mismatch() {
    assert_eq!(
        run("let t = true; t + 1;"),
        Err(EvalError::TypeMismatch { operator: Oper::Add, operand: Operand::Bool(true) })
    );
    assert_eq!(
        run("let t = false; 1 * t;"),
        Err(EvalError::TypeMismatch { operator: Oper::Mul, operand: Operand::Bool(false) })
    );
}

#[test]
fn unimplemented_nodes() {
    assert_eq!(run("print(a, b);"), Err(EvalError::Unimplemented(NodeKind::CallExpression)));
    assert_eq!(run("let o = { a: 1 };"), Err(EvalError::Unimplemented(NodeKind::ObjectLiteral)));
    assert_eq!(run("a[\"b\"];"), Err(EvalError::Unimplemented(NodeKind::MemberExpression)));
}

#[test]
fn first_error_ends_the_run() {
    assert_eq!(run("let a = 5 / 0; z = 1;"), Err(EvalError::DivideByZero));
}

#[test]
fn arithmetic_on_nothing() {
    let nothing = ValueType::Nothing;
    let two = ValueType::Number(2.0f64.to_bits());
    assert_eq!(
        evaluate_numeric_arithmetic_expression(&nothing, &two, Oper::Add, &apply),
        Ok(ValueType::Nothing)
    );
    assert_eq!(
        evaluate_numeric_arithmetic_expression(&two, &nothing, Oper::Add, &apply),
        Ok(ValueType::Number(2.0f64.to_bits()))
    );
    assert_eq!(
        evaluate_numeric_arithmetic_expression(&two, &nothing, Oper::Div, &apply),
        Err(EvalError::DivideByZero)
    );
    assert_eq!(
        evaluate_numeric_arithmetic_expression(&two, &ValueType::Object(vec![]), Oper::Sub, &apply),
        Err(EvalError::TypeMismatch { operator: Oper::Sub, operand: Operand::Object })
    );
    assert_eq!(
        evaluate_numeric_arithmetic_expression(&ValueType::Bool(true), &ValueType::Number(0), Oper::Div, &apply),
        Err(EvalError::DivideByZero)
    );
}

#[test]
fn scopes_shadow_and_resolve_outwards() {
    let mut root = Environment::new(None);
    root.declare_var("x".to_string(), num(1.0), false).unwrap();
    root.declare_var("k".to_string(), num(9.0), true).unwrap();
    let mut inner = Environment::new(Some(Box::new(root)));
    assert_eq!(inner.lookup_var("x".to_string()), Ok(num(1.0)));
    assert_eq!(inner.declare_var("x".to_string(), num(2.0), false), Ok(num(2.0)));
    assert_eq!(inner.lookup_var("x".to_string()), Ok(num(2.0)));
    assert_eq!(inner.assign_var("x".to_string(), num(3.0)), Ok(num(3.0)));
    assert_eq!(inner.lookup_var("x".to_string()), Ok(num(3.0)));
    assert_eq!(
        inner.assign_var("k".to_string(), num(0.0)),
        Err(EvalError::ConstantReassignment("k".to_string()))
    );
    assert_eq!(inner.lookup_var("k".to_string()), Ok(num(9.0)));
    assert_eq!(
        inner.lookup_var("nowhere".to_string()),
        Err(EvalError::UnresolvedVariable("nowhere".to_string()))
    );
    assert!(inner.resolve("k".to_string()).is_ok());
    assert!(inner.resolve("nowhere".to_string()).is_err());
}

#[test]
fn statement_in_a_prepared_scope() {
    let mut env = Environment::new(None);
    env.declare_var("x".to_string(), num(100.0), false).unwrap();
    let node = Statement::Assign(Assign {
        id: "x",
        constant: false,
        expression: Box::new(Statement::ArithmeticExpression(ArithmeticExpression::Add(
            Box::new(ArithmeticExpression::Identifier(Identifier { id: "x".to_string() })),
            Box::new(ArithmeticExpression::Value(NumericLiteral { digits: "1".to_string() })),
        ))),
    });
    assert_eq!(evaluate(&mut env, &node, &number, &apply), Ok(num(101.0)));
    assert_eq!(env.lookup_var("x".to_string()), Ok(num(101.0)));
}

#[test]
fn trace_holds_every_value_up_to_the_error() {
    let program = parse_ast("let a = 1; a + 1; b; a;").unwrap();
    let mut env = Environment::new(None);
    let trace = evaluate_trace(&mut env, &program.body, &number, &apply);
    assert_eq!(trace.values, vec![num(1.0), num(2.0)]);
    assert_eq!(trace.error, Some(EvalError::UnresolvedVariable("b".to_string())));
    assert_eq!(env.lookup_var("a".to_string()), Ok(num(1.0)));

    let program = parse_ast("// c\ntrue; 3 * 3;").unwrap();
    let mut env = Environment::new(None);
    let trace = evaluate_trace(&mut env, &program.body, &number, &apply);
    assert_eq!(
        trace.values,
        vec![
            RuntimeValue { kind: ValueType::Nothing },
            RuntimeValue { kind: ValueType::Bool(true) },
            num(9.0)
        ]
    );
    assert_eq!(trace.error, None);
}

#[test]
fn failed_declaration_binds_nothing() {
    let mut env = Environment::new(None);
    let program = parse_ast("let a = 1 / 0;").unwrap();
    assert_eq!(evaluate(&mut env, &program.body[0], &number, &apply), Err(EvalError::DivideByZero));
    assert_eq!(env.lookup_var("a".to_string()), Err(EvalError::UnresolvedVariable("a".to_string())));
}

#[test]
fn values_are_copied_not_shared() {
    let mut env = Environment::new(None);
    let stored = env.declare_var("o".to_string(), RuntimeValue { kind: ValueType::Object(vec![("f".to_string(), num(1.0))]) }, false).unwrap();
    let read = env.lookup_var("o".to_string()).unwrap();
    assert_eq!(stored, read);
    assert_eq!(read.clone(), read);
    env.assign_var("o".to_string(), num(2.0)).unwrap();
    assert_eq!(read, RuntimeValue { kind: ValueType::Object(vec![("f".to_string(), num(1.0))]) });
    assert_eq!(env.lookup_var("o".to_string()), Ok(num(2.0)));
}

#[test]
fn numbers_are_doubles() {
    assert_eq!(run("1 / 3 * 3;"), Ok(num(1.0 / 3.0 * 3.0)));
    assert_eq!(run("9007199254740993;"), Ok(num(9007199254740992.0)));
    assert_eq!(run("5 % 0;").map(|v| match v.kind {
        ValueType::Number(bits) => f64::from_bits(bits).is_nan(),
        _ => false,
    }), Ok(true));
}

#[test]
fn property_has_no_evaluation() {
    let mut env = Environment::new(None);
    let node = Statement::Property(Property { key: "k", value: None });
    assert_eq!(
        evaluate(&mut env, &node, &number, &apply),
        Err(EvalError::Unimplemented(NodeKind::Property))
    );
}

#[test]
fn nested_declaration_binds_both_names() {
    let mut env = Environment::new(None);
    let inner = Statement::Declaration(Assign {
        id: "b",
        constant: true,
        expression: Box::new(Statement::NumericLiteral(NumericLiteral { digits: "4".to_string() })),
    });
    let outer = Statement::Declaration(Assign { id: "a", constant: false, expression: Box::new(inner) });
    assert_eq!(evaluate(&mut env, &outer, &number, &apply), Ok(num(4.0)));
    assert_eq!(env.lookup_var("a".to_string()), Ok(num(4.0)));
    assert_eq!(env.lookup_var("b".to_string()), Ok(num(4.0)));
    assert_eq!(
        env.assign_var("b".to_string(), num(5.0)),
        Err(EvalError::ConstantReassignment("b".to_string()))
    );
    assert_eq!(env.assign_var("a".to_string(), num(5.0)), Ok(num(5.0)));
}

#[test]
fn program_over_a_prepared_scope() {
    let program =
        parse_ast("// a sample\nlet y = 1 + 2 * 3;\nconst z = (x - y) / 3;\ny = y % 4;\ny + z;\n").unwrap();
    let mut env = Environment::new(None);
    env.declare_var("x".to_string(), num(100.0), false).unwrap();
    let trace = evaluate_trace(&mut env, &program.body, &number, &apply);
    assert_eq!(trace.error, None);
    assert_eq!(
        trace.values,
        vec![RuntimeValue { kind: ValueType::Nothing }, num(7.0), num(31.0), num(3.0), num(34.0)]
    );
}
