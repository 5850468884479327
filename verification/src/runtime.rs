//! The evaluator: it walks the syntax tree against a chain of scopes.
//!
//! Numbers are doubles, held as their bit patterns. The arithmetic on them
//! is not part of this library: the caller hands in the two functions that
//! do it, and every contract here holds for whatever those functions
//! compute.

pub mod environment;
pub mod value_types;

use vstd::prelude::*;
use crate::ast::{
    ArithmeticExpression, Assign, ExpressionModel, Identifier, Object, Oper, Statement,
    StatementModel,
};
use crate::error::{EvalError, EvalFault, NodeKind};
use crate::grammar::{statements_model, Program};
use crate::runtime::environment::{
    empty_frame, spec_assign, spec_declare, spec_lookup, Environment, FrameModel,
};
use crate::runtime::value_types::{spec_arithmetic, RuntimeValue, ValueModel, ValueType};

verus! {

/// The arithmetic that an evaluation rests on: the number that a run of
/// digits writes, and what an operator gives of two numbers.
pub struct Kernel {
    pub number: spec_fn(Seq<char>) -> u64,
    pub apply: spec_fn(Oper, u64, u64) -> u64,
}

/// That `number` and `apply` can be called on everything.
pub open spec fn total<N: Fn(&str) -> u64, A: Fn(Oper, u64, u64) -> u64>(number: &N, apply: &A) -> bool {
    &&& forall|digits: &str| #[trigger] number.requires((digits,))
    &&& forall|operator: Oper, left: u64, right: u64| #[trigger] apply.requires((operator, left, right))
}

/// That `apply` returns what `f` says.
pub open spec fn computes<A: Fn(Oper, u64, u64) -> u64>(apply: &A, f: spec_fn(Oper, u64, u64) -> u64) -> bool {
    forall|operator: Oper, left: u64, right: u64, bits: u64| #[trigger]
        apply.ensures((operator, left, right), bits) ==> bits == f(operator, left, right)
}

/// That `number` returns what `f` says.
pub open spec fn reads<N: Fn(&str) -> u64>(number: &N, f: spec_fn(Seq<char>) -> u64) -> bool {
    forall|digits: &str, bits: u64| #[trigger] number.ensures((digits,), bits) ==> bits == f(digits@)
}

/// That `number` and `apply` return what `kernel` says.
pub open spec fn implements<N: Fn(&str) -> u64, A: Fn(Oper, u64, u64) -> u64>(
    number: &N,
    apply: &A,
    kernel: Kernel,
) -> bool {
    reads(number, kernel.number) && computes(apply, kernel.apply)
}

/// What an evaluation gives, as a model.
pub open spec fn outcome(r: Result<RuntimeValue, EvalError>) -> Result<ValueModel, EvalFault> {
    match r {
        Ok(v) => Ok(v@),
        Err(e) => Err(e@),
    }
}

/// The value of an expression in the scopes of `chain`. Brackets change
/// nothing; the left side of an operator is evaluated first, and the first
/// error ends the evaluation.
pub open spec fn spec_evaluate_expression(chain: Seq<FrameModel>, expr: ExpressionModel, kernel: Kernel) -> Result<
    ValueModel,
    EvalFault,
>
    decreases expr,
{
    match expr {
        ExpressionModel::Value(digits) => Ok(ValueModel::Number((kernel.number)(digits))),
        ExpressionModel::Identifier(name) => spec_lookup(chain, name),
        ExpressionModel::Binary(operator, left, right) => match spec_evaluate_expression(chain, *left, kernel) {
            Err(fault) => Err(fault),
            Ok(l) => match spec_evaluate_expression(chain, *right, kernel) {
                Err(fault) => Err(fault),
                Ok(r) => spec_arithmetic(operator, l, r, kernel.apply),
            },
        },
        ExpressionModel::Paren(inner) => spec_evaluate_expression(chain, *inner, kernel),
    }
}

/// The scopes after a statement is evaluated in `chain`, and its value. An
/// error leaves the scopes as they were when it came up.
pub open spec fn spec_evaluate(chain: Seq<FrameModel>, node: StatementModel, kernel: Kernel) -> (
    Seq<FrameModel>,
    Result<ValueModel, EvalFault>,
)
    decreases node,
{
    match node {
        StatementModel::Comment(_) => (chain, Ok(ValueModel::Nothing)),
        StatementModel::BooleanLiteral(b) => (chain, Ok(ValueModel::Bool(b))),
        StatementModel::Identifier(name) => (chain, spec_lookup(chain, name)),
        StatementModel::NumericLiteral(digits) => (chain, Ok(ValueModel::Number((kernel.number)(digits)))),
        StatementModel::Declaration(binding) => {
            let (after, value) = spec_evaluate(chain, *binding.expression, kernel);
            match value {
                Err(fault) => (after, Err(fault)),
                Ok(v) => match spec_declare(after, binding.name, v, binding.constant) {
                    Err(fault) => (after, Err(fault)),
                    Ok(declared) => (declared, Ok(v)),
                },
            }
        },
        StatementModel::Assign(binding) => {
            let (after, value) = spec_evaluate(chain, *binding.expression, kernel);
            match value {
                Err(fault) => (after, Err(fault)),
                Ok(v) => match spec_assign(after, binding.name, v) {
                    Err(fault) => (after, Err(fault)),
                    Ok(assigned) => (assigned, Ok(v)),
                },
            }
        },
        StatementModel::ArithmeticExpression(expr) => (chain, spec_evaluate_expression(chain, expr, kernel)),
        StatementModel::CallExpression { .. } => (chain, Err(EvalFault::Unimplemented(NodeKind::CallExpression))),
        StatementModel::ObjectLiteral(_) => (chain, Err(EvalFault::Unimplemented(NodeKind::ObjectLiteral))),
        StatementModel::Property(_) => (chain, Err(EvalFault::Unimplemented(NodeKind::Property))),
        StatementModel::MemberExpression { .. } => (
            chain,
            Err(EvalFault::Unimplemented(NodeKind::MemberExpression)),
        ),
    }
}

/// What evaluating statements one after the other gives: the scopes at the
/// end, the values of the statements that were evaluated, and the error that
/// ended the evaluation if one did. The statement that fails has no value,
/// and none after it is evaluated.
pub open spec fn spec_trace(chain: Seq<FrameModel>, body: Seq<StatementModel>, kernel: Kernel) -> (
    Seq<FrameModel>,
    Seq<ValueModel>,
    Option<EvalFault>,
)
    decreases body.len(),
{
    if body.len() == 0 {
        (chain, Seq::empty(), None)
    } else {
        let (after, value) = spec_evaluate(chain, body[0], kernel);
        match value {
            Err(fault) => (after, Seq::empty(), Some(fault)),
            Ok(v) => {
                let (end, values, fault) = spec_trace(after, body.skip(1), kernel);
                (end, seq![v] + values, fault)
            },
        }
    }
}

/// What a program evaluates to: the value of its last statement, nothing
/// where it has no statement, and the first error where there is one.
pub open spec fn spec_evaluate_program(body: Seq<StatementModel>, kernel: Kernel) -> Result<ValueModel, EvalFault> {
    let (_, values, fault) = spec_trace(root(), body, kernel);
    match fault {
        Some(f) => Err(f),
        None => if values.len() == 0 {
            Ok(ValueModel::Nothing)
        } else {
            Ok(values.last())
        },
    }
}

/// The scopes that a program starts in: one scope without bindings.
pub open spec fn root() -> Seq<FrameModel> {
    seq![empty_frame()]
}

/// What `operator` gives of `left` and `right`.
pub fn evaluate_numeric_arithmetic_expression<A: Fn(Oper, u64, u64) -> u64>(
    left: &ValueType,
    right: &ValueType,
    operator: Oper,
    apply: &A,
) -> (r: Result<ValueType, EvalError>)
    requires
        forall|operator: Oper, left: u64, right: u64| #[trigger] apply.requires((operator, left, right)),
    ensures
        forall|f: spec_fn(Oper, u64, u64) -> u64| #[trigger]
            computes(apply, f) ==> spec_arithmetic(operator, left@, right@, f) == (match r {
                Ok(v) => Ok::<ValueModel, EvalFault>(v@),
                Err(e) => Err::<ValueModel, EvalFault>(e@),
            }),
{
    let divides = match operator {
        Oper::Div => true,
        _ => false,
    };
    if divides {
        let divisor = match right.operand(operator) {
            Ok(bits) => bits,
            Err(e) => {
                return Err(e);
            },
        };
        if divisor == 0 || divisor == 0x8000_0000_0000_0000 {
            return Err(EvalError::DivideByZero);
        }
    }
    let l = match left.operand(operator) {
        Ok(bits) => bits,
        Err(e) => {
            return Err(e);
        },
    };
    let r = match right.operand(operator) {
        Ok(bits) => bits,
        Err(e) => {
            return Err(e);
        },
    };
    match left {
        ValueType::Nothing => Ok(ValueType::Nothing),
        _ => Ok(ValueType::Number(apply(operator, l, r))),
    }
}

/// The value of the two sides of an operator under it.
fn eval_left_right<N: Fn(&str) -> u64, A: Fn(Oper, u64, u64) -> u64>(
    env: &Environment,
    left: &ArithmeticExpression,
    right: &ArithmeticExpression,
    operator: Oper,
    number: &N,
    apply: &A,
) -> (r: Result<RuntimeValue, EvalError>)
    requires
        total(number, apply),
    ensures
        forall|kernel: Kernel| #[trigger]
            implements(number, apply, kernel) ==> outcome(r) == (match spec_evaluate_expression(
                env@,
                left@,
                kernel,
            ) {
                Err(fault) => Err(fault),
                Ok(l) => match spec_evaluate_expression(env@, right@, kernel) {
                    Err(fault) => Err(fault),
                    Ok(r) => spec_arithmetic(operator, l, r, kernel.apply),
                },
            }),
    decreases ExpressionModel::Binary(operator, Box::new(left@), Box::new(right@)), 0nat,
{
    proof {
        let node = ExpressionModel::Binary(operator, Box::new(left@), Box::new(right@));
        assert(*node->Binary_1 == left@);
        assert(*node->Binary_2 == right@);
        assert(decreases_to!(node => *node->Binary_1));
        assert(decreases_to!(node => *node->Binary_2));
    }
    let l = match evaluate_arithmetic_expression(env, left, number, apply) {
        Ok(v) => v,
        Err(e) => {
            return Err(e);
        },
    };
    let r = match evaluate_arithmetic_expression(env, right, number, apply) {
        Ok(v) => v,
        Err(e) => {
            return Err(e);
        },
    };
    match evaluate_numeric_arithmetic_expression(&l.kind, &r.kind, operator, apply) {
        Ok(kind) => Ok(RuntimeValue { kind }),
        Err(e) => Err(e),
    }
}

/// The value of an arithmetic expression in `env`.
pub fn evaluate_arithmetic_expression<N: Fn(&str) -> u64, A: Fn(Oper, u64, u64) -> u64>(
    env: &Environment,
    expr: &ArithmeticExpression,
    number: &N,
    apply: &A,
) -> (r: Result<RuntimeValue, EvalError>)
    requires
        total(number, apply),
    ensures
        forall|kernel: Kernel| #[trigger]
            implements(number, apply, kernel) ==> outcome(r) == spec_evaluate_expression(env@, expr@, kernel),
    decreases expr@, 1nat,
{
    match expr {
        ArithmeticExpression::Value(val) => Ok(
            RuntimeValue { kind: ValueType::Number(number(val.digits.as_str())) },
        ),
        ArithmeticExpression::Identifier(id) => evaluate_identifier(env, id),
        ArithmeticExpression::Add(left, right) => eval_left_right(env, left, right, Oper::Add, number, apply),
        ArithmeticExpression::Sub(left, right) => eval_left_right(env, left, right, Oper::Sub, number, apply),
        ArithmeticExpression::Mul(left, right) => eval_left_right(env, left, right, Oper::Mul, number, apply),
        ArithmeticExpression::Div(left, right) => eval_left_right(env, left, right, Oper::Div, number, apply),
        ArithmeticExpression::Mod(left, right) => eval_left_right(env, left, right, Oper::Mod, number, apply),
        ArithmeticExpression::Paren(inner) => {
            proof {
                assert(expr@ == ExpressionModel::Paren(Box::new(inner@)));
                assert(*expr@->Paren_0 == inner@);
                assert(decreases_to!(expr@ => *expr@->Paren_0));
            }
            evaluate_arithmetic_expression(env, inner, number, apply)
        },
    }
}

/// The value of a name in `env`.
fn evaluate_identifier(env: &Environment, id: &Identifier) -> (r: Result<RuntimeValue, EvalError>)
    ensures
        outcome(r) == spec_lookup(env@, id@),
{
    env.lookup_var(id.id.clone())
}

/// An object literal has no evaluation.
fn evaluate_object_literal(_env: &Environment, _object: &Object) -> (r: Result<RuntimeValue, EvalError>)
    ensures
        r == Err::<RuntimeValue, _>(EvalError::Unimplemented(NodeKind::ObjectLiteral)),
{
    Err(EvalError::Unimplemented(NodeKind::ObjectLiteral))
}

/// Evaluates the expression of a declaration and binds its name to the
/// value in the current scope.
fn evaluate_declaration<'a, N: Fn(&str) -> u64, A: Fn(Oper, u64, u64) -> u64>(
    env: &mut Environment,
    assign: &Assign<'a>,
    number: &N,
    apply: &A,
) -> (r: Result<RuntimeValue, EvalError>)
    requires
        total(number, apply),
    ensures
        forall|kernel: Kernel| #[trigger]
            implements(number, apply, kernel) ==> spec_evaluate(
                old(env)@,
                StatementModel::Declaration(assign@),
                kernel,
            ) == (final(env)@, outcome(r)),
        old(env).well_formed() ==> final(env).well_formed(),
    decreases assign,
{
    let expr = match evaluate(env, &assign.expression, number, apply) {
        Ok(v) => v,
        Err(e) => {
            return Err(e);
        },
    };
    env.declare_var(assign.id.to_owned(), expr, assign.constant)
}

/// Evaluates the expression of an assignment and binds its name anew in
/// the scope that holds it.
fn evaluate_assign<'a, N: Fn(&str) -> u64, A: Fn(Oper, u64, u64) -> u64>(
    env: &mut Environment,
    assign: &Assign<'a>,
    number: &N,
    apply: &A,
) -> (r: Result<RuntimeValue, EvalError>)
    requires
        total(number, apply),
    ensures
        forall|kernel: Kernel| #[trigger]
            implements(number, apply, kernel) ==> spec_evaluate(
                old(env)@,
                StatementModel::Assign(assign@),
                kernel,
            ) == (final(env)@, outcome(r)),
        old(env).well_formed() ==> final(env).well_formed(),
    decreases assign,
{
    let expr = match evaluate(env, &assign.expression, number, apply) {
        Ok(v) => v,
        Err(e) => {
            return Err(e);
        },
    };
    env.assign_var(assign.id.to_owned(), expr)
}

/// Evaluates one statement in `env`.
///
/// `number` gives the bit pattern of the double that a run of digits
/// writes, and `apply` the bit pattern of what an operator gives of two
/// doubles. Whatever functions the two compute, the value and the scopes
/// are those of `spec_evaluate` over these functions.
pub fn evaluate<'a, N: Fn(&str) -> u64, A: Fn(Oper, u64, u64) -> u64>(
    env: &mut Environment,
    ast_node: &Statement<'a>,
    number: &N,
    apply: &A,
) -> (r: Result<RuntimeValue, EvalError>)
    requires
        total(number, apply),
    ensures
        forall|kernel: Kernel| #[trigger]
            implements(number, apply, kernel) ==> spec_evaluate(old(env)@, ast_node@, kernel) == (
                final(env)@,
                outcome(r),
            ),
        old(env).well_formed() ==> final(env).well_formed(),
    decreases ast_node,
{
    match ast_node {
        Statement::Comment(_) => Ok(RuntimeValue { kind: ValueType::Nothing }),
        Statement::BooleanLiteral(val) => Ok(RuntimeValue { kind: ValueType::Bool(*val) }),
        Statement::Identifier(id) => evaluate_identifier(env, id),
        Statement::NumericLiteral(val) => Ok(
            RuntimeValue { kind: ValueType::Number(number(val.digits.as_str())) },
        ),
        Statement::ObjectLiteral(val) => evaluate_object_literal(env, val),
        Statement::Declaration(assign) => evaluate_declaration(env, assign, number, apply),
        Statement::Assign(assign) => evaluate_assign(env, assign, number, apply),
        Statement::ArithmeticExpression(expr) => evaluate_arithmetic_expression(env, expr, number, apply),
        Statement::CallExpression(_) => Err(EvalError::Unimplemented(NodeKind::CallExpression)),
        Statement::Property(_) => Err(EvalError::Unimplemented(NodeKind::Property)),
        Statement::MemberExpression(_) => Err(EvalError::Unimplemented(NodeKind::MemberExpression)),
    }
}

/// What an evaluation of statements has given: the value of each statement
/// that was evaluated, in their order, and the error that ended it, if one
/// did.
#[derive(PartialEq, Eq, Debug)]
pub struct Trace {
    pub values: Vec<RuntimeValue>,
    pub error: Option<EvalError>,
}

/// The models of values.
pub open spec fn values_model(values: Seq<RuntimeValue>) -> Seq<ValueModel> {
    Seq::new(values.len(), |i: int| values[i]@)
}

/// The model of an error, if there is one.
pub open spec fn fault_of(error: Option<EvalError>) -> Option<EvalFault> {
    match error {
        Some(e) => Some(e@),
        None => None,
    }
}

/// `more` after the values that were found before it.
pub open spec fn after_values(
    first: Seq<ValueModel>,
    more: (Seq<FrameModel>, Seq<ValueModel>, Option<EvalFault>),
) -> (Seq<FrameModel>, Seq<ValueModel>, Option<EvalFault>) {
    (more.0, first + more.1, more.2)
}

/// Evaluates the statements of `body` in their order in `env`, up to the
/// first error, and gives the value of each.
pub fn evaluate_trace<'a, N: Fn(&str) -> u64, A: Fn(Oper, u64, u64) -> u64>(
    env: &mut Environment,
    body: &Vec<Statement<'a>>,
    number: &N,
    apply: &A,
) -> (trace: Trace)
    requires
        total(number, apply),
    ensures
        forall|kernel: Kernel| #[trigger]
            implements(number, apply, kernel) ==> spec_trace(
                old(env)@,
                statements_model(body@),
                kernel,
            ) == (final(env)@, values_model(trace.values@), fault_of(trace.error)),
        old(env).well_formed() ==> final(env).well_formed(),
{
    let ghost start = env@;
    let ghost models = statements_model(body@);
    let mut values: Vec<RuntimeValue> = Vec::new();
    let mut i: usize = 0;
    proof {
        assert(models.skip(0) =~= models);
        assert(values_model(values@) =~= Seq::empty());
        assert forall|kernel: Kernel| #[trigger] implements(number, apply, kernel) implies spec_trace(
            start,
            models,
            kernel,
        ) == after_values(values_model(values@), spec_trace(env@, models.skip(i as int), kernel)) by {
            let t = spec_trace(start, models, kernel);
            assert(Seq::<ValueModel>::empty() + t.1 =~= t.1);
        }
    }
    while i < body.len()
        invariant
            i <= body.len(),
            total(number, apply),
            models == statements_model(body@),
            start == old(env)@,
            old(env).well_formed() ==> env.well_formed(),
            forall|kernel: Kernel| #[trigger]
                implements(number, apply, kernel) ==> spec_trace(start, models, kernel) == after_values(
                    values_model(values@),
                    spec_trace(env@, models.skip(i as int), kernel),
                ),
        decreases body.len() - i,
    {
        let ghost before = env@;
        let ghost found = values_model(values@);
        let value = evaluate(env, &body[i], number, apply);
        proof {
            assert(models.skip(i as int)[0] == body[i as int]@);
            assert(models.skip(i as int).skip(1) =~= models.skip(i + 1));
        }
        match value {
            Ok(v) => {
                proof {
                    assert(values_model(values@.push(v)) =~= found.push(v@));
                    assert forall|kernel: Kernel| #[trigger] implements(number, apply, kernel) implies spec_trace(
                        start,
                        models,
                        kernel,
                    ) == after_values(found.push(v@), spec_trace(env@, models.skip(i + 1), kernel)) by {
                        let rest = spec_trace(env@, models.skip(i + 1), kernel);
                        assert(spec_trace(before, models.skip(i as int), kernel) == (
                            rest.0,
                            seq![v@] + rest.1,
                            rest.2,
                        ));
                        assert(found + (seq![v@] + rest.1) =~= found.push(v@) + rest.1);
                    }
                }
                values.push(v);
            },
            Err(e) => {
                proof {
                    assert forall|kernel: Kernel| #[trigger] implements(number, apply, kernel) implies spec_trace(
                        start,
                        models,
                        kernel,
                    ) == (env@, found, Some(e@)) by {
                        assert(spec_trace(before, models.skip(i as int), kernel) == (
                            env@,
                            Seq::<ValueModel>::empty(),
                            Some(e@),
                        ));
                        assert(found + Seq::<ValueModel>::empty() =~= found);
                    }
                }
                return Trace { values, error: Some(e) };
            },
        }
        i = i + 1;
    }
    proof {
        assert forall|kernel: Kernel| #[trigger] implements(number, apply, kernel) implies spec_trace(
            start,
            models,
            kernel,
        ) == (env@, values_model(values@), None::<EvalFault>) by {
            assert(values_model(values@) + Seq::<ValueModel>::empty() =~= values_model(values@));
        }
    }
    Trace { values, error: None }
}

/// Evaluates the statements of `program` in their order, in one scope that
/// starts without bindings, and gives the value of the last one; nothing
/// for a program without statements. The first error ends the evaluation.
pub fn evaluate_program<'a, N: Fn(&str) -> u64, A: Fn(Oper, u64, u64) -> u64>(
    program: &Program<'a>,
    number: &N,
    apply: &A,
) -> (r: Result<RuntimeValue, EvalError>)
    requires
        total(number, apply),
    ensures
        forall|kernel: Kernel| #[trigger]
            implements(number, apply, kernel) ==> outcome(r) == spec_evaluate_program(program@, kernel),
{
    let mut env = Environment::new(None);
    proof {
        assert(env@ =~= root());
    }
    let trace = evaluate_trace(&mut env, &program.body, number, apply);
    let Trace { mut values, error } = trace;
    match error {
        Some(e) => Err(e),
        None => match values.pop() {
            Some(last) => Ok(last),
            None => Ok(RuntimeValue { kind: ValueType::Nothing }),
        },
    }
}

} // verus!
