//! The errors that end a parse or an evaluation.

use vstd::prelude::*;
use crate::ast::Oper;
use crate::display::bool_text;

verus! {

/// The span of source text that had to be consumed whole and was not.
#[derive(Clone, Copy, PartialEq, Eq, Debug)]
pub enum Span {
    /// The right-hand side of a declaration or an assignment.
    RightHandSide,
    /// The body of an object literal, between its braces.
    ObjectBody,
    /// The whole program.
    Program,
}

/// An error that ends the parse. A grammar alternative that merely does not
/// match is no error: the parser then tries the next alternative.
#[derive(PartialEq, Eq, Debug)]
pub enum ParseError {
    /// The input ended inside a bracket that was never closed.
    UnbalancedBracket,
    /// A span was matched, and `remainder` was left of it unparsed.
    UnconsumedInput { span: Span, remainder: String },
}

/// What a `ParseError` says, with its text as a sequence of characters.
pub enum ParseFault {
    UnbalancedBracket,
    UnconsumedInput { span: Span, remainder: Seq<char> },
}

impl View for ParseError {
    type V = ParseFault;

    open spec fn view(&self) -> ParseFault {
        match self {
            ParseError::UnbalancedBracket => ParseFault::UnbalancedBracket,
            ParseError::UnconsumedInput { span, remainder } => ParseFault::UnconsumedInput {
                span: *span,
                remainder: remainder@,
            },
        }
    }
}

/// An operand that arithmetic does not take.
#[derive(Clone, Copy, PartialEq, Eq, Debug)]
pub enum Operand {
    /// A boolean, with its value.
    Bool(bool),
    /// An object.
    Object,
}

/// A kind of statement that has no evaluation.
#[derive(Clone, Copy, PartialEq, Eq, Debug)]
pub enum NodeKind {
    ObjectLiteral,
    Property,
    MemberExpression,
    CallExpression,
}

/// An error that ends the evaluation.
#[derive(PartialEq, Eq, Debug)]
pub enum EvalError {
    /// No scope of the chain holds the name.
    UnresolvedVariable(String),
    /// The current scope holds the name already.
    DuplicateDeclaration(String),
    /// The scope that holds the name marks it constant.
    ConstantReassignment(String),
    /// An operator met an operand that is no number.
    TypeMismatch { operator: Oper, operand: Operand },
    /// The divisor is zero.
    DivideByZero,
    /// The statement is of a kind that has no evaluation.
    Unimplemented(NodeKind),
}

/// What an `EvalError` says, with its text as a sequence of characters.
pub enum EvalFault {
    UnresolvedVariable(Seq<char>),
    DuplicateDeclaration(Seq<char>),
    ConstantReassignment(Seq<char>),
    TypeMismatch { operator: Oper, operand: Operand },
    DivideByZero,
    Unimplemented(NodeKind),
}

impl View for EvalError {
    type V = EvalFault;

    open spec fn view(&self) -> EvalFault {
        match self {
            EvalError::UnresolvedVariable(name) => EvalFault::UnresolvedVariable(name@),
            EvalError::DuplicateDeclaration(name) => EvalFault::DuplicateDeclaration(name@),
            EvalError::ConstantReassignment(name) => EvalFault::ConstantReassignment(name@),
            EvalError::TypeMismatch { operator, operand } => EvalFault::TypeMismatch {
                operator: *operator,
                operand: *operand,
            },
            EvalError::DivideByZero => EvalFault::DivideByZero,
            EvalError::Unimplemented(kind) => EvalFault::Unimplemented(*kind),
        }
    }
}

/// What a parse error tells the user.
pub open spec fn parse_message(fault: ParseFault) -> Seq<char> {
    match fault {
        ParseFault::UnbalancedBracket => "Unbalanced bracket: the input ends inside an open bracket"@,
        ParseFault::UnconsumedInput { span, remainder } => (match span {
            Span::ObjectBody => "Object remainder to be parsed: "@,
            _ => "Input remainder to be parsed: "@,
        }) + remainder,
    }
}

/// The word for an operator in a message.
pub open spec fn operator_verb(operator: Oper) -> Seq<char> {
    match operator {
        Oper::Add => "Add"@,
        Oper::Sub => "Subtract"@,
        Oper::Mul => "Multiply"@,
        Oper::Div => "Divide"@,
        Oper::Mod => "Mod"@,
    }
}

/// The name of a kind of statement in a message.
pub open spec fn kind_name(kind: NodeKind) -> Seq<char> {
    match kind {
        NodeKind::ObjectLiteral => "Object Literal"@,
        NodeKind::Property => "Property"@,
        NodeKind::MemberExpression => "Member Expression"@,
        NodeKind::CallExpression => "Call Expression"@,
    }
}

/// What an evaluation error tells the user.
pub open spec fn eval_message(fault: EvalFault) -> Seq<char> {
    match fault {
        EvalFault::UnresolvedVariable(name) => "Cannot resolve variable '"@ + name + "' as it does not exist"@,
        EvalFault::DuplicateDeclaration(name) => "Cannot declare variable '"@ + name
            + "' as it is already defined"@,
        EvalFault::ConstantReassignment(name) => "Cannot reassign values to a constant variable '"@ + name
            + "'"@,
        EvalFault::TypeMismatch { operator, operand } => "Cannot "@ + operator_verb(operator) + (match operand {
            Operand::Bool(b) => " bool '"@ + bool_text(b) + "' with number"@,
            Operand::Object => " an object: objects are not yet supported"@,
        }),
        EvalFault::DivideByZero => "Cannot divide by 0"@,
        EvalFault::Unimplemented(kind) => "Need to implement AST node type evaluation: "@ + kind_name(kind),
    }
}

impl ParseError {
    /// What the error tells the user.
    pub fn message(&self) -> (s: String)
        ensures
            s@ == parse_message(self@),
    {
        match self {
            ParseError::UnbalancedBracket => String::from_str(
                "Unbalanced bracket: the input ends inside an open bracket",
            ),
            ParseError::UnconsumedInput { span, remainder } => {
                let mut s = match span {
                    Span::ObjectBody => String::from_str("Object remainder to be parsed: "),
                    _ => String::from_str("Input remainder to be parsed: "),
                };
                s.append(remainder.as_str());
                s
            },
        }
    }
}

impl EvalError {
    /// What the error tells the user.
    pub fn message(&self) -> (s: String)
        ensures
            s@ == eval_message(self@),
    {
        match self {
            EvalError::UnresolvedVariable(name) => {
                let mut s = String::from_str("Cannot resolve variable '");
                s.append(name.as_str());
                s.append("' as it does not exist");
                s
            },
            EvalError::DuplicateDeclaration(name) => {
                let mut s = String::from_str("Cannot declare variable '");
                s.append(name.as_str());
                s.append("' as it is already defined");
                s
            },
            EvalError::ConstantReassignment(name) => {
                let mut s = String::from_str("Cannot reassign values to a constant variable '");
                s.append(name.as_str());
                s.append("'");
                s
            },
            EvalError::TypeMismatch { operator, operand } => {
                let mut s = String::from_str("Cannot ");
                s.append(
                    match operator {
                        Oper::Add => "Add",
                        Oper::Sub => "Subtract",
                        Oper::Mul => "Multiply",
                        Oper::Div => "Divide",
                        Oper::Mod => "Mod",
                    },
                );
                match operand {
                    Operand::Bool(b) => {
                        s.append(" bool '");
                        s.append(if *b { "true" } else { "false" });
                        s.append("' with number");
                    },
                    Operand::Object => {
                        s.append(" an object: objects are not yet supported");
                    },
                }
                s
            },
            EvalError::DivideByZero => String::from_str("Cannot divide by 0"),
            EvalError::Unimplemented(kind) => {
                let mut s = String::from_str("Need to implement AST node type evaluation: ");
                s.append(
                    match kind {
                        NodeKind::ObjectLiteral => "Object Literal",
                        NodeKind::Property => "Property",
                        NodeKind::MemberExpression => "Member Expression",
                        NodeKind::CallExpression => "Call Expression",
                    },
                );
                s
            },
        }
    }
}

} // verus!
