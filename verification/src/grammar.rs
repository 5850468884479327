//! The grammar of statements and programs. Alternatives are tried in a fixed
//! order and the first that matches is taken; what is left unparsed of a
//! right-hand side, of an object's body or of the program ends the parse.

use vstd::prelude::*;
use crate::arithmetic::{lemma_expression_consumes, parse_arithmetic_expression, spec_expression};
use crate::ast::{
    Assign, BindingModel, CallExpression, Identifier, MemberExpression, NumericLiteral, Object,
    texts, Property, PropertyModel, Statement, StatementModel,
};
use crate::chars::{
    digit1, find, lemma_find, lemma_prefix_of_one, lemma_run_len_bound, lemma_skip_run_len, line,
    run_len,
    skip_multispace, skip_run, skip_space, starts_with, symbol, tag, take_until, trim, trimmed,
    CharClass,
};
use crate::error::{ParseError, ParseFault, Span};
use crate::generic::{
    get_identifier, identifier_len, lemma_scan_close, scan, take_until_unbalanced, Scan,
};

verus! {

/// What a parser gives that matches or does not: the rest of the input
/// and a value, or nothing.
pub type Found<T> = Option<(Seq<char>, T)>;

/// What a parser gives that can also end the parse.
pub type Outcome<T> = Result<Option<(Seq<char>, T)>, ParseFault>;

/// `s` without the white space at its start.
pub open spec fn skip_ws(s: Seq<char>) -> Seq<char> {
    skip_run(s, CharClass::MultiSpace)
}

/// What follows `pat` at the start of `s`.
pub open spec fn after(s: Seq<char>, pat: Seq<char>) -> Option<Seq<char>> {
    if pat.is_prefix_of(s) {
        Some(s.skip(pat.len() as int))
    } else {
        None
    }
}

/// What follows the end of a statement: white space, `;`, white space.
pub open spec fn spec_terminator(s: Seq<char>) -> Option<Seq<char>> {
    let t = skip_ws(s);
    if starts_with(t, ';') {
        Some(skip_ws(t.skip(1)))
    } else {
        None
    }
}

/// A value with white space before it and the end of a statement behind it.
pub open spec fn terminated(found: Found<StatementModel>) -> Found<StatementModel> {
    match found {
        Some((rest, value)) => match spec_terminator(rest) {
            Some(end) => Some((end, value)),
            None => None,
        },
        None => None,
    }
}

/// A comment: `//` after spaces and tabs, then the rest of the line, kept
/// without the white space at its ends.
pub open spec fn spec_comment(s: Seq<char>) -> Found<StatementModel> {
    match after(skip_run(s, CharClass::Space), "//"@) {
        Some(line) => {
            let n = run_len(line, CharClass::NotLineBreak) as int;
            Some((line.skip(n), StatementModel::Comment(trimmed(line.take(n)))))
        },
        None => None,
    }
}

/// `true` or `false`.
pub open spec fn spec_boolean(s: Seq<char>) -> Found<StatementModel> {
    match after(s, "true"@) {
        Some(rest) => Some((rest, StatementModel::BooleanLiteral(true))),
        None => match after(s, "false"@) {
            Some(rest) => Some((rest, StatementModel::BooleanLiteral(false))),
            None => None,
        },
    }
}

/// A run of digits.
pub open spec fn spec_numeric(s: Seq<char>) -> Found<StatementModel> {
    let n = run_len(s, CharClass::Digit) as int;
    if n > 0 {
        Some((s.skip(n), StatementModel::NumericLiteral(s.take(n))))
    } else {
        None
    }
}

/// A name.
pub open spec fn spec_name(s: Seq<char>) -> Found<Seq<char>> {
    let n = identifier_len(s) as int;
    if n > 0 {
        Some((s.skip(n), s.take(n)))
    } else {
        None
    }
}

/// A name as a statement of its own, ended by `;`.
pub open spec fn spec_identifier(s: Seq<char>) -> Found<StatementModel> {
    match spec_name(skip_ws(s)) {
        Some((rest, name)) => terminated(Some((rest, StatementModel::Identifier(name)))),
        None => None,
    }
}

/// An index by a constant name: `object["property"]`.
pub open spec fn spec_member(s: Seq<char>) -> Found<StatementModel> {
    match spec_name(s) {
        Some((a, object)) => if starts_with(a, '[') && starts_with(a.skip(1), '"') {
            match spec_name(a.skip(1).skip(1)) {
                Some((b, property)) => if starts_with(b, '"') && starts_with(b.skip(1), ']') {
                    Some((b.skip(1).skip(1), StatementModel::MemberExpression { object, property }))
                } else {
                    None
                },
                None => None,
            }
        } else {
            None
        },
        None => None,
    }
}

/// An arithmetic expression as a statement.
pub open spec fn spec_arithmetic(s: Seq<char>) -> Found<StatementModel> {
    match spec_expression(s) {
        Some((rest, e)) => Some((rest, StatementModel::ArithmeticExpression(e))),
        None => None,
    }
}

/// The value of a property: `:`, then a boolean, a number, a name ended by
/// `;`, an arithmetic expression or an object, whichever matches first.
pub open spec fn spec_property_value(s: Seq<char>) -> Outcome<StatementModel>
    decreases s.len(), 0nat,
{
    if starts_with(s, ':') {
        let t = skip_ws(s.skip(1));
        let value: Outcome<StatementModel> = if spec_boolean(t) is Some {
            Ok(spec_boolean(t))
        } else if spec_numeric(t) is Some {
            Ok(spec_numeric(t))
        } else if spec_identifier(t) is Some {
            Ok(spec_identifier(t))
        } else if spec_arithmetic(t) is Some {
            Ok(spec_arithmetic(t))
        } else if t.len() < s.len() {
            spec_object(t)
        } else {
            Ok(None)
        };
        match value {
            Ok(Some((rest, v))) => Ok(Some((skip_ws(rest), v))),
            other => other,
        }
    } else {
        Ok(None)
    }
}

/// A property: a name, its value if it has one, and a `,` if one follows,
/// with white space around each.
pub open spec fn spec_property(s: Seq<char>) -> Outcome<PropertyModel>
    decreases s.len(), 1nat,
{
    match spec_name(skip_ws(s)) {
        Some((a, key)) => {
            let b = skip_ws(a);
            if b.len() <= s.len() {
                match spec_property_value(b) {
                    Err(fault) => Err(fault),
                    Ok(found) => {
                        let (c, value) = match found {
                            Some((c, v)) => (c, Some(Box::new(v))),
                            None => (b, None),
                        };
                        let d = skip_ws(c);
                        let e = if starts_with(d, ',') {
                            d.skip(1)
                        } else {
                            d
                        };
                        Ok(Some((skip_ws(e), PropertyModel { key, value })))
                    },
                }
            } else {
                Ok(None)
            }
        },
        None => Ok(None),
    }
}

/// As many properties as follow one another, and the rest of the input.
pub open spec fn spec_property_list(s: Seq<char>) -> Result<(Seq<PropertyModel>, Seq<char>), ParseFault>
    decreases s.len(), 2nat,
{
    match spec_property(s) {
        Err(fault) => Err(fault),
        Ok(Some((rest, property))) => if rest.len() < s.len() {
            match spec_property_list(rest) {
                Err(fault) => Err(fault),
                Ok((more, end)) => Ok((seq![property] + more, end)),
            }
        } else {
            Ok((Seq::empty(), s))
        },
        Ok(None) => Ok((Seq::empty(), s)),
    }
}

/// The properties of an object's body, with white space around them.
pub open spec fn spec_properties(s: Seq<char>) -> Result<(Seq<PropertyModel>, Seq<char>), ParseFault>
    decreases s.len(), 3nat,
{
    let t = skip_ws(s);
    if t.len() <= s.len() {
        match spec_property_list(t) {
            Err(fault) => Err(fault),
            Ok((properties, rest)) => Ok((properties, skip_ws(rest))),
        }
    } else {
        Ok((Seq::empty(), s))
    }
}

/// An object literal: `{`, the body up to the `}` that closes it, and that
/// `}`. The body is parsed as properties and has to be consumed whole.
pub open spec fn spec_object(s: Seq<char>) -> Outcome<StatementModel>
    decreases s.len(), 4nat,
{
    if starts_with(s, '{') {
        let inner = s.skip(1);
        match scan(inner, '{', '}', 0, 0) {
            Scan::Unbalanced => Err(ParseFault::UnbalancedBracket),
            Scan::Exhausted => Ok(None),
            Scan::Close(i) => {
                let body = inner.take(i);
                if body.len() < s.len() {
                    match spec_properties(body) {
                        Err(fault) => Err(fault),
                        Ok((properties, left)) => if left.len() > 0 {
                            Err(ParseFault::UnconsumedInput { span: Span::ObjectBody, remainder: left })
                        } else {
                            Ok(Some((inner.skip(i).skip(1), StatementModel::ObjectLiteral(properties))))
                        },
                    }
                } else {
                    Ok(None)
                }
            },
        }
    } else {
        Ok(None)
    }
}

/// The right-hand side of a declaration or an assignment: a boolean, an
/// object, an arithmetic expression or an index, whichever matches first. It
/// has to consume `span` whole.
pub open spec fn spec_right_hand_side(span: Seq<char>) -> Result<Option<StatementModel>, ParseFault> {
    let value: Outcome<StatementModel> = if spec_boolean(span) is Some {
        Ok(spec_boolean(span))
    } else if spec_object(span) != Ok::<Option<(Seq<char>, StatementModel)>, ParseFault>(None) {
        spec_object(span)
    } else if spec_arithmetic(span) is Some {
        Ok(spec_arithmetic(span))
    } else {
        Ok(spec_member(span))
    };
    match value {
        Err(fault) => Err(fault),
        Ok(None) => Ok(None),
        Ok(Some((left, v))) => if left.len() > 0 {
            Err(ParseFault::UnconsumedInput { span: Span::RightHandSide, remainder: left })
        } else {
            Ok(Some(v))
        },
    }
}

/// What follows the name in a declaration or an assignment: `=`, the text up
/// to the first `;` and that `;`, with white space around each. It gives the
/// rest of the input and the text.
pub open spec fn spec_binding_span(s: Seq<char>) -> Found<Seq<char>> {
    let t = skip_ws(s);
    if starts_with(t, '=') {
        let u = skip_ws(t.skip(1));
        match find(u, ";"@) {
            Some(i) => match spec_terminator(u.skip(i)) {
                Some(rest) => Some((rest, u.take(i))),
                None => None,
            },
            None => None,
        }
    } else {
        None
    }
}

/// The binding of `name` to what follows it in `s`.
pub open spec fn spec_binding(s: Seq<char>, name: Seq<char>, constant: bool) -> Outcome<BindingModel> {
    match spec_binding_span(s) {
        Some((rest, span)) => match spec_right_hand_side(span) {
            Err(fault) => Err(fault),
            Ok(None) => Ok(None),
            Ok(Some(v)) => Ok(Some((rest, BindingModel { name, constant, expression: Box::new(v) }))),
        },
        None => Ok(None),
    }
}

/// The keyword of a declaration: what follows it, and whether it declares a
/// constant.
pub open spec fn spec_keyword(s: Seq<char>) -> Found<bool> {
    match after(s, "let"@) {
        Some(rest) => Some((rest, false)),
        None => match after(s, "const"@) {
            Some(rest) => Some((rest, true)),
            None => None,
        },
    }
}

/// A declaration: `let` or `const`, a name, `=`, a right-hand side and `;`.
pub open spec fn spec_declaration(s: Seq<char>) -> Outcome<StatementModel> {
    match spec_keyword(skip_ws(s)) {
        Some((a, constant)) => match spec_name(skip_ws(a)) {
            Some((b, name)) => match spec_binding(b, name, constant) {
                Err(fault) => Err(fault),
                Ok(None) => Ok(None),
                Ok(Some((rest, binding))) => Ok(Some((rest, StatementModel::Declaration(binding)))),
            },
            None => Ok(None),
        },
        None => Ok(None),
    }
}

/// An assignment: a name, `=`, a right-hand side and `;`.
pub open spec fn spec_assign(s: Seq<char>) -> Outcome<StatementModel> {
    match spec_name(skip_ws(s)) {
        Some((b, name)) => match spec_binding(b, name, false) {
            Err(fault) => Err(fault),
            Ok(None) => Ok(None),
            Ok(Some((rest, binding))) => Ok(Some((rest, StatementModel::Assign(binding)))),
        },
        None => Ok(None),
    }
}

/// The pieces of `s` between its commas.
pub open spec fn split_commas(s: Seq<char>) -> Seq<Seq<char>>
    decreases s.len(),
{
    match find(s, ","@) {
        Some(i) => if 0 <= i < s.len() {
            seq![s.take(i)] + split_commas(s.skip(i + 1))
        } else {
            seq![s]
        },
        None => seq![s],
    }
}

/// The arguments that the text between the brackets of a call writes: its
/// pieces between commas, each without the white space at its ends.
pub open spec fn spec_arguments(s: Seq<char>) -> Seq<Seq<char>> {
    trimmed_each(split_commas(trimmed(s)))
}

/// Each of `pieces` without the white space at its ends.
pub open spec fn trimmed_each(pieces: Seq<Seq<char>>) -> Seq<Seq<char>> {
    Seq::new(pieces.len(), |i: int| trimmed(pieces[i]))
}

/// A call of `print`: `print`, `(`, the text up to the first `)`, `)` and
/// `;`.
pub open spec fn spec_call(s: Seq<char>) -> Found<StatementModel> {
    match after(skip_ws(s), "print"@) {
        Some(a) => {
            let b = skip_ws(a);
            if starts_with(b, '(') {
                let c = skip_ws(b.skip(1));
                match find(c, ")"@) {
                    Some(i) => if starts_with(c.skip(i), ')') {
                        terminated(
                            Some(
                                (
                                    c.skip(i).skip(1),
                                    StatementModel::CallExpression {
                                        func: "print"@,
                                        args: spec_arguments(c.take(i)),
                                    },
                                ),
                            ),
                        )
                    } else {
                        None
                    },
                    None => None,
                }
            } else {
                None
            }
        },
        None => None,
    }
}

/// A statement: the first that matches of a comment, a boolean, a number or
/// a name ended by `;`, a declaration, an assignment, a call, an index ended
/// by `;`, and an arithmetic expression.
pub open spec fn spec_statement(s: Seq<char>) -> Outcome<StatementModel> {
    if spec_comment(s) is Some {
        Ok(spec_comment(s))
    } else if terminated(spec_boolean(skip_ws(s))) is Some {
        Ok(terminated(spec_boolean(skip_ws(s))))
    } else if terminated(spec_numeric(skip_ws(s))) is Some {
        Ok(terminated(spec_numeric(skip_ws(s))))
    } else if spec_identifier(s) is Some {
        Ok(spec_identifier(s))
    } else if spec_declaration(s) != Ok::<Option<(Seq<char>, StatementModel)>, ParseFault>(None) {
        spec_declaration(s)
    } else if spec_assign(s) != Ok::<Option<(Seq<char>, StatementModel)>, ParseFault>(None) {
        spec_assign(s)
    } else if spec_call(s) is Some {
        Ok(spec_call(s))
    } else if terminated(spec_member(skip_ws(s))) is Some {
        Ok(terminated(spec_member(skip_ws(s))))
    } else {
        Ok(spec_arithmetic(s))
    }
}

/// As many statements as follow one another, and the rest of the input.
pub open spec fn spec_statements(s: Seq<char>) -> Result<(Seq<StatementModel>, Seq<char>), ParseFault>
    decreases s.len(),
{
    match spec_statement(s) {
        Err(fault) => Err(fault),
        Ok(Some((rest, statement))) => if rest.len() < s.len() {
            match spec_statements(rest) {
                Err(fault) => Err(fault),
                Ok((more, end)) => Ok((seq![statement] + more, end)),
            }
        } else {
            Ok((Seq::empty(), s))
        },
        Ok(None) => Ok((Seq::empty(), s)),
    }
}

/// A program: statements up to the end of the input.
pub open spec fn spec_program(s: Seq<char>) -> Result<Seq<StatementModel>, ParseFault> {
    match spec_statements(s) {
        Err(fault) => Err(fault),
        Ok((body, left)) => if left.len() > 0 {
            Err(ParseFault::UnconsumedInput { span: Span::Program, remainder: left })
        } else {
            Ok(body)
        },
    }
}

/// The end of a statement is not empty.
proof fn lemma_terminator_consumes(s: Seq<char>)
    ensures
        spec_terminator(s) matches Some(rest) ==> rest.len() < s.len(),
{
    let t = skip_ws(s);
    lemma_skip_run_len(s, CharClass::MultiSpace);
    if starts_with(t, ';') {
        lemma_skip_run_len(t.skip(1), CharClass::MultiSpace);
    }
}

/// A name is not empty.
proof fn lemma_name_consumes(s: Seq<char>)
    ensures
        spec_name(s) matches Some((rest, _)) ==> rest.len() < s.len(),
{
    if s.len() > 0 {
        lemma_run_len_bound(s.skip(1), CharClass::IdentifierPart);
    }
}

/// An index by a constant name is not empty.
proof fn lemma_member_consumes(s: Seq<char>)
    ensures
        spec_member(s) matches Some((rest, _)) ==> rest.len() < s.len(),
{
    lemma_name_consumes(s);
    match spec_name(s) {
        Some((a, _)) => {
            if starts_with(a, '[') && starts_with(a.skip(1), '"') {
                lemma_name_consumes(a.skip(1).skip(1));
            }
        },
        None => {},
    }
}

/// The value of a property that matches leaves less than the text.
proof fn lemma_property_value_consumes(s: Seq<char>)
    ensures
        spec_property_value(s) matches Ok(Some((rest, _))) ==> rest.len() < s.len(),
{
    if starts_with(s, ':') {
        let t = skip_ws(s.skip(1));
        lemma_skip_run_len(s.skip(1), CharClass::MultiSpace);
        reveal_strlit("true");
        reveal_strlit("false");
        lemma_run_len_bound(t, CharClass::Digit);
        lemma_skip_run_len(t, CharClass::MultiSpace);
        lemma_name_consumes(skip_ws(t));
        match spec_name(skip_ws(t)) {
            Some((a, _)) => {
                lemma_terminator_consumes(a);
            },
            None => {},
        }
        lemma_expression_consumes(t);
        lemma_object_consumes(t);
        let value: Outcome<StatementModel> = if spec_boolean(t) is Some {
            Ok(spec_boolean(t))
        } else if spec_numeric(t) is Some {
            Ok(spec_numeric(t))
        } else if spec_identifier(t) is Some {
            Ok(spec_identifier(t))
        } else if spec_arithmetic(t) is Some {
            Ok(spec_arithmetic(t))
        } else if t.len() < s.len() {
            spec_object(t)
        } else {
            Ok(None)
        };
        match value {
            Ok(Some((inner, _))) => {
                lemma_skip_run_len(inner, CharClass::MultiSpace);
            },
            _ => {},
        }
    }
}

/// A property that matches leaves less than the text: where
/// `spec_property_list` asks that a property has consumed input, it has.
pub proof fn lemma_property_consumes(s: Seq<char>)
    ensures
        spec_property(s) matches Ok(Some((rest, _))) ==> rest.len() < s.len(),
{
    lemma_skip_run_len(s, CharClass::MultiSpace);
    lemma_name_consumes(skip_ws(s));
    match spec_name(skip_ws(s)) {
        Some((a, _)) => {
            let b = skip_ws(a);
            lemma_skip_run_len(a, CharClass::MultiSpace);
            lemma_property_value_consumes(b);
            match spec_property_value(b) {
                Err(_) => {},
                Ok(found) => {
                    let c = match found {
                        Some((c, _)) => c,
                        None => b,
                    };
                    let d = skip_ws(c);
                    lemma_skip_run_len(c, CharClass::MultiSpace);
                    let e = if starts_with(d, ',') {
                        d.skip(1)
                    } else {
                        d
                    };
                    lemma_skip_run_len(e, CharClass::MultiSpace);
                },
            }
        },
        None => {},
    }
}

/// An object literal that matches leaves less than the text.
proof fn lemma_object_consumes(s: Seq<char>)
    ensures
        spec_object(s) matches Ok(Some((rest, _))) ==> rest.len() < s.len(),
{
    if starts_with(s, '{') {
        lemma_scan_close(s.skip(1), '{', '}', 0, 0);
    }
}

/// A binding that matches leaves less than the text.
proof fn lemma_binding_consumes(s: Seq<char>, name: Seq<char>, constant: bool)
    ensures
        spec_binding(s, name, constant) matches Ok(Some((rest, _))) ==> rest.len() < s.len(),
{
    let t = skip_ws(s);
    lemma_skip_run_len(s, CharClass::MultiSpace);
    if starts_with(t, '=') {
        let u = skip_ws(t.skip(1));
        lemma_skip_run_len(t.skip(1), CharClass::MultiSpace);
        lemma_find(u, ";"@);
        match find(u, ";"@) {
            Some(i) => {
                lemma_terminator_consumes(u.skip(i));
            },
            None => {},
        }
    }
}

/// A call that matches leaves less than the text.
proof fn lemma_call_consumes(s: Seq<char>)
    ensures
        spec_call(s) matches Some((rest, _)) ==> rest.len() < s.len(),
{
    lemma_skip_run_len(s, CharClass::MultiSpace);
    match after(skip_ws(s), "print"@) {
        Some(a) => {
            let b = skip_ws(a);
            lemma_skip_run_len(a, CharClass::MultiSpace);
            if starts_with(b, '(') {
                let c = skip_ws(b.skip(1));
                lemma_skip_run_len(b.skip(1), CharClass::MultiSpace);
                lemma_find(c, ")"@);
                match find(c, ")"@) {
                    Some(i) => {
                        if starts_with(c.skip(i), ')') {
                            lemma_terminator_consumes(c.skip(i).skip(1));
                        }
                    },
                    None => {},
                }
            }
        },
        None => {},
    }
}

/// A statement that matches leaves less than the text. So the parser never
/// stops for want of progress: where `spec_statements` asks that a statement
/// has consumed input, it has.
pub proof fn lemma_statement_consumes(s: Seq<char>)
    ensures
        spec_statement(s) matches Ok(Some((rest, _))) ==> rest.len() < s.len(),
{
    let t = skip_ws(s);
    lemma_skip_run_len(s, CharClass::MultiSpace);
    lemma_skip_run_len(s, CharClass::Space);
    reveal_strlit("//");
    reveal_strlit("true");
    reveal_strlit("false");
    match after(skip_run(s, CharClass::Space), "//"@) {
        Some(line) => {
            lemma_run_len_bound(line, CharClass::NotLineBreak);
        },
        None => {},
    }
    match spec_boolean(t) {
        Some((rest, _)) => {
            lemma_terminator_consumes(rest);
        },
        None => {},
    }
    lemma_run_len_bound(t, CharClass::Digit);
    match spec_numeric(t) {
        Some((rest, _)) => {
            lemma_terminator_consumes(rest);
        },
        None => {},
    }
    lemma_name_consumes(t);
    match spec_name(t) {
        Some((rest, name)) => {
            lemma_terminator_consumes(rest);
            lemma_binding_consumes(rest, name, false);
        },
        None => {},
    }
    match spec_keyword(t) {
        Some((a, constant)) => {
            lemma_skip_run_len(a, CharClass::MultiSpace);
            lemma_name_consumes(skip_ws(a));
            match spec_name(skip_ws(a)) {
                Some((b, name)) => {
                    lemma_binding_consumes(b, name, constant);
                },
                None => {},
            }
        },
        None => {},
    }
    lemma_call_consumes(s);
    lemma_member_consumes(t);
    match spec_member(t) {
        Some((rest, _)) => {
            lemma_terminator_consumes(rest);
        },
        None => {},
    }
    lemma_expression_consumes(s);
}

/// That `r` is what `expected` says, and that a match has consumed input.
pub open spec fn found_as<T: View>(input: Seq<char>, r: Option<(&str, T)>, expected: Found<T::V>) -> bool {
    match r {
        Some((rest, v)) => expected == Some((rest@, v@)) && rest@.len() < input.len(),
        None => expected is None,
    }
}

/// That `r` is what `expected` says, and that a match has consumed input.
pub open spec fn yields<T: View>(
    input: Seq<char>,
    r: Result<Option<(&str, T)>, ParseError>,
    expected: Outcome<T::V>,
) -> bool {
    match r {
        Ok(found) => expected matches Ok(e) && found_as(input, found, e),
        Err(e) => expected == Err::<Option<(Seq<char>, T::V)>, ParseFault>(e@),
    }
}

/// The end of a statement at the start of `input`: what follows it.
fn terminator<'a>(input: &'a str) -> (r: Option<&'a str>)
    ensures
        (match r {
            Some(rest) => spec_terminator(input@) == Some(rest@) && rest@.len() < input@.len(),
            None => spec_terminator(input@) is None,
        }),
{
    let t = skip_multispace(input);
    proof {
        reveal_strlit(";");
    }
    match symbol(t, ";", Ghost(';')) {
        Some(rest) => Some(skip_multispace(rest)),
        None => None,
    }
}

/// `found`, where the end of a statement follows it.
fn terminate<'a>(Ghost(input): Ghost<Seq<char>>, found: Option<(&'a str, Statement<'a>)>) -> (r: Option<
    (&'a str, Statement<'a>),
>)
    requires
        found matches Some((rest, _)) ==> rest@.len() <= input.len(),
    ensures
        found_as(
            input,
            r,
            terminated(
                (match found {
                    Some((rest, v)) => Some((rest@, v@)),
                    None => None,
                }),
            ),
        ),
{
    match found {
        Some((rest, v)) => match terminator(rest) {
            Some(end) => Some((end, v)),
            None => None,
        },
        None => None,
    }
}

/// A comment at the start of `input`.
pub fn parse_comment<'a>(input: &'a str) -> (r: Option<(&'a str, Statement<'a>)>)
    ensures
        found_as(input@, r, spec_comment(input@)),
{
    let t = skip_space(input);
    let after_slashes = match tag(t, "//") {
        Some((rest, _)) => rest,
        None => {
            return None;
        },
    };
    proof {
        reveal_strlit("//");
    }
    let (rest, text) = line(after_slashes);
    Some((rest, Statement::Comment(trim(text).to_owned())))
}

/// `true` or `false` at the start of `input`.
pub fn parse_boolean<'a>(input: &'a str) -> (r: Option<(&'a str, Statement<'a>)>)
    ensures
        found_as(input@, r, spec_boolean(input@)),
{
    proof {
        reveal_strlit("true");
        reveal_strlit("false");
    }
    match tag(input, "true") {
        Some((rest, _)) => Some((rest, Statement::BooleanLiteral(true))),
        None => match tag(input, "false") {
            Some((rest, _)) => Some((rest, Statement::BooleanLiteral(false))),
            None => None,
        },
    }
}

/// A boolean ended by `;`.
pub fn parse_boolean_literal<'a>(input: &'a str) -> (r: Option<(&'a str, Statement<'a>)>)
    ensures
        found_as(input@, r, terminated(spec_boolean(skip_ws(input@)))),
{
    terminate(Ghost(input@), parse_boolean(skip_multispace(input)))
}

/// A run of digits at the start of `input`.
pub fn parse_numeric<'a>(input: &'a str) -> (r: Option<(&'a str, Statement<'a>)>)
    ensures
        found_as(input@, r, spec_numeric(input@)),
{
    match digit1(input) {
        Some((rest, digits)) => Some(
            (rest, Statement::NumericLiteral(NumericLiteral { digits: digits.to_owned() })),
        ),
        None => None,
    }
}

/// A number ended by `;`.
pub fn parse_numeric_literal<'a>(input: &'a str) -> (r: Option<(&'a str, Statement<'a>)>)
    ensures
        found_as(input@, r, terminated(spec_numeric(skip_ws(input@)))),
{
    terminate(Ghost(input@), parse_numeric(skip_multispace(input)))
}

/// A name at the start of `input`: the rest of the input, and the name.
fn name<'a>(input: &'a str) -> (r: Option<(&'a str, &'a str)>)
    ensures
        (match r {
            Some((rest, found)) => spec_name(input@) == Some((rest@, found@)) && rest@.len() < input@.len(),
            None => spec_name(input@) is None,
        }),
{
    get_identifier(input)
}

/// A name ended by `;`.
pub fn parse_identifier<'a>(input: &'a str) -> (r: Option<(&'a str, Statement<'a>)>)
    ensures
        found_as(input@, r, spec_identifier(input@)),
{
    match name(skip_multispace(input)) {
        Some((rest, found)) => terminate(
            Ghost(input@),
            Some((rest, Statement::Identifier(Identifier { id: found.to_owned() }))),
        ),
        None => None,
    }
}

/// An index by a constant name at the start of `input`.
pub fn parse_call_member_expression<'a>(input: &'a str) -> (r: Option<(&'a str, Statement<'a>)>)
    ensures
        found_as(input@, r, spec_member(input@)),
{
    proof {
        reveal_strlit("[");
        reveal_strlit("]");
        reveal_strlit("\"");
    }
    let (a, object) = match name(input) {
        Some(found) => found,
        None => {
            return None;
        },
    };
    let a1 = match symbol(a, "[", Ghost('[')) {
        Some(rest) => rest,
        None => {
            return None;
        },
    };
    let a2 = match symbol(a1, "\"", Ghost('"')) {
        Some(rest) => rest,
        None => {
            return None;
        },
    };
    let (b, property) = match name(a2) {
        Some(found) => found,
        None => {
            return None;
        },
    };
    let b1 = match symbol(b, "\"", Ghost('"')) {
        Some(rest) => rest,
        None => {
            return None;
        },
    };
    match symbol(b1, "]", Ghost(']')) {
        Some(rest) => Some((rest, Statement::MemberExpression(MemberExpression { object, property }))),
        None => None,
    }
}

/// An index by a constant name, ended by `;`.
pub fn parse_call_member_expression_literal<'a>(input: &'a str) -> (r: Option<(&'a str, Statement<'a>)>)
    ensures
        found_as(input@, r, terminated(spec_member(skip_ws(input@)))),
{
    terminate(Ghost(input@), parse_call_member_expression(skip_multispace(input)))
}

/// An arithmetic expression at the start of `input`, as a statement.
pub fn parse_arithmetic_expression_to_expr<'a>(input: &'a str) -> (r: Option<(&'a str, Statement<'a>)>)
    ensures
        found_as(input@, r, spec_arithmetic(input@)),
{
    match parse_arithmetic_expression(input) {
        Some((rest, parsed)) => Some((rest, Statement::ArithmeticExpression(parsed))),
        None => None,
    }
}

/// The models of properties.
pub open spec fn properties_model(properties: Seq<Property>) -> Seq<PropertyModel> {
    Seq::new(properties.len(), |i: int| properties[i]@)
}

/// The models of statements.
pub open spec fn statements_model(statements: Seq<Statement>) -> Seq<StatementModel> {
    Seq::new(statements.len(), |i: int| statements[i]@)
}

/// `more` after the `first` items that were found before it.
pub open spec fn prepend<T>(first: Seq<T>, more: Result<(Seq<T>, Seq<char>), ParseFault>) -> Result<
    (Seq<T>, Seq<char>),
    ParseFault,
> {
    match more {
        Ok((items, end)) => Ok((first + items, end)),
        Err(fault) => Err(fault),
    }
}

/// The value of a property at the start of `input`.
pub fn get_property_assignment<'a>(input: &'a str) -> (r: Result<Option<(&'a str, Statement<'a>)>, ParseError>)
    ensures
        yields(input@, r, spec_property_value(input@)),
    decreases input@.len(), 0nat,
{
    proof {
        reveal_strlit(":");
    }
    let t = match symbol(input, ":", Ghost(':')) {
        Some(rest) => skip_multispace(rest),
        None => {
            return Ok(None);
        },
    };
    let found = match parse_boolean(t) {
        Some(found) => Some(found),
        None => match parse_numeric(t) {
            Some(found) => Some(found),
            None => match parse_identifier(t) {
                Some(found) => Some(found),
                None => match parse_arithmetic_expression_to_expr(t) {
                    Some(found) => Some(found),
                    None => match parse_object(t) {
                        Ok(found) => found,
                        Err(e) => {
                            return Err(e);
                        },
                    },
                },
            },
        },
    };
    match found {
        Some((rest, v)) => Ok(Some((skip_multispace(rest), v))),
        None => Ok(None),
    }
}

/// A property at the start of `input`.
pub fn parse_object_property<'a>(input: &'a str) -> (r: Result<Option<(&'a str, Property<'a>)>, ParseError>)
    ensures
        yields(input@, r, spec_property(input@)),
    decreases input@.len(), 1nat,
{
    proof {
        reveal_strlit(",");
    }
    let (a, key) = match name(skip_multispace(input)) {
        Some(found) => found,
        None => {
            return Ok(None);
        },
    };
    let b = skip_multispace(a);
    let (c, value) = match get_property_assignment(b) {
        Err(e) => {
            return Err(e);
        },
        Ok(Some((c, v))) => (c, Some(Box::new(v))),
        Ok(None) => (b, None),
    };
    let d = skip_multispace(c);
    let e = match symbol(d, ",", Ghost(',')) {
        Some(rest) => rest,
        None => d,
    };
    Ok(Some((skip_multispace(e), Property { key, value })))
}

/// The properties at the start of `input`, with white space around them,
/// and the rest of the input.
pub fn parse_object_properties<'a>(input: &'a str) -> (r: Result<(&'a str, Vec<Property<'a>>), ParseError>)
    ensures
        (match r {
            Ok((rest, properties)) => spec_properties(input@) == Ok::<_, ParseFault>(
                (properties_model(properties@), rest@),
            ) && rest@.len() <= input@.len(),
            Err(e) => spec_properties(input@) == Err::<(Seq<PropertyModel>, Seq<char>), _>(e@),
        }),
    decreases input@.len(), 3nat,
{
    let start = skip_multispace(input);
    let mut rest = start;
    let mut properties: Vec<Property<'a>> = Vec::new();
    proof {
        assert(properties_model(properties@) =~= Seq::empty());
        assert(prepend(Seq::empty(), spec_property_list(start@)) == spec_property_list(start@)) by {
            match spec_property_list(start@) {
                Ok((items, end)) => {
                    assert(Seq::<PropertyModel>::empty() + items =~= items);
                },
                Err(_) => {},
            }
        }
    }
    loop
        invariant
            rest@.len() <= start@.len() <= input@.len(),
            start@ == skip_ws(input@),
            spec_property_list(start@) == prepend(properties_model(properties@), spec_property_list(rest@)),
        ensures
            rest@.len() <= start@.len(),
            spec_property_list(start@) == Ok::<_, ParseFault>((properties_model(properties@), rest@)),
        decreases rest@.len(),
    {
        match parse_object_property(rest) {
            Err(e) => {
                proof {
                    assert(spec_property_list(rest@) == Err::<(Seq<PropertyModel>, Seq<char>), _>(e@));
                }
                return Err(e);
            },
            Ok(Some((next, property))) => {
                proof {
                    let before = properties_model(properties@);
                    assert(properties_model(properties@.push(property)) =~= before.push(property@));
                    match spec_property_list(next@) {
                        Ok((items, end)) => {
                            assert(before + (seq![property@] + items) =~= before.push(property@) + items);
                        },
                        Err(_) => {},
                    }
                }
                properties.push(property);
                rest = next;
            },
            Ok(None) => {
                proof {
                    assert(properties_model(properties@) + Seq::empty() =~= properties_model(properties@));
                }
                break ;
            },
        }
    }
    Ok((skip_multispace(rest), properties))
}

/// An object literal at the start of `input`.
pub fn parse_object<'a>(input: &'a str) -> (r: Result<Option<(&'a str, Statement<'a>)>, ParseError>)
    ensures
        yields(input@, r, spec_object(input@)),
    decreases input@.len(), 4nat,
{
    proof {
        reveal_strlit("{");
        reveal_strlit("}");
    }
    let inner = match symbol(input, "{", Ghost('{')) {
        Some(rest) => rest,
        None => {
            return Ok(None);
        },
    };
    proof {
        lemma_scan_close(inner@, '{', '}', 0, 0);
    }
    let (rest, body) = match take_until_unbalanced('{', '}', inner) {
        Ok(cut) => cut,
        Err(e) => {
            return Err(e);
        },
    };
    let behind = match symbol(rest, "}", Ghost('}')) {
        Some(behind) => behind,
        None => {
            return Ok(None);
        },
    };
    let (left, properties) = match parse_object_properties(body) {
        Ok(found) => found,
        Err(e) => {
            return Err(e);
        },
    };
    if !left.is_empty() {
        return Err(ParseError::UnconsumedInput { span: Span::ObjectBody, remainder: left.to_owned() });
    }
    let object = Object { properties };
    proof {
        assert(object.model() =~= properties_model(object.properties@));
    }
    Ok(Some((behind, Statement::ObjectLiteral(object))))
}

/// The right-hand side that `span` writes.
pub fn parse_right_hand_side<'a>(span: &'a str) -> (r: Result<Option<Statement<'a>>, ParseError>)
    ensures
        (match r {
            Ok(Some(v)) => spec_right_hand_side(span@) == Ok::<_, ParseFault>(Some(v@)),
            Ok(None) => spec_right_hand_side(span@) == Ok::<Option<StatementModel>, ParseFault>(None),
            Err(e) => spec_right_hand_side(span@) == Err::<Option<StatementModel>, _>(e@),
        }),
{
    let found = match parse_boolean(span) {
        Some(found) => Some(found),
        None => match parse_object(span) {
            Err(e) => {
                return Err(e);
            },
            Ok(Some(found)) => Some(found),
            Ok(None) => match parse_arithmetic_expression_to_expr(span) {
                Some(found) => Some(found),
                None => parse_call_member_expression(span),
            },
        },
    };
    match found {
        Some((left, v)) => {
            if !left.is_empty() {
                Err(ParseError::UnconsumedInput { span: Span::RightHandSide, remainder: left.to_owned() })
            } else {
                Ok(Some(v))
            }
        },
        None => Ok(None),
    }
}

/// What follows the name of a binding: the rest of the input, and the text
/// of the right-hand side.
fn binding_span<'a>(input: &'a str) -> (r: Option<(&'a str, &'a str)>)
    ensures
        (match r {
            Some((rest, span)) => spec_binding_span(input@) == Some((rest@, span@)) && rest@.len()
                < input@.len(),
            None => spec_binding_span(input@) is None,
        }),
{
    proof {
        reveal_strlit("=");
    }
    let t = skip_multispace(input);
    let u = match symbol(t, "=", Ghost('=')) {
        Some(rest) => skip_multispace(rest),
        None => {
            return None;
        },
    };
    match take_until(u, ";") {
        Some((behind, span)) => match terminator(behind) {
            Some(rest) => Some((rest, span)),
            None => None,
        },
        None => None,
    }
}

/// The binding of `id` to what follows it in `input`.
fn binding<'a>(input: &'a str, id: &'a str, constant: bool) -> (r: Result<Option<(&'a str, Assign<'a>)>, ParseError>)
    ensures
        yields(input@, r, spec_binding(input@, id@, constant)),
{
    match binding_span(input) {
        Some((rest, span)) => match parse_right_hand_side(span) {
            Err(e) => Err(e),
            Ok(None) => Ok(None),
            Ok(Some(v)) => Ok(Some((rest, Assign { id, constant, expression: Box::new(v) }))),
        },
        None => Ok(None),
    }
}

/// A declaration at the start of `input`.
pub fn parse_declaration<'a>(input: &'a str) -> (r: Result<Option<(&'a str, Statement<'a>)>, ParseError>)
    ensures
        yields(input@, r, spec_declaration(input@)),
{
    let t = skip_multispace(input);
    let (a, constant) = match tag(t, "let") {
        Some((rest, _)) => (rest, false),
        None => match tag(t, "const") {
            Some((rest, _)) => (rest, true),
            None => {
                return Ok(None);
            },
        },
    };
    let (b, id) = match name(skip_multispace(a)) {
        Some(found) => found,
        None => {
            return Ok(None);
        },
    };
    match binding(b, id, constant) {
        Err(e) => Err(e),
        Ok(None) => Ok(None),
        Ok(Some((rest, assign))) => Ok(Some((rest, Statement::Declaration(assign)))),
    }
}

/// An assignment at the start of `input`.
pub fn parse_assign<'a>(input: &'a str) -> (r: Result<Option<(&'a str, Statement<'a>)>, ParseError>)
    ensures
        yields(input@, r, spec_assign(input@)),
{
    let (b, id) = match name(skip_multispace(input)) {
        Some(found) => found,
        None => {
            return Ok(None);
        },
    };
    match binding(b, id, false) {
        Err(e) => Err(e),
        Ok(None) => Ok(None),
        Ok(Some((rest, assign))) => Ok(Some((rest, Statement::Assign(assign)))),
    }
}

/// The arguments that `span` writes.
fn arguments<'a>(span: &'a str) -> (args: Vec<&'a str>)
    ensures
        texts(args@) == spec_arguments(span@),
{
    let whole = trim(span);
    let mut rest = whole;
    let mut args: Vec<&'a str> = Vec::new();
    let ghost mut pieces: Seq<Seq<char>> = Seq::empty();
    proof {
        reveal_strlit(",");
        assert(pieces + split_commas(rest@) =~= split_commas(whole@));
        assert(texts(args@) =~= trimmed_each(pieces));
    }
    loop
        invariant_except_break
            ","@ =~= seq![','],
            whole@ == trimmed(span@),
            split_commas(whole@) == pieces + split_commas(rest@),
            texts(args@) == trimmed_each(pieces),
            args@.len() == pieces.len(),
        ensures
            texts(args@) == spec_arguments(span@),
        decreases rest@.len(),
    {
        proof {
            lemma_find(rest@, ","@);
        }
        match take_until(rest, ",") {
            Some((behind, piece)) => {
                proof {
                    lemma_prefix_of_one(","@, ',', behind@);
                }
                match symbol(behind, ",", Ghost(',')) {
                    Some(next) => {
                        let item = trim(piece);
                        proof {
                            let i = find(rest@, ","@).unwrap();
                            assert(rest@.skip(i).skip(1) =~= rest@.skip(i + 1));
                            let more = split_commas(next@);
                            assert(pieces + (seq![piece@] + more) =~= pieces.push(piece@) + more);
                            assert forall|j: int| 0 <= j < pieces.len() implies texts(args@.push(item))[j]
                                == trimmed_each(pieces.push(piece@))[j] by {
                                assert(texts(args@)[j] == trimmed_each(pieces)[j]);
                            }
                            assert(texts(args@.push(item)) =~= trimmed_each(pieces.push(piece@)));
                            pieces = pieces.push(piece@);
                        }
                        args.push(item);
                        rest = next;
                    },
                    None => {
                        break ;
                    },
                }
            },
            None => {
                let item = trim(rest);
                proof {
                    assert(pieces + seq![rest@] =~= pieces.push(rest@));
                    assert forall|j: int| 0 <= j < pieces.len() implies texts(args@.push(item))[j]
                        == trimmed_each(pieces.push(rest@))[j] by {
                        assert(texts(args@)[j] == trimmed_each(pieces)[j]);
                    }
                    assert(texts(args@.push(item)) =~= trimmed_each(pieces.push(rest@)));
                }
                args.push(item);
                break ;
            },
        }
    }
    args
}

/// A call of `print` at the start of `input`.
pub fn parse_call_expression<'a>(input: &'a str) -> (r: Option<(&'a str, Statement<'a>)>)
    ensures
        found_as(input@, r, spec_call(input@)),
{
    proof {
        reveal_strlit("(");
        reveal_strlit(")");
        reveal_strlit("print");
    }
    let (a, func) = match tag(skip_multispace(input), "print") {
        Some(cut) => cut,
        None => {
            return None;
        },
    };
    let b = skip_multispace(a);
    let c = match symbol(b, "(", Ghost('(')) {
        Some(rest) => skip_multispace(rest),
        None => {
            return None;
        },
    };
    let (behind, span) = match take_until(c, ")") {
        Some(cut) => cut,
        None => {
            return None;
        },
    };
    let end = match symbol(behind, ")", Ghost(')')) {
        Some(rest) => rest,
        None => {
            return None;
        },
    };
    let call = CallExpression { func, args: arguments(span) };
    terminate(Ghost(input@), Some((end, Statement::CallExpression(call))))
}

/// A statement at the start of `input`.
pub fn parse_statement<'a>(input: &'a str) -> (r: Result<Option<(&'a str, Statement<'a>)>, ParseError>)
    ensures
        yields(input@, r, spec_statement(input@)),
{
    match parse_comment(input) {
        Some(found) => {
            return Ok(Some(found));
        },
        None => {},
    }
    match parse_boolean_literal(input) {
        Some(found) => {
            return Ok(Some(found));
        },
        None => {},
    }
    match parse_numeric_literal(input) {
        Some(found) => {
            return Ok(Some(found));
        },
        None => {},
    }
    match parse_identifier(input) {
        Some(found) => {
            return Ok(Some(found));
        },
        None => {},
    }
    match parse_declaration(input) {
        Err(e) => {
            return Err(e);
        },
        Ok(Some(found)) => {
            return Ok(Some(found));
        },
        Ok(None) => {},
    }
    match parse_assign(input) {
        Err(e) => {
            return Err(e);
        },
        Ok(Some(found)) => {
            return Ok(Some(found));
        },
        Ok(None) => {},
    }
    match parse_call_expression(input) {
        Some(found) => {
            return Ok(Some(found));
        },
        None => {},
    }
    match parse_call_member_expression_literal(input) {
        Some(found) => {
            return Ok(Some(found));
        },
        None => {},
    }
    Ok(parse_arithmetic_expression_to_expr(input))
}

/// The statements at the start of `input`, and the rest of the input.
pub fn parse_program<'a>(input: &'a str) -> (r: Result<(&'a str, Vec<Statement<'a>>), ParseError>)
    ensures
        (match r {
            Ok((rest, body)) => spec_statements(input@) == Ok::<_, ParseFault>((statements_model(body@), rest@)),
            Err(e) => spec_statements(input@) == Err::<(Seq<StatementModel>, Seq<char>), _>(e@),
        }),
{
    let mut rest = input;
    let mut body: Vec<Statement<'a>> = Vec::new();
    proof {
        assert(statements_model(body@) =~= Seq::empty());
        match spec_statements(input@) {
            Ok((items, end)) => {
                assert(Seq::<StatementModel>::empty() + items =~= items);
            },
            Err(_) => {},
        }
    }
    loop
        invariant
            spec_statements(input@) == prepend(statements_model(body@), spec_statements(rest@)),
        ensures
            spec_statements(input@) == Ok::<_, ParseFault>((statements_model(body@), rest@)),
        decreases rest@.len(),
    {
        match parse_statement(rest) {
            Err(e) => {
                proof {
                    assert(spec_statements(rest@) == Err::<(Seq<StatementModel>, Seq<char>), _>(e@));
                }
                return Err(e);
            },
            Ok(Some((next, statement))) => {
                proof {
                    let before = statements_model(body@);
                    assert(statements_model(body@.push(statement)) =~= before.push(statement@));
                    match spec_statements(next@) {
                        Ok((items, end)) => {
                            assert(before + (seq![statement@] + items) =~= before.push(statement@) + items);
                        },
                        Err(_) => {},
                    }
                }
                body.push(statement);
                rest = next;
            },
            Ok(None) => {
                proof {
                    assert(statements_model(body@) + Seq::empty() =~= statements_model(body@));
                }
                break ;
            },
        }
    }
    Ok((rest, body))
}

/// A program: its statements in the order of the source.
#[derive(PartialEq, Eq, Debug)]
pub struct Program<'a> {
    pub body: Vec<Statement<'a>>,
}

impl<'a> View for Program<'a> {
    type V = Seq<StatementModel>;

    open spec fn view(&self) -> Seq<StatementModel> {
        statements_model(self.body@)
    }
}

/// The program that `input` writes. All of `input` has to be consumed.
pub fn parse_ast<'a>(input: &'a str) -> (r: Result<Program<'a>, ParseError>)
    ensures
        (match r {
            Ok(program) => spec_program(input@) == Ok::<_, ParseFault>(program@),
            Err(e) => spec_program(input@) == Err::<Seq<StatementModel>, _>(e@),
        }),
{
    let (left, body) = match parse_program(input) {
        Ok(found) => found,
        Err(e) => {
            return Err(e);
        },
    };
    if !left.is_empty() {
        return Err(ParseError::UnconsumedInput { span: Span::Program, remainder: left.to_owned() });
    }
    Ok(Program { body })
}

} // verus!
