//! Arithmetic expressions: `+` and `-` over terms, `*`, `/` and `%` over
//! factors, all folding to the left; a factor is a number, a name or an
//! expression in brackets.

use vstd::prelude::*;
use crate::ast::{ArithmeticExpression, ExpressionModel, Identifier, NumericLiteral, Oper};
use crate::chars::{
    digit1, lemma_run_len_bound, lemma_skip_run_len, run_len, skip_multispace, skip_run,
    skip_semicolons, starts_with, symbol, CharClass,
};
use crate::generic::{get_identifier, identifier_len};

verus! {

/// What a parser of expressions gives: the rest of the input and the tree,
/// or nothing where the input starts with no expression.
pub type Parsed = Option<(Seq<char>, ExpressionModel)>;

/// `s` without what may follow a factor: white space, then semicolons, then
/// white space again.
pub open spec fn skip_trailing(s: Seq<char>) -> Seq<char> {
    skip_run(skip_run(skip_run(s, CharClass::MultiSpace), CharClass::Semicolon), CharClass::MultiSpace)
}

/// An expression in brackets, with white space before it and the trailing
/// of a factor behind it.
pub open spec fn spec_parens(s: Seq<char>) -> Parsed
    decreases s.len(), 0nat,
{
    let t = skip_run(s, CharClass::MultiSpace);
    if starts_with(t, '(') && t.len() <= s.len() {
        match spec_expression(t.skip(1)) {
            Some((rest, e)) => if starts_with(rest, ')') {
                Some((skip_trailing(rest.skip(1)), ExpressionModel::Paren(Box::new(e))))
            } else {
                None
            },
            None => None,
        }
    } else {
        None
    }
}

/// A factor: a number, else a name, else an expression in brackets.
pub open spec fn spec_factor(s: Seq<char>) -> Parsed
    decreases s.len(), 1nat,
{
    let t = skip_run(s, CharClass::MultiSpace);
    let digits = run_len(t, CharClass::Digit) as int;
    let letters = identifier_len(t) as int;
    if digits > 0 {
        Some((skip_trailing(t.skip(digits)), ExpressionModel::Value(t.take(digits))))
    } else if letters > 0 {
        Some((skip_trailing(t.skip(letters)), ExpressionModel::Identifier(t.take(letters))))
    } else {
        spec_parens(s)
    }
}

/// The operator that the character `c` writes at the level of a term (`*`,
/// `/`, `%`) or, where `additive`, of an expression (`+`, `-`).
pub open spec fn operator_of(c: char, additive: bool) -> Option<Oper> {
    if additive {
        if c == '+' {
            Some(Oper::Add)
        } else if c == '-' {
            Some(Oper::Sub)
        } else {
            None
        }
    } else {
        if c == '*' {
            Some(Oper::Mul)
        } else if c == '/' {
            Some(Oper::Div)
        } else if c == '%' {
            Some(Oper::Mod)
        } else {
            None
        }
    }
}

/// The operands that follow the first factor of a term, each with its
/// operator, and the rest of the input. An operator with no factor behind it
/// is not consumed.
pub open spec fn spec_term_operands(s: Seq<char>) -> (Seq<(Oper, ExpressionModel)>, Seq<char>)
    decreases s.len(), 2nat,
{
    if s.len() > 0 && operator_of(s[0], false) is Some {
        match spec_factor(s.skip(1)) {
            Some((rest, e)) => if rest.len() < s.len() {
                let (more, end) = spec_term_operands(rest);
                (seq![(operator_of(s[0], false).unwrap(), e)] + more, end)
            } else {
                (Seq::empty(), s)
            },
            None => (Seq::empty(), s),
        }
    } else {
        (Seq::empty(), s)
    }
}

/// The tree of `initial` and the operands in `operands`, folded from the
/// left.
pub open spec fn fold_operands(initial: ExpressionModel, operands: Seq<(Oper, ExpressionModel)>) -> ExpressionModel
    decreases operands.len(),
{
    if operands.len() == 0 {
        initial
    } else {
        ExpressionModel::Binary(
            operands.last().0,
            Box::new(fold_operands(initial, operands.drop_last())),
            Box::new(operands.last().1),
        )
    }
}

/// A term: a factor, then factors after `*`, `/` or `%`.
pub open spec fn spec_term(s: Seq<char>) -> Parsed
    decreases s.len(), 3nat,
{
    match spec_factor(s) {
        Some((rest, first)) => if rest.len() <= s.len() {
            let (operands, end) = spec_term_operands(rest);
            Some((end, fold_operands(first, operands)))
        } else {
            None
        },
        None => None,
    }
}

/// The operands that follow the first term of an expression.
pub open spec fn spec_expression_operands(s: Seq<char>) -> (Seq<(Oper, ExpressionModel)>, Seq<char>)
    decreases s.len(), 4nat,
{
    if s.len() > 0 && operator_of(s[0], true) is Some {
        match spec_term(s.skip(1)) {
            Some((rest, e)) => if rest.len() < s.len() {
                let (more, end) = spec_expression_operands(rest);
                (seq![(operator_of(s[0], true).unwrap(), e)] + more, end)
            } else {
                (Seq::empty(), s)
            },
            None => (Seq::empty(), s),
        }
    } else {
        (Seq::empty(), s)
    }
}

/// An expression: a term, then terms after `+` or `-`.
pub open spec fn spec_expression(s: Seq<char>) -> Parsed
    decreases s.len(), 5nat,
{
    match spec_term(s) {
        Some((rest, first)) => if rest.len() <= s.len() {
            let (operands, end) = spec_expression_operands(rest);
            Some((end, fold_operands(first, operands)))
        } else {
            None
        },
        None => None,
    }
}

/// What is left behind the trailing of a factor is no longer than the text.
pub proof fn lemma_skip_trailing_len(s: Seq<char>)
    ensures
        skip_trailing(s).len() <= s.len(),
{
    let a = skip_run(s, CharClass::MultiSpace);
    let b = skip_run(a, CharClass::Semicolon);
    lemma_skip_run_len(s, CharClass::MultiSpace);
    lemma_skip_run_len(a, CharClass::Semicolon);
    lemma_skip_run_len(b, CharClass::MultiSpace);
}

/// An expression in brackets that matches leaves less than the text.
pub proof fn lemma_parens_consumes(s: Seq<char>)
    ensures
        spec_parens(s) matches Some((rest, _)) ==> rest.len() < s.len(),
    decreases s.len(), 0nat,
{
    let t = skip_run(s, CharClass::MultiSpace);
    if starts_with(t, '(') && t.len() <= s.len() {
        lemma_expression_consumes(t.skip(1));
        match spec_expression(t.skip(1)) {
            Some((rest, _)) => {
                if starts_with(rest, ')') {
                    lemma_skip_trailing_len(rest.skip(1));
                }
            },
            None => {},
        }
    }
}

/// A factor that matches leaves less than the text.
pub proof fn lemma_factor_consumes(s: Seq<char>)
    ensures
        spec_factor(s) matches Some((rest, _)) ==> rest.len() < s.len(),
    decreases s.len(), 1nat,
{
    let t = skip_run(s, CharClass::MultiSpace);
    let digits = run_len(t, CharClass::Digit) as int;
    let letters = identifier_len(t) as int;
    lemma_skip_run_len(s, CharClass::MultiSpace);
    lemma_run_len_bound(t, CharClass::Digit);
    if digits > 0 {
        lemma_skip_trailing_len(t.skip(digits));
    } else if letters > 0 {
        lemma_run_len_bound(t.skip(1), CharClass::IdentifierPart);
        lemma_skip_trailing_len(t.skip(letters));
    } else {
        lemma_parens_consumes(s);
    }
}

/// What is left behind the operands of a term is no longer than the text.
pub proof fn lemma_term_operands_consume(s: Seq<char>)
    ensures
        spec_term_operands(s).1.len() <= s.len(),
    decreases s.len(), 2nat,
{
    if s.len() > 0 && operator_of(s[0], false) is Some {
        match spec_factor(s.skip(1)) {
            Some((rest, _)) => {
                if rest.len() < s.len() {
                    lemma_term_operands_consume(rest);
                }
            },
            None => {},
        }
    }
}

/// A term that matches leaves less than the text.
pub proof fn lemma_term_consumes(s: Seq<char>)
    ensures
        spec_term(s) matches Some((rest, _)) ==> rest.len() < s.len(),
    decreases s.len(), 3nat,
{
    lemma_factor_consumes(s);
    match spec_factor(s) {
        Some((rest, _)) => {
            lemma_term_operands_consume(rest);
        },
        None => {},
    }
}

/// What is left behind the operands of an expression is no longer than the
/// text.
pub proof fn lemma_expression_operands_consume(s: Seq<char>)
    ensures
        spec_expression_operands(s).1.len() <= s.len(),
    decreases s.len(), 4nat,
{
    if s.len() > 0 && operator_of(s[0], true) is Some {
        match spec_term(s.skip(1)) {
            Some((rest, _)) => {
                if rest.len() < s.len() {
                    lemma_expression_operands_consume(rest);
                }
            },
            None => {},
        }
    }
}

/// An expression that matches leaves less than the text. So the parser
/// never stops for want of progress: where `spec_term_operands` and
/// `spec_expression_operands` ask that an operand has consumed input, it
/// has.
pub proof fn lemma_expression_consumes(s: Seq<char>)
    ensures
        spec_expression(s) matches Some((rest, _)) ==> rest.len() < s.len(),
    decreases s.len(), 5nat,
{
    lemma_term_consumes(s);
    match spec_term(s) {
        Some((rest, _)) => {
            lemma_expression_operands_consume(rest);
        },
        None => {},
    }
}

/// That `r` is what `expected` says, and that a match has consumed input.
pub open spec fn parsed_as(input: Seq<char>, r: Option<(&str, ArithmeticExpression)>, expected: Parsed) -> bool {
    match r {
        Some((rest, e)) => expected == Some((rest@, e@)) && rest@.len() < input.len(),
        None => expected is None,
    }
}

/// The models of operands.
pub open spec fn operands_model(operands: Seq<(Oper, ArithmeticExpression)>) -> Seq<(Oper, ExpressionModel)> {
    Seq::new(operands.len(), |i: int| (operands[i].0, operands[i].1@))
}

/// `input` without what may follow a factor.
fn trailing<'a>(input: &'a str) -> (rest: &'a str)
    ensures
        rest@ == skip_trailing(input@),
        rest@.len() <= input@.len(),
{
    skip_multispace(skip_semicolons(skip_multispace(input)))
}

/// An expression in brackets at the start of `input`.
fn parens<'a>(input: &'a str) -> (r: Option<(&'a str, ArithmeticExpression)>)
    ensures
        parsed_as(input@, r, spec_parens(input@)),
    decreases input@.len(), 0nat,
{
    let t = skip_multispace(input);
    proof {
        reveal_strlit("(");
        reveal_strlit(")");
    }
    let inner = match symbol(t, "(", Ghost('(')) {
        Some(inner) => inner,
        None => {
            return None;
        },
    };
    match parse_arithmetic_expression(inner) {
        Some((rest, e)) => match symbol(rest, ")", Ghost(')')) {
            Some(after) => Some((trailing(after), ArithmeticExpression::Paren(Box::new(e)))),
            None => None,
        },
        None => None,
    }
}

/// A factor at the start of `input`.
fn factor<'a>(input: &'a str) -> (r: Option<(&'a str, ArithmeticExpression)>)
    ensures
        parsed_as(input@, r, spec_factor(input@)),
    decreases input@.len(), 1nat,
{
    let t = skip_multispace(input);
    proof {
        lemma_run_len_bound(t@, CharClass::Digit);
    }
    match digit1(t) {
        Some((rest, digits)) => {
            let value = NumericLiteral { digits: digits.to_owned() };
            return Some((trailing(rest), ArithmeticExpression::Value(value)));
        },
        None => {},
    }
    match get_identifier(t) {
        Some((rest, name)) => {
            let id = Identifier { id: name.to_owned() };
            return Some((trailing(rest), ArithmeticExpression::Identifier(id)));
        },
        None => {},
    }
    parens(input)
}

/// The tree of `initial` and the operands in `remainder`, folded from the
/// left.
pub fn fold_exprs(initial: ArithmeticExpression, remainder: Vec<(Oper, ArithmeticExpression)>) -> (r:
    ArithmeticExpression)
    ensures
        r@ == fold_operands(initial@, operands_model(remainder@)),
{
    let ghost all = remainder@;
    let ghost start = initial@;
    let mut acc = initial;
    for pair in it: remainder
        invariant
            it.seq() == all,
            acc@ == fold_operands(start, operands_model(all.take(it.index() as int))),
    {
        let ghost done = it.index() as int;
        let (oper, expr) = pair;
        acc =
        match oper {
            Oper::Add => ArithmeticExpression::Add(Box::new(acc), Box::new(expr)),
            Oper::Sub => ArithmeticExpression::Sub(Box::new(acc), Box::new(expr)),
            Oper::Mul => ArithmeticExpression::Mul(Box::new(acc), Box::new(expr)),
            Oper::Div => ArithmeticExpression::Div(Box::new(acc), Box::new(expr)),
            Oper::Mod => ArithmeticExpression::Mod(Box::new(acc), Box::new(expr)),
        };
        proof {
            let next = operands_model(all.take(done + 1));
            assert(next.drop_last() =~= operands_model(all.take(done)));
            assert(next.last() == (oper, expr@));
        }
    }
    proof {
        assert(all.take(all.len() as int) =~= all);
    }
    acc
}

/// A term at the start of `input`.
fn term<'a>(input: &'a str) -> (r: Option<(&'a str, ArithmeticExpression)>)
    ensures
        parsed_as(input@, r, spec_term(input@)),
    decreases input@.len(), 3nat,
{
    let (after, initial) = match factor(input) {
        Some(found) => found,
        None => {
            return None;
        },
    };
    let mut rest = after;
    let mut remainder: Vec<(Oper, ArithmeticExpression)> = Vec::new();
    proof {
        reveal_strlit("*");
        reveal_strlit("/");
        reveal_strlit("%");
        assert(operands_model(remainder@) =~= Seq::empty());
    }
    loop
        invariant
            rest@.len() <= after@.len() < input@.len(),
            "*"@ =~= seq!['*'],
            "/"@ =~= seq!['/'],
            "%"@ =~= seq!['%'],
            spec_term_operands(after@) == (
                operands_model(remainder@) + spec_term_operands(rest@).0,
                spec_term_operands(rest@).1,
            ),
        ensures
            spec_term_operands(after@) == (operands_model(remainder@), rest@),
        decreases rest@.len(),
    {
        let (oper, behind) = match symbol(rest, "*", Ghost('*')) {
            Some(behind) => (Oper::Mul, behind),
            None => match symbol(rest, "/", Ghost('/')) {
                Some(behind) => (Oper::Div, behind),
                None => match symbol(rest, "%", Ghost('%')) {
                    Some(behind) => (Oper::Mod, behind),
                    None => {
                        proof {
                            assert(operands_model(remainder@) + Seq::empty() =~= operands_model(remainder@));
                        }
                        break ;
                    },
                },
            },
        };
        match factor(behind) {
            Some((next, expr)) => {
                proof {
                    let old_model = operands_model(remainder@);
                    let tail = spec_term_operands(next@);
                    assert(operands_model(remainder@.push((oper, expr))) =~= old_model.push((oper, expr@)));
                    assert(old_model + (seq![(oper, expr@)] + tail.0) =~= old_model.push((oper, expr@)) + tail.0);
                }
                remainder.push((oper, expr));
                rest = next;
            },
            None => {
                proof {
                    assert(operands_model(remainder@) + Seq::empty() =~= operands_model(remainder@));
                }
                break ;
            },
        }
    }
    Some((rest, fold_exprs(initial, remainder)))
}

/// An arithmetic expression at the start of `input`: the rest of the input
/// and its tree, or nothing where `input` starts with none.
pub fn parse_arithmetic_expression<'a>(input: &'a str) -> (r: Option<(&'a str, ArithmeticExpression)>)
    ensures
        parsed_as(input@, r, spec_expression(input@)),
    decreases input@.len(), 5nat,
{
    let (after, initial) = match term(input) {
        Some(found) => found,
        None => {
            return None;
        },
    };
    let mut rest = after;
    let mut remainder: Vec<(Oper, ArithmeticExpression)> = Vec::new();
    proof {
        reveal_strlit("+");
        reveal_strlit("-");
        assert(operands_model(remainder@) =~= Seq::empty());
    }
    loop
        invariant
            rest@.len() <= after@.len() < input@.len(),
            "+"@ =~= seq!['+'],
            "-"@ =~= seq!['-'],
            spec_expression_operands(after@) == (
                operands_model(remainder@) + spec_expression_operands(rest@).0,
                spec_expression_operands(rest@).1,
            ),
        ensures
            spec_expression_operands(after@) == (operands_model(remainder@), rest@),
        decreases rest@.len(),
    {
        let (oper, behind) = match symbol(rest, "+", Ghost('+')) {
            Some(behind) => (Oper::Add, behind),
            None => match symbol(rest, "-", Ghost('-')) {
                Some(behind) => (Oper::Sub, behind),
                None => {
                    proof {
                        assert(operands_model(remainder@) + Seq::empty() =~= operands_model(remainder@));
                    }
                    break ;
                },
            },
        };
        match term(behind) {
            Some((next, expr)) => {
                proof {
                    let old_model = operands_model(remainder@);
                    let tail = spec_expression_operands(next@);
                    assert(operands_model(remainder@.push((oper, expr))) =~= old_model.push((oper, expr@)));
                    assert(old_model + (seq![(oper, expr@)] + tail.0) =~= old_model.push((oper, expr@)) + tail.0);
                }
                remainder.push((oper, expr));
                rest = next;
            },
            None => {
                proof {
                    assert(operands_model(remainder@) + Seq::empty() =~= operands_model(remainder@));
                }
                break ;
            },
        }
    }
    Some((rest, fold_exprs(initial, remainder)))
}

} // verus!
