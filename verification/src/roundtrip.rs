//! The proof that the text of a parsed expression parses back to the tree
//! it was made from.

use vstd::prelude::*;
use crate::arithmetic::{
    fold_operands, operator_of, skip_trailing, spec_expression, spec_expression_operands,
    spec_factor, spec_parens, spec_term, spec_term_operands,
};
use crate::ast::{ExpressionModel, Oper};
use crate::chars::{is_digit, lemma_run_len_bound, lemma_run_len_split, run_len, skip_run, starts_with, CharClass};
use crate::display::{
    display, expression_shaped, factor_shaped, is_multiplicative, is_name, is_numeral,
    operator_char, term_shaped,
};
use crate::generic::{identifier_len, is_identifier_start};
use crate::runtime::environment::FrameModel;
use crate::runtime::{spec_evaluate_expression, Kernel};

verus! {

/// What may stand behind the text of an expression inside a larger one:
/// nothing, a closing bracket, or a space and an operator.
spec fn clean(rest: Seq<char>) -> bool {
    ||| rest.len() == 0
    ||| rest[0] == ')'
    ||| rest.len() >= 2 && rest[0] == ' ' && (operator_of(rest[1], false) is Some || operator_of(
        rest[1],
        true,
    ) is Some)
}

/// As `clean`, without `*`, `/` and `%`.
spec fn quiet(rest: Seq<char>) -> bool {
    ||| rest.len() == 0
    ||| rest[0] == ')'
    ||| rest.len() >= 2 && rest[0] == ' ' && operator_of(rest[1], true) is Some
}

/// White space only.
spec fn blank(lead: Seq<char>) -> bool {
    forall|i: int| 0 <= i < lead.len() ==> CharClass::MultiSpace.holds(#[trigger] lead[i])
}

/// A character that the text of an expression can start with.
spec fn solid(c: char) -> bool {
    is_digit(c) || is_identifier_start(c) || c == '('
}

proof fn lemma_no_run(s: Seq<char>, class: CharClass)
    requires
        s.len() == 0 || !class.holds(s[0]),
    ensures
        run_len(s, class) == 0,
        skip_run(s, class) == s,
{
    assert(s.skip(0) =~= s);
}

/// What is skipped behind a factor where the rest is clean.
proof fn lemma_settle(rest: Seq<char>)
    requires
        clean(rest),
    ensures
        skip_trailing(rest) == (if rest.len() >= 2 && rest[0] == ' ' {
            rest.skip(1)
        } else {
            rest
        }),
        skip_trailing(rest).len() <= rest.len(),
{
    if rest.len() >= 2 && rest[0] == ' ' {
        let u = rest.skip(1);
        assert(u[0] == rest[1]);
        lemma_no_run(u, CharClass::MultiSpace);
        assert(run_len(rest, CharClass::MultiSpace) == 1);
        lemma_no_run(u, CharClass::Semicolon);
    } else {
        lemma_no_run(rest, CharClass::MultiSpace);
        lemma_no_run(rest, CharClass::Semicolon);
    }
}

/// White space before a text that starts with none is skipped whole.
proof fn lemma_skip_lead(lead: Seq<char>, text: Seq<char>)
    requires
        blank(lead),
        text.len() > 0,
        !CharClass::MultiSpace.holds(text[0]),
    ensures
        skip_run(lead + text, CharClass::MultiSpace) == text,
{
    let s = lead + text;
    assert forall|i: int| 0 <= i < lead.len() implies CharClass::MultiSpace.holds(#[trigger] s[i]) by {
        assert(s[i] == lead[i]);
    }
    lemma_run_len_split(s, CharClass::MultiSpace, lead.len() as int);
    assert(s.skip(lead.len() as int) =~= text);
    lemma_no_run(text, CharClass::MultiSpace);
}

/// A run that fills `text` ends where `text` ends, if what follows is not
/// of the class.
proof fn lemma_run_fills(text: Seq<char>, rest: Seq<char>, class: CharClass)
    requires
        forall|i: int| 0 <= i < text.len() ==> class.holds(#[trigger] text[i]),
        rest.len() == 0 || !class.holds(rest[0]),
    ensures
        run_len(text + rest, class) == text.len(),
{
    let s = text + rest;
    assert forall|i: int| 0 <= i < text.len() implies class.holds(#[trigger] s[i]) by {
        assert(s[i] == text[i]);
    }
    lemma_run_len_split(s, class, text.len() as int);
    assert(s.skip(text.len() as int) =~= rest);
    lemma_no_run(rest, class);
}

/// A factor is a term, and a term is an expression.
proof fn lemma_shapes(expr: ExpressionModel)
    ensures
        factor_shaped(expr) ==> term_shaped(expr),
        term_shaped(expr) ==> expression_shaped(expr),
        expression_shaped(expr) ==> (match expr {
            ExpressionModel::Value(digits) => is_numeral(digits),
            ExpressionModel::Identifier(name) => is_name(name),
            ExpressionModel::Paren(inner) => expression_shaped(*inner) && factor_shaped(expr),
            ExpressionModel::Binary(operator, left, right) => if is_multiplicative(operator) {
                term_shaped(expr) && term_shaped(*left) && factor_shaped(*right)
            } else {
                expression_shaped(*left) && term_shaped(*right)
            },
        }),
{
    if expression_shaped(expr) {
        match expr {
            ExpressionModel::Binary(operator, left, right) => {
                if is_multiplicative(operator) {
                    assert(term_shaped(expr));
                }
            },
            _ => {
                assert(term_shaped(expr));
                assert(factor_shaped(expr));
            },
        }
    }
}

/// The text of an expression starts with a digit, a letter, `_` or `(`.
proof fn lemma_solid_start(expr: ExpressionModel)
    requires
        expression_shaped(expr),
    ensures
        display(expr).len() > 0,
        solid(display(expr)[0]),
        !CharClass::MultiSpace.holds(display(expr)[0]),
    decreases expr,
{
    lemma_shapes(expr);
    match expr {
        ExpressionModel::Binary(operator, left, right) => {
            lemma_shapes(*left);
            lemma_solid_start(*left);
            let text = display(*left) + seq![' ', operator_char(operator), ' '] + display(*right);
            assert(text[0] == display(*left)[0]);
        },
        ExpressionModel::Value(digits) => {
            assert(is_digit(digits[0]));
        },
        ExpressionModel::Identifier(name) => {},
        ExpressionModel::Paren(inner) => {
            let text = seq!['('] + display(*inner) + seq![')'];
            assert(text[0] == '(');
        },
    }
}

/// Folding with one more operand in front.
proof fn lemma_fold_first(
    initial: ExpressionModel,
    first: (Oper, ExpressionModel),
    more: Seq<(Oper, ExpressionModel)>,
)
    ensures
        fold_operands(initial, seq![first] + more) == fold_operands(
            ExpressionModel::Binary(first.0, Box::new(initial), Box::new(first.1)),
            more,
        ),
    decreases more.len(),
{
    let all = seq![first] + more;
    if more.len() == 0 {
        assert(all.drop_last() =~= Seq::empty());
        assert(fold_operands(initial, all.drop_last()) == initial);
    } else {
        lemma_fold_first(initial, first, more.drop_last());
        assert(all.drop_last() =~= seq![first] + more.drop_last());
        assert(all.last() == more.last());
    }
}

/// The digits `digits`, with what stands around them, parse as a number.
proof fn lemma_factor_value(lead: Seq<char>, digits: Seq<char>, rest: Seq<char>)
    requires
        is_numeral(digits),
        blank(lead),
        clean(rest),
    ensures
        spec_factor(lead + digits + rest) == Some((skip_trailing(rest), ExpressionModel::Value(digits))),
{
    let s = lead + digits + rest;
    let t = digits + rest;
    assert(t[0] == digits[0]);
    assert(is_digit(digits[0]));
    assert(s =~= lead + t);
    lemma_skip_lead(lead, t);
    assert(skip_run(s, CharClass::MultiSpace) == t);
    lemma_run_fills(digits, rest, CharClass::Digit);
    assert(run_len(t, CharClass::Digit) == digits.len());
    assert(t.skip(digits.len() as int) =~= rest);
    assert(t.take(digits.len() as int) =~= digits);
}

/// The name `name`, with what stands around it, parses as a name.
proof fn lemma_factor_name(lead: Seq<char>, name: Seq<char>, rest: Seq<char>)
    requires
        is_name(name),
        blank(lead),
        clean(rest),
    ensures
        spec_factor(lead + name + rest) == Some((skip_trailing(rest), ExpressionModel::Identifier(name))),
{
    let s = lead + name + rest;
    let t = name + rest;
    assert(t[0] == name[0]);
    assert(s =~= lead + t);
    lemma_skip_lead(lead, t);
    assert(skip_run(s, CharClass::MultiSpace) == t);
    lemma_no_run(t, CharClass::Digit);
    let tail = name.skip(1);
    assert forall|i: int| 0 <= i < tail.len() implies CharClass::IdentifierPart.holds(#[trigger] tail[i]) by {
        assert(tail[i] == name[i + 1]);
    }
    lemma_run_fills(tail, rest, CharClass::IdentifierPart);
    assert(t.skip(1) =~= tail + rest);
    assert(identifier_len(t) == name.len());
    assert(t.skip(name.len() as int) =~= rest);
    assert(t.take(name.len() as int) =~= name);
}

/// The text of a factor, with what stands around it, parses as that
/// factor.
proof fn lemma_factor(lead: Seq<char>, expr: ExpressionModel, rest: Seq<char>)
    requires
        factor_shaped(expr),
        blank(lead),
        clean(rest),
    ensures
        spec_factor(lead + display(expr) + rest) == Some((skip_trailing(rest), expr)),
    decreases expr, 0nat,
{
    match expr {
        ExpressionModel::Value(digits) => {
            lemma_factor_value(lead, digits, rest);
        },
        ExpressionModel::Identifier(name) => {
            lemma_factor_name(lead, name, rest);
        },
        ExpressionModel::Paren(inner) => {
            let text = seq!['('] + display(*inner) + seq![')'];
            let s = lead + text + rest;
            let t = text + rest;
            let behind = seq![')'] + rest;
            assert(t[0] == '(');
            assert(s =~= lead + t);
            lemma_skip_lead(lead, t);
            assert(skip_run(s, CharClass::MultiSpace) == t);
            lemma_no_run(t, CharClass::Digit);
            assert(identifier_len(t) == 0);
            assert(spec_factor(s) == spec_parens(s));
            assert(t.skip(1) =~= Seq::<char>::empty() + display(*inner) + behind);
            lemma_expression(Seq::empty(), *inner, behind);
            lemma_settle(behind);
            assert(spec_expression_operands(behind) == (Seq::<(Oper, ExpressionModel)>::empty(), behind));
            assert(spec_expression(t.skip(1)) == Some((behind, *inner)));
            assert(behind.skip(1) =~= rest);
            assert(spec_parens(s) == Some((skip_trailing(rest), expr)));
        },
        ExpressionModel::Binary(_, _, _) => {},
    }
}

/// The text of a term, with what stands around it, parses as that term,
/// and as the first factors of a longer term where more factors follow.
proof fn lemma_term(lead: Seq<char>, expr: ExpressionModel, rest: Seq<char>)
    requires
        term_shaped(expr),
        blank(lead),
        clean(rest),
    ensures
        spec_term(lead + display(expr) + rest) == Some(
            (
                spec_term_operands(skip_trailing(rest)).1,
                fold_operands(expr, spec_term_operands(skip_trailing(rest)).0),
            ),
        ),
    decreases expr, 1nat,
{
    let s = lead + display(expr) + rest;
    lemma_settle(rest);
    match expr {
        ExpressionModel::Binary(operator, left, right) => {
            let c = operator_char(operator);
            let behind = seq![' ', c, ' '] + display(*right) + rest;
            assert(s =~= lead + display(*left) + behind);
            lemma_term(lead, *left, behind);
            lemma_settle(behind);
            let u = behind.skip(1);
            assert(u[0] == c);
            assert(u.skip(1) =~= seq![' '] + display(*right) + rest);
            lemma_factor(seq![' '], *right, rest);
            let more = spec_term_operands(skip_trailing(rest));
            assert(spec_term_operands(u) == (seq![(operator, *right)] + more.0, more.1));
            lemma_fold_first(*left, (operator, *right), more.0);
        },
        _ => {
            lemma_factor(lead, expr, rest);
        },
    }
}

/// Behind a term that nothing multiplies, no operand of a term follows.
proof fn lemma_quiet(rest: Seq<char>)
    requires
        quiet(rest),
    ensures
        clean(rest),
        spec_term_operands(skip_trailing(rest)) == (Seq::<(Oper, ExpressionModel)>::empty(), skip_trailing(rest)),
{
    lemma_settle(rest);
}

/// The text of an expression, with what stands around it, parses as that
/// expression, and as the first terms of a longer one where more terms
/// follow.
proof fn lemma_expression(lead: Seq<char>, expr: ExpressionModel, rest: Seq<char>)
    requires
        expression_shaped(expr),
        blank(lead),
        quiet(rest),
    ensures
        spec_expression(lead + display(expr) + rest) == Some(
            (
                spec_expression_operands(skip_trailing(rest)).1,
                fold_operands(expr, spec_expression_operands(skip_trailing(rest)).0),
            ),
        ),
    decreases expr, 2nat,
{
    let s = lead + display(expr) + rest;
    lemma_quiet(rest);
    lemma_settle(rest);
    match expr {
        ExpressionModel::Binary(operator, left, right) => {
            if is_multiplicative(operator) {
                lemma_term(lead, expr, rest);
            } else {
                let c = operator_char(operator);
                let behind = seq![' ', c, ' '] + display(*right) + rest;
                assert(s =~= lead + display(*left) + behind);
                lemma_expression(lead, *left, behind);
                lemma_settle(behind);
                let u = behind.skip(1);
                assert(u[0] == c);
                assert(u.skip(1) =~= seq![' '] + display(*right) + rest);
                lemma_term(seq![' '], *right, rest);
                let more = spec_expression_operands(skip_trailing(rest));
                assert(spec_expression_operands(u) == (seq![(operator, *right)] + more.0, more.1));
                lemma_fold_first(*left, (operator, *right), more.0);
            }
        },
        _ => {
            lemma_term(lead, expr, rest);
        },
    }
}

/// The text of an expression that the parser can give parses to that
/// expression, and nothing is left of the text.
pub proof fn lemma_display_parses(expr: ExpressionModel)
    requires
        expression_shaped(expr),
    ensures
        spec_expression(display(expr)) == Some((Seq::<char>::empty(), expr)),
{
    let nothing = Seq::<char>::empty();
    lemma_expression(nothing, expr, nothing);
    lemma_settle(nothing);
    assert(nothing + display(expr) + nothing =~= display(expr));
}

/// Operands of the kind that follows the first factor of a term, or
/// the first term of an expression where `additive`.
spec fn operands_shaped(operands: Seq<(Oper, ExpressionModel)>, additive: bool) -> bool {
    forall|i: int|
        0 <= i < operands.len() ==> if additive {
            !is_multiplicative((#[trigger] operands[i]).0) && term_shaped(operands[i].1)
        } else {
            is_multiplicative((#[trigger] operands[i]).0) && factor_shaped(operands[i].1)
        }
}

/// Factors folded onto a term give a term.
proof fn lemma_fold_term(first: ExpressionModel, operands: Seq<(Oper, ExpressionModel)>)
    requires
        term_shaped(first),
        operands_shaped(operands, false),
    ensures
        term_shaped(fold_operands(first, operands)),
    decreases operands.len(),
{
    if operands.len() > 0 {
        let front = operands.drop_last();
        assert forall|i: int| 0 <= i < front.len() implies is_multiplicative((#[trigger] front[i]).0)
            && factor_shaped(front[i].1) by {
            assert(front[i] == operands[i]);
        }
        lemma_fold_term(first, front);
        assert(is_multiplicative(operands[operands.len() - 1].0));
    }
}

/// Terms folded onto an expression give an expression.
proof fn lemma_fold_expression(first: ExpressionModel, operands: Seq<(Oper, ExpressionModel)>)
    requires
        expression_shaped(first),
        operands_shaped(operands, true),
    ensures
        expression_shaped(fold_operands(first, operands)),
    decreases operands.len(),
{
    if operands.len() > 0 {
        let front = operands.drop_last();
        assert forall|i: int| 0 <= i < front.len() implies !is_multiplicative((#[trigger] front[i]).0)
            && term_shaped(front[i].1) by {
            assert(front[i] == operands[i]);
        }
        lemma_fold_expression(first, front);
        assert(!is_multiplicative(operands[operands.len() - 1].0));
    }
}

/// One more operand in front of operands of a kind.
proof fn lemma_operands_shaped_first(
    first: (Oper, ExpressionModel),
    more: Seq<(Oper, ExpressionModel)>,
    additive: bool,
)
    requires
        operands_shaped(seq![first], additive),
        operands_shaped(more, additive),
    ensures
        operands_shaped(seq![first] + more, additive),
{
    let all = seq![first] + more;
    assert forall|i: int| 0 <= i < all.len() implies if additive {
        !is_multiplicative((#[trigger] all[i]).0) && term_shaped(all[i].1)
    } else {
        is_multiplicative((#[trigger] all[i]).0) && factor_shaped(all[i].1)
    } by {
        if i == 0 {
            assert(all[i] == seq![first][0]);
        } else {
            assert(all[i] == more[i - 1]);
        }
    }
}

/// What parses as an expression in brackets is shaped as a factor.
proof fn lemma_parens_shaped(s: Seq<char>)
    ensures
        spec_parens(s) matches Some((_, expr)) ==> factor_shaped(expr),
    decreases s.len(), 0nat,
{
    let t = skip_run(s, CharClass::MultiSpace);
    if starts_with(t, '(') && t.len() <= s.len() {
        lemma_expression_shaped(t.skip(1));
    }
}

/// What parses as a factor is shaped as one.
proof fn lemma_factor_shaped(s: Seq<char>)
    ensures
        spec_factor(s) matches Some((_, expr)) ==> factor_shaped(expr),
    decreases s.len(), 1nat,
{
    let t = skip_run(s, CharClass::MultiSpace);
    let digits = run_len(t, CharClass::Digit) as int;
    let letters = identifier_len(t) as int;
    lemma_run_len_bound(t, CharClass::Digit);
    if digits > 0 {
        let found = t.take(digits);
        assert forall|i: int| 0 <= i < found.len() implies is_digit(#[trigger] found[i]) by {
            assert(found[i] == t[i]);
        }
    } else if letters > 0 {
        lemma_run_len_bound(t.skip(1), CharClass::IdentifierPart);
        let found = t.take(letters);
        assert(found[0] == t[0]);
        assert forall|i: int| 1 <= i < found.len() implies CharClass::IdentifierPart.holds(#[trigger] found[i]) by {
            assert(found[i] == t.skip(1)[i - 1]);
        }
    } else {
        lemma_parens_shaped(s);
    }
}

/// The operands that follow the first factor of a term are factors under
/// `*`, `/` or `%`.
proof fn lemma_term_operands_shaped(s: Seq<char>)
    ensures
        operands_shaped(spec_term_operands(s).0, false),
    decreases s.len(), 2nat,
{
    if s.len() > 0 && operator_of(s[0], false) is Some {
        lemma_factor_shaped(s.skip(1));
        match spec_factor(s.skip(1)) {
            Some((rest, e)) => {
                if rest.len() < s.len() {
                    lemma_term_operands_shaped(rest);
                    let first = (operator_of(s[0], false).unwrap(), e);
                    assert(seq![first][0] == first);
                    lemma_operands_shaped_first(first, spec_term_operands(rest).0, false);
                }
            },
            None => {},
        }
    }
}

/// What parses as a term is shaped as one.
proof fn lemma_term_shaped(s: Seq<char>)
    ensures
        spec_term(s) matches Some((_, expr)) ==> term_shaped(expr),
    decreases s.len(), 3nat,
{
    lemma_factor_shaped(s);
    match spec_factor(s) {
        Some((rest, first)) => {
            if rest.len() <= s.len() {
                lemma_term_operands_shaped(rest);
                lemma_shapes(first);
                lemma_fold_term(first, spec_term_operands(rest).0);
            }
        },
        None => {},
    }
}

/// The operands that follow the first term of an expression are terms
/// under `+` or `-`.
proof fn lemma_expression_operands_shaped(s: Seq<char>)
    ensures
        operands_shaped(spec_expression_operands(s).0, true),
    decreases s.len(), 4nat,
{
    if s.len() > 0 && operator_of(s[0], true) is Some {
        lemma_term_shaped(s.skip(1));
        match spec_term(s.skip(1)) {
            Some((rest, e)) => {
                if rest.len() < s.len() {
                    lemma_expression_operands_shaped(rest);
                    let first = (operator_of(s[0], true).unwrap(), e);
                    assert(seq![first][0] == first);
                    lemma_operands_shaped_first(first, spec_expression_operands(rest).0, true);
                }
            },
            None => {},
        }
    }
}

/// What parses as an expression is shaped as one.
pub proof fn lemma_expression_shaped(s: Seq<char>)
    ensures
        spec_expression(s) matches Some((_, expr)) ==> expression_shaped(expr),
    decreases s.len(), 5nat,
{
    lemma_term_shaped(s);
    match spec_term(s) {
        Some((rest, first)) => {
            if rest.len() <= s.len() {
                lemma_expression_operands_shaped(rest);
                lemma_shapes(first);
                lemma_fold_expression(first, spec_expression_operands(rest).0);
            }
        },
        None => {},
    }
}

/// The text of an expression that was parsed parses again, whole, to the
/// same tree: brackets are written where the tree holds them, and no others
/// are needed to keep the operators where they are. So what the text
/// evaluates to is what the tree evaluates to, in any scopes and under any
/// arithmetic.
pub proof fn lemma_display_round_trip(s: Seq<char>, chain: Seq<FrameModel>, kernel: Kernel)
    requires
        spec_expression(s) is Some,
    ensures
        spec_expression(display(spec_expression(s).unwrap().1)) == Some(
            (Seq::<char>::empty(), spec_expression(s).unwrap().1),
        ),
        spec_evaluate_expression(chain, spec_expression(display(spec_expression(s).unwrap().1)).unwrap().1, kernel)
            == spec_evaluate_expression(chain, spec_expression(s).unwrap().1, kernel),
{
    lemma_expression_shaped(s);
    lemma_display_parses(spec_expression(s).unwrap().1);
}

} // verus!
