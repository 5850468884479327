//! The text of a syntax tree, for a reader. The text of an arithmetic
//! expression is also what the parser takes back: see `roundtrip`.

use vstd::prelude::*;
use crate::ast::{
    ArithmeticExpression, Assign, BindingModel, CallExpression, ExpressionModel, Identifier,
    texts, MemberExpression, NumericLiteral, Object, Oper, Property, PropertyModel, Statement,
    StatementModel,
};
use crate::chars::{is_digit, CharClass};
use crate::generic::is_identifier_start;
use crate::grammar::Program;

verus! {

/// The character that writes an operator.
pub open spec fn operator_char(operator: Oper) -> char {
    match operator {
        Oper::Add => '+',
        Oper::Sub => '-',
        Oper::Mul => '*',
        Oper::Div => '/',
        Oper::Mod => '%',
    }
}

/// The text of an expression: an operator stands between its two sides
/// with a space on each side of it, and brackets stand where the tree holds
/// them and nowhere else.
pub open spec fn display(expr: ExpressionModel) -> Seq<char>
    decreases expr,
{
    match expr {
        ExpressionModel::Value(digits) => digits,
        ExpressionModel::Identifier(name) => name,
        ExpressionModel::Binary(operator, left, right) => display(*left) + seq![' ', operator_char(operator), ' ']
            + display(*right),
        ExpressionModel::Paren(inner) => seq!['('] + display(*inner) + seq![')'],
    }
}

/// The character that writes `operator`.
fn operator_symbol(operator: Oper) -> (c: char)
    ensures
        c == operator_char(operator),
{
    match operator {
        Oper::Add => '+',
        Oper::Sub => '-',
        Oper::Mul => '*',
        Oper::Div => '/',
        Oper::Mod => '%',
    }
}

impl ArithmeticExpression {
    /// The text of the two sides of an operator around it.
    fn binary_text(left: &ArithmeticExpression, operator: Oper, right: &ArithmeticExpression) -> (s: String)
        ensures
            s@ == display(ExpressionModel::Binary(operator, Box::new(left@), Box::new(right@))),
        decreases ExpressionModel::Binary(operator, Box::new(left@), Box::new(right@)), 0nat,
    {
        proof {
            let node = ExpressionModel::Binary(operator, Box::new(left@), Box::new(right@));
            assert(*node->Binary_1 == left@);
            assert(*node->Binary_2 == right@);
            assert(decreases_to!(node => *node->Binary_1));
            assert(decreases_to!(node => *node->Binary_2));
        }
        let mut s = left.to_text();
        s.push(' ');
        s.push(operator_symbol(operator));
        s.push(' ');
        let r = right.to_text();
        s.append(r.as_str());
        proof {
            assert(s@ =~= display(left@) + seq![' ', operator_char(operator), ' '] + display(right@));
        }
        s
    }

    /// The text of the expression.
    pub fn to_text(&self) -> (s: String)
        ensures
            s@ == display(self@),
        decreases self@, 1nat,
    {
        match self {
            ArithmeticExpression::Value(val) => val.digits.clone(),
            ArithmeticExpression::Identifier(id) => id.id.clone(),
            ArithmeticExpression::Add(left, right) => Self::binary_text(left, Oper::Add, right),
            ArithmeticExpression::Sub(left, right) => Self::binary_text(left, Oper::Sub, right),
            ArithmeticExpression::Mul(left, right) => Self::binary_text(left, Oper::Mul, right),
            ArithmeticExpression::Div(left, right) => Self::binary_text(left, Oper::Div, right),
            ArithmeticExpression::Mod(left, right) => Self::binary_text(left, Oper::Mod, right),
            ArithmeticExpression::Paren(inner) => {
                proof {
                    assert(self@ == ExpressionModel::Paren(Box::new(inner@)));
                    assert(*self@->Paren_0 == inner@);
                    assert(decreases_to!(self@ => *self@->Paren_0));
                }
                let mut s = String::new();
                s.push('(');
                let text = inner.to_text();
                s.append(text.as_str());
                s.push(')');
                proof {
                    assert(s@ =~= seq!['('] + display(inner@) + seq![')']);
                }
                s
            },
        }
    }
}

/// A run of digits that is not empty.
pub open spec fn is_numeral(digits: Seq<char>) -> bool {
    digits.len() > 0 && forall|i: int| 0 <= i < digits.len() ==> is_digit(#[trigger] digits[i])
}

/// A name: a letter or `_`, then letters, digits and `_`.
pub open spec fn is_name(name: Seq<char>) -> bool {
    &&& name.len() > 0
    &&& is_identifier_start(name[0])
    &&& forall|i: int| 1 <= i < name.len() ==> CharClass::IdentifierPart.holds(#[trigger] name[i])
}

pub open spec fn is_multiplicative(operator: Oper) -> bool {
    operator == Oper::Mul || operator == Oper::Div || operator == Oper::Mod
}

/// The trees that the parser gives for a factor.
pub open spec fn factor_shaped(expr: ExpressionModel) -> bool
    decreases expr, 0nat,
{
    match expr {
        ExpressionModel::Value(digits) => is_numeral(digits),
        ExpressionModel::Identifier(name) => is_name(name),
        ExpressionModel::Paren(inner) => expression_shaped(*inner),
        ExpressionModel::Binary(_, _, _) => false,
    }
}

/// The trees that the parser gives for a term: factors under `*`, `/` and
/// `%`, nested to the left.
pub open spec fn term_shaped(expr: ExpressionModel) -> bool
    decreases expr, 1nat,
{
    match expr {
        ExpressionModel::Binary(operator, left, right) => is_multiplicative(operator) && term_shaped(*left)
            && factor_shaped(*right),
        _ => factor_shaped(expr),
    }
}

/// The trees that the parser gives for an expression: terms under `+` and
/// `-`, nested to the left.
pub open spec fn expression_shaped(expr: ExpressionModel) -> bool
    decreases expr, 2nat,
{
    match expr {
        ExpressionModel::Binary(operator, left, right) => if is_multiplicative(operator) {
            term_shaped(expr)
        } else {
            expression_shaped(*left) && term_shaped(*right)
        },
        _ => term_shaped(expr),
    }
}

/// The text of an expression with every operator and its two sides in
/// round brackets, and the brackets of the source as square ones.
pub open spec fn display_grouped(expr: ExpressionModel) -> Seq<char>
    decreases expr,
{
    match expr {
        ExpressionModel::Value(digits) => digits,
        ExpressionModel::Identifier(name) => name,
        ExpressionModel::Binary(operator, left, right) => seq!['('] + display_grouped(*left) + seq![
            ' ',
            operator_char(operator),
            ' ',
        ] + display_grouped(*right) + seq![')'],
        ExpressionModel::Paren(inner) => seq!['['] + display_grouped(*inner) + seq![']'],
    }
}

pub open spec fn bool_text(b: bool) -> Seq<char> {
    if b {
        "true"@
    } else {
        "false"@
    }
}

/// The texts of `items`, with a comma between one and the next.
pub open spec fn joined(items: Seq<Seq<char>>) -> Seq<char>
    decreases items.len(),
{
    if items.len() == 0 {
        Seq::empty()
    } else if items.len() == 1 {
        items[0]
    } else {
        joined(items.drop_last()) + ","@ + items.last()
    }
}

/// The text of a call.
pub open spec fn call_text(func: Seq<char>, args: Seq<Seq<char>>) -> Seq<char> {
    "fn "@ + func + "("@ + joined(args) + ")"@
}

/// The text of an index.
pub open spec fn member_text(object: Seq<char>, property: Seq<char>) -> Seq<char> {
    "object: "@ + object + " - property: "@ + property
}

/// The text of a binding.
pub open spec fn binding_text(binding: BindingModel) -> Seq<char>
    decreases binding,
{
    "id: "@ + binding.name + ", constant: "@ + bool_text(binding.constant) + ", expression: "@ + statement_text(
        *binding.expression,
    )
}

/// The text of a property.
pub open spec fn property_text(property: PropertyModel) -> Seq<char>
    decreases property,
{
    match property.value {
        Some(value) => "key: "@ + property.key + " - value: "@ + statement_text(*value),
        None => "key: "@ + property.key + " - no value"@,
    }
}

/// The lines of the first `n` of `properties`, each after a tab.
pub open spec fn property_lines(properties: Seq<PropertyModel>, n: nat) -> Seq<char>
    decreases properties, n,
{
    if 0 < n <= properties.len() {
        property_lines(properties, (n - 1) as nat) + "\t"@ + property_text(properties[n - 1]) + "\n"@
    } else {
        Seq::empty()
    }
}

/// The text of an object literal.
pub open spec fn object_text(properties: Seq<PropertyModel>) -> Seq<char>
    decreases properties, properties.len() + 1,
{
    "{\n"@ + property_lines(properties, properties.len()) + "}"@
}

/// The text of a statement: its kind, then what it holds.
pub open spec fn statement_text(statement: StatementModel) -> Seq<char>
    decreases statement,
{
    match statement {
        StatementModel::Comment(text) => "Comment: \t\t"@ + text,
        StatementModel::BooleanLiteral(b) => "Boolean Literal: \t"@ + bool_text(b),
        StatementModel::Identifier(name) => "Identifier: \t"@ + name,
        StatementModel::NumericLiteral(digits) => "Numeric Literal: \t"@ + digits,
        StatementModel::Declaration(binding) => "Declaration: \t\t"@ + binding_text(binding),
        StatementModel::Assign(binding) => "Assign: \t\t"@ + binding_text(binding),
        StatementModel::ArithmeticExpression(expr) => "Arithmetic Expression:  "@ + display(expr),
        StatementModel::CallExpression { func, args } => "Call Expression: \t"@ + call_text(func, args),
        StatementModel::ObjectLiteral(properties) => "Object Literal: \t"@ + object_text(properties),
        StatementModel::Property(property) => "Property: \t\t"@ + property_text(property),
        StatementModel::MemberExpression { object, property } => "Member Expression: \t"@ + member_text(
            object,
            property,
        ),
    }
}

/// The lines of the first `n` of `statements`, each after a tab.
pub open spec fn statement_lines(statements: Seq<StatementModel>, n: nat) -> Seq<char>
    decreases n,
{
    if 0 < n <= statements.len() {
        statement_lines(statements, (n - 1) as nat) + "\t"@ + statement_text(statements[n - 1]) + "\n"@
    } else {
        Seq::empty()
    }
}

/// The text of a program: a line for each statement.
pub open spec fn program_text(statements: Seq<StatementModel>) -> Seq<char> {
    "Program:\n"@ + statement_lines(statements, statements.len())
}

/// The text of a boolean.
fn bool_to_text(b: bool) -> (s: &'static str)
    ensures
        s@ == bool_text(b),
{
    if b {
        "true"
    } else {
        "false"
    }
}

impl ArithmeticExpression {
    /// The grouped text of the two sides of an operator around it.
    fn binary_debug_text(left: &ArithmeticExpression, operator: Oper, right: &ArithmeticExpression) -> (s: String)
        ensures
            s@ == display_grouped(ExpressionModel::Binary(operator, Box::new(left@), Box::new(right@))),
        decreases ExpressionModel::Binary(operator, Box::new(left@), Box::new(right@)), 0nat,
    {
        proof {
            let node = ExpressionModel::Binary(operator, Box::new(left@), Box::new(right@));
            assert(*node->Binary_1 == left@);
            assert(*node->Binary_2 == right@);
            assert(decreases_to!(node => *node->Binary_1));
            assert(decreases_to!(node => *node->Binary_2));
        }
        let mut s = String::new();
        s.push('(');
        let l = left.to_debug_text();
        s.append(l.as_str());
        s.push(' ');
        s.push(operator_symbol(operator));
        s.push(' ');
        let r = right.to_debug_text();
        s.append(r.as_str());
        s.push(')');
        proof {
            assert(s@ =~= seq!['('] + display_grouped(left@) + seq![' ', operator_char(operator), ' ']
                + display_grouped(right@) + seq![')']);
        }
        s
    }

    /// The text of the expression with all its grouping shown.
    pub fn to_debug_text(&self) -> (s: String)
        ensures
            s@ == display_grouped(self@),
        decreases self@, 1nat,
    {
        match self {
            ArithmeticExpression::Value(val) => val.digits.clone(),
            ArithmeticExpression::Identifier(id) => id.id.clone(),
            ArithmeticExpression::Add(left, right) => Self::binary_debug_text(left, Oper::Add, right),
            ArithmeticExpression::Sub(left, right) => Self::binary_debug_text(left, Oper::Sub, right),
            ArithmeticExpression::Mul(left, right) => Self::binary_debug_text(left, Oper::Mul, right),
            ArithmeticExpression::Div(left, right) => Self::binary_debug_text(left, Oper::Div, right),
            ArithmeticExpression::Mod(left, right) => Self::binary_debug_text(left, Oper::Mod, right),
            ArithmeticExpression::Paren(inner) => {
                proof {
                    assert(self@ == ExpressionModel::Paren(Box::new(inner@)));
                    assert(*self@->Paren_0 == inner@);
                    assert(decreases_to!(self@ => *self@->Paren_0));
                }
                let mut s = String::new();
                s.push('[');
                let text = inner.to_debug_text();
                s.append(text.as_str());
                s.push(']');
                proof {
                    assert(s@ =~= seq!['['] + display_grouped(inner@) + seq![']']);
                }
                s
            },
        }
    }
}

impl Identifier {
    /// The name.
    pub fn to_text(&self) -> (s: String)
        ensures
            s@ == self@,
    {
        self.id.clone()
    }
}

impl NumericLiteral {
    /// The digits.
    pub fn to_text(&self) -> (s: String)
        ensures
            s@ == self@,
    {
        self.digits.clone()
    }
}

impl<'a> CallExpression<'a> {
    /// The text of the call: `fn`, the name, and the arguments in brackets
    /// with commas between them.
    pub fn to_text(&self) -> (s: String)
        ensures
            s@ == call_text(self.func@, texts(self.args@)),
    {
        let ghost args = texts(self.args@);
        let mut s = String::from_str("fn ");
        s.append(self.func);
        s.append("(");
        let ghost head = s@;
        let mut i: usize = 0;
        proof {
            assert(args.take(0) =~= Seq::empty());
        }
        while i < self.args.len()
            invariant
                i <= self.args.len(),
                args.len() == self.args.len(),
                forall|j: int| 0 <= j < args.len() ==> args[j] == (#[trigger] self.args[j])@,
                s@ == head + joined(args.take(i as int)),
            decreases self.args.len() - i,
        {
            let ghost before = args.take(i as int);
            let ghost now = args.take(i + 1);
            proof {
                assert(now.drop_last() =~= before);
                assert(now.last() == args[i as int]);
                if i == 0 {
                    assert(joined(before) =~= Seq::empty());
                }
            }
            if i > 0 {
                s.append(",");
            }
            s.append(self.args[i]);
            proof {
                assert(s@ =~= head + joined(now));
            }
            i = i + 1;
        }
        proof {
            assert(args.take(args.len() as int) =~= args);
        }
        s.append(")");
        s
    }
}

impl<'a> MemberExpression<'a> {
    /// The text of the index.
    pub fn to_text(&self) -> (s: String)
        ensures
            s@ == member_text(self.object@, self.property@),
    {
        let mut s = String::from_str("object: ");
        s.append(self.object);
        s.append(" - property: ");
        s.append(self.property);
        s
    }
}

impl<'a> Assign<'a> {
    /// The text of the binding.
    pub fn to_text(&self) -> (s: String)
        ensures
            s@ == binding_text(self@),
        decreases self,
    {
        let mut s = String::from_str("id: ");
        s.append(self.id);
        s.append(", constant: ");
        s.append(bool_to_text(self.constant));
        s.append(", expression: ");
        let inner = self.expression.to_text();
        s.append(inner.as_str());
        s
    }
}

impl<'a> Property<'a> {
    /// The text of the property.
    pub fn to_text(&self) -> (s: String)
        ensures
            s@ == property_text(self@),
        decreases self,
    {
        let mut s = String::from_str("key: ");
        s.append(self.key);
        match &self.value {
            Some(val) => {
                s.append(" - value: ");
                let inner = val.to_text();
                s.append(inner.as_str());
            },
            None => {
                s.append(" - no value");
            },
        }
        s
    }
}

impl<'a> Object<'a> {
    /// The text of the object: a line for each property, between braces.
    #[verifier::loop_isolation(false)]
    pub fn to_text(&self) -> (s: String)
        ensures
            s@ == object_text(self@),
        decreases self,
    {
        let mut s = String::from_str("{\n");
        let mut i: usize = 0;
        while i < self.properties.len()
            invariant
                i <= self.properties.len(),
                s@ == "{\n"@ + property_lines(self@, i as nat),
            decreases self.properties.len() - i,
        {
            proof {
                vstd::std_specs::vec::axiom_vec_index_decreases(self.properties, i as int);
            }
            let line = self.properties[i].to_text();
            s.append("\t");
            s.append(line.as_str());
            s.append("\n");
            proof {
                assert(self@[i as int] == self.properties[i as int]@);
                assert(s@ =~= "{\n"@ + property_lines(self@, (i + 1) as nat));
            }
            i = i + 1;
        }
        s.append("}");
        s
    }
}

impl<'a> Statement<'a> {
    /// The text of the statement: its kind, then what it holds.
    pub fn to_text(&self) -> (s: String)
        ensures
            s@ == statement_text(self@),
        decreases self,
    {
        match self {
            Statement::Comment(val) => {
                let mut s = String::from_str("Comment: \t\t");
                s.append(val.as_str());
                s
            },
            Statement::BooleanLiteral(val) => {
                let mut s = String::from_str("Boolean Literal: \t");
                s.append(bool_to_text(*val));
                s
            },
            Statement::Identifier(val) => {
                let mut s = String::from_str("Identifier: \t");
                s.append(val.id.as_str());
                s
            },
            Statement::NumericLiteral(val) => {
                let mut s = String::from_str("Numeric Literal: \t");
                s.append(val.digits.as_str());
                s
            },
            Statement::Declaration(assign) => {
                let mut s = String::from_str("Declaration: \t\t");
                let inner = assign.to_text();
                s.append(inner.as_str());
                s
            },
            Statement::Assign(assign) => {
                let mut s = String::from_str("Assign: \t\t");
                let inner = assign.to_text();
                s.append(inner.as_str());
                s
            },
            Statement::ArithmeticExpression(expr) => {
                let mut s = String::from_str("Arithmetic Expression:  ");
                let inner = expr.to_text();
                s.append(inner.as_str());
                s
            },
            Statement::CallExpression(call) => {
                let mut s = String::from_str("Call Expression: \t");
                let inner = call.to_text();
                s.append(inner.as_str());
                s
            },
            Statement::ObjectLiteral(val) => {
                let mut s = String::from_str("Object Literal: \t");
                let inner = val.to_text();
                s.append(inner.as_str());
                s
            },
            Statement::Property(val) => {
                let mut s = String::from_str("Property: \t\t");
                let inner = val.to_text();
                s.append(inner.as_str());
                s
            },
            Statement::MemberExpression(val) => {
                let mut s = String::from_str("Member Expression: \t");
                let inner = val.to_text();
                s.append(inner.as_str());
                s
            },
        }
    }
}

impl<'a> Program<'a> {
    /// The text of the program: a line for each statement.
    pub fn to_text(&self) -> (s: String)
        ensures
            s@ == program_text(self@),
    {
        let mut s = String::from_str("Program:\n");
        let mut i: usize = 0;
        while i < self.body.len()
            invariant
                i <= self.body.len(),
                s@ == "Program:\n"@ + statement_lines(self@, i as nat),
            decreases self.body.len() - i,
        {
            let line = self.body[i].to_text();
            s.append("\t");
            s.append(line.as_str());
            s.append("\n");
            proof {
                assert(self@[i as int] == self.body[i as int]@);
                assert(s@ =~= "Program:\n"@ + statement_lines(self@, (i + 1) as nat));
            }
            i = i + 1;
        }
        s
    }
}

} // verus!
