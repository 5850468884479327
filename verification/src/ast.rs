//! The syntax tree, and its mathematical model: the same tree with every
//! text as a sequence of characters and every list as a sequence.

use vstd::prelude::*;

verus! {

/// A name.
#[derive(PartialEq, Eq, Debug)]
pub struct Identifier {
    pub id: String,
}

/// A number as the source wrote it: a non-empty run of decimal digits.
#[derive(PartialEq, Eq, Debug)]
pub struct NumericLiteral {
    pub digits: String,
}

/// A binary arithmetic operator.
#[derive(Clone, Copy, PartialEq, Eq, Debug)]
pub enum Oper {
    Add,
    Sub,
    Mul,
    Div,
    Mod,
}

/// An arithmetic expression. `Paren` keeps the brackets of the source; it
/// changes nothing in what the expression evaluates to.
#[derive(PartialEq, Eq, Debug)]
pub enum ArithmeticExpression {
    Value(NumericLiteral),
    Identifier(Identifier),
    Add(Box<ArithmeticExpression>, Box<ArithmeticExpression>),
    Sub(Box<ArithmeticExpression>, Box<ArithmeticExpression>),
    Mul(Box<ArithmeticExpression>, Box<ArithmeticExpression>),
    Div(Box<ArithmeticExpression>, Box<ArithmeticExpression>),
    Mod(Box<ArithmeticExpression>, Box<ArithmeticExpression>),
    Paren(Box<ArithmeticExpression>),
}

/// The payload of a declaration and of an assignment: the name bound, whether
/// the binding is constant, and the expression that gives the value.
#[derive(PartialEq, Eq, Debug)]
pub struct Assign<'a> {
    pub id: &'a str,
    pub constant: bool,
    pub expression: Box<Statement<'a>>,
}

/// A call: the function's name and the texts of its arguments.
#[derive(PartialEq, Eq, Debug)]
pub struct CallExpression<'a> {
    pub func: &'a str,
    pub args: Vec<&'a str>,
}

/// An index into an object by a constant name.
#[derive(PartialEq, Eq, Debug)]
pub struct MemberExpression<'a> {
    pub object: &'a str,
    pub property: &'a str,
}

/// One property of an object literal.
#[derive(PartialEq, Eq, Debug)]
pub struct Property<'a> {
    pub key: &'a str,
    pub value: Option<Box<Statement<'a>>>,
}

/// An object literal.
#[derive(PartialEq, Eq, Debug)]
pub struct Object<'a> {
    pub properties: Vec<Property<'a>>,
}

/// A statement.
#[derive(PartialEq, Eq, Debug)]
pub enum Statement<'a> {
    Comment(String),
    BooleanLiteral(bool),
    Identifier(Identifier),
    NumericLiteral(NumericLiteral),
    Declaration(Assign<'a>),
    Assign(Assign<'a>),
    ArithmeticExpression(ArithmeticExpression),
    CallExpression(CallExpression<'a>),
    ObjectLiteral(Object<'a>),
    Property(Property<'a>),
    MemberExpression(MemberExpression<'a>),
}

/// The model of an `ArithmeticExpression`.
pub enum ExpressionModel {
    Value(Seq<char>),
    Identifier(Seq<char>),
    Binary(Oper, Box<ExpressionModel>, Box<ExpressionModel>),
    Paren(Box<ExpressionModel>),
}

/// The model of an `Assign`.
pub struct BindingModel {
    pub name: Seq<char>,
    pub constant: bool,
    pub expression: Box<StatementModel>,
}

/// The model of a `Property`.
pub struct PropertyModel {
    pub key: Seq<char>,
    pub value: Option<Box<StatementModel>>,
}

/// The model of a `Statement`.
pub enum StatementModel {
    Comment(Seq<char>),
    BooleanLiteral(bool),
    Identifier(Seq<char>),
    NumericLiteral(Seq<char>),
    Declaration(BindingModel),
    Assign(BindingModel),
    ArithmeticExpression(ExpressionModel),
    CallExpression { func: Seq<char>, args: Seq<Seq<char>> },
    ObjectLiteral(Seq<PropertyModel>),
    Property(PropertyModel),
    MemberExpression { object: Seq<char>, property: Seq<char> },
}

impl View for Identifier {
    type V = Seq<char>;

    open spec fn view(&self) -> Seq<char> {
        self.id@
    }
}

impl View for NumericLiteral {
    type V = Seq<char>;

    open spec fn view(&self) -> Seq<char> {
        self.digits@
    }
}

impl ArithmeticExpression {
    pub open spec fn model(&self) -> ExpressionModel
        decreases self,
    {
        match self {
            ArithmeticExpression::Value(n) => ExpressionModel::Value(n@),
            ArithmeticExpression::Identifier(i) => ExpressionModel::Identifier(i@),
            ArithmeticExpression::Add(l, r) => ExpressionModel::Binary(
                Oper::Add,
                Box::new(l.model()),
                Box::new(r.model()),
            ),
            ArithmeticExpression::Sub(l, r) => ExpressionModel::Binary(
                Oper::Sub,
                Box::new(l.model()),
                Box::new(r.model()),
            ),
            ArithmeticExpression::Mul(l, r) => ExpressionModel::Binary(
                Oper::Mul,
                Box::new(l.model()),
                Box::new(r.model()),
            ),
            ArithmeticExpression::Div(l, r) => ExpressionModel::Binary(
                Oper::Div,
                Box::new(l.model()),
                Box::new(r.model()),
            ),
            ArithmeticExpression::Mod(l, r) => ExpressionModel::Binary(
                Oper::Mod,
                Box::new(l.model()),
                Box::new(r.model()),
            ),
            ArithmeticExpression::Paren(e) => ExpressionModel::Paren(Box::new(e.model())),
        }
    }
}

impl View for ArithmeticExpression {
    type V = ExpressionModel;

    open spec fn view(&self) -> ExpressionModel {
        self.model()
    }
}

/// The texts of string slices.
pub open spec fn texts(slices: Seq<&str>) -> Seq<Seq<char>> {
    Seq::new(slices.len(), |i: int| slices[i]@)
}

impl<'a> View for CallExpression<'a> {
    type V = StatementModel;

    open spec fn view(&self) -> StatementModel {
        StatementModel::CallExpression {
            func: self.func@,
            args: texts(self.args@),
        }
    }
}

impl<'a> View for MemberExpression<'a> {
    type V = StatementModel;

    open spec fn view(&self) -> StatementModel {
        StatementModel::MemberExpression { object: self.object@, property: self.property@ }
    }
}

impl<'a> Assign<'a> {
    pub open spec fn model(&self) -> BindingModel
        decreases self,
    {
        BindingModel {
            name: self.id@,
            constant: self.constant,
            expression: Box::new(self.expression.model()),
        }
    }
}

impl<'a> Property<'a> {
    pub open spec fn model(&self) -> PropertyModel
        decreases self,
    {
        PropertyModel {
            key: self.key@,
            value: match self.value {
                Some(v) => Some(Box::new(v.model())),
                None => None,
            },
        }
    }
}

impl<'a> Object<'a> {
    pub open spec fn model(&self) -> Seq<PropertyModel>
        decreases self,
    {
        Seq::new(
            self.properties.len() as nat,
            |i: int|
                if 0 <= i < self.properties.len() {
                    self.properties[i].model()
                } else {
                    PropertyModel { key: Seq::empty(), value: None }
                },
        )
    }
}

impl<'a> Statement<'a> {
    pub open spec fn model(&self) -> StatementModel
        decreases self,
    {
        match self {
            Statement::Comment(text) => StatementModel::Comment(text@),
            Statement::BooleanLiteral(b) => StatementModel::BooleanLiteral(*b),
            Statement::Identifier(i) => StatementModel::Identifier(i@),
            Statement::NumericLiteral(n) => StatementModel::NumericLiteral(n@),
            Statement::Declaration(a) => StatementModel::Declaration(a.model()),
            Statement::Assign(a) => StatementModel::Assign(a.model()),
            Statement::ArithmeticExpression(e) => StatementModel::ArithmeticExpression(e@),
            Statement::CallExpression(c) => c@,
            Statement::ObjectLiteral(o) => StatementModel::ObjectLiteral(o.model()),
            Statement::Property(p) => StatementModel::Property(p.model()),
            Statement::MemberExpression(m) => m@,
        }
    }
}

impl<'a> View for Assign<'a> {
    type V = BindingModel;

    open spec fn view(&self) -> BindingModel {
        self.model()
    }
}

impl<'a> View for Property<'a> {
    type V = PropertyModel;

    open spec fn view(&self) -> PropertyModel {
        self.model()
    }
}

impl<'a> View for Object<'a> {
    type V = Seq<PropertyModel>;

    open spec fn view(&self) -> Seq<PropertyModel> {
        self.model()
    }
}

impl<'a> View for Statement<'a> {
    type V = StatementModel;

    open spec fn view(&self) -> StatementModel {
        self.model()
    }
}

} // verus!
