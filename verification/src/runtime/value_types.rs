//! The values that evaluation gives.

use vstd::prelude::*;
use crate::ast::Oper;
use crate::error::{EvalError, EvalFault, Operand};

verus! {

/// What a value is. A number is held as the bit pattern of a double: the
/// arithmetic on it is the caller's, and this library only carries it.
#[derive(PartialEq, Eq, Debug)]
pub enum ValueType {
    /// No value: what a comment evaluates to.
    Nothing,
    Number(u64),
    Bool(bool),
    /// The fields of an object, each with its name.
    Object(Vec<(String, RuntimeValue)>),
}

/// A value of the running program.
#[derive(PartialEq, Eq, Debug)]
pub struct RuntimeValue {
    pub kind: ValueType,
}

/// The model of a value.
pub enum ValueModel {
    Nothing,
    Number(u64),
    Bool(bool),
    Object(Seq<(Seq<char>, ValueModel)>),
}

impl ValueType {
    pub open spec fn model(&self) -> ValueModel
        decreases self,
    {
        match self {
            ValueType::Nothing => ValueModel::Nothing,
            ValueType::Number(bits) => ValueModel::Number(*bits),
            ValueType::Bool(b) => ValueModel::Bool(*b),
            ValueType::Object(fields) => ValueModel::Object(
                Seq::new(
                    fields.len() as nat,
                    |i: int|
                        if 0 <= i < fields.len() {
                            (fields[i].0@, fields[i].1.model())
                        } else {
                            (Seq::empty(), ValueModel::Nothing)
                        },
                ),
            ),
        }
    }
}

impl RuntimeValue {
    pub open spec fn model(&self) -> ValueModel
        decreases self,
    {
        self.kind.model()
    }
}

impl View for ValueType {
    type V = ValueModel;

    open spec fn view(&self) -> ValueModel {
        self.model()
    }
}

impl View for RuntimeValue {
    type V = ValueModel;

    open spec fn view(&self) -> ValueModel {
        self.model()
    }
}

impl Clone for ValueType {
    #[verifier::loop_isolation(false)]
    fn clone(&self) -> (r: Self)
        ensures
            r@ == self@,
        decreases self,
    {
        match self {
            ValueType::Nothing => ValueType::Nothing,
            ValueType::Number(bits) => ValueType::Number(*bits),
            ValueType::Bool(b) => ValueType::Bool(*b),
            ValueType::Object(fields) => {
                let mut copy: Vec<(String, RuntimeValue)> = Vec::new();
                let mut i: usize = 0;
                while i < fields.len()
                    invariant
                        i <= fields.len(),
                        copy.len() == i,
                        forall|j: int|
                            0 <= j < i ==> (#[trigger] copy[j]).0@ == fields[j].0@ && copy[j].1@
                                == fields[j].1@,
                    decreases fields.len() - i,
                {
                    proof {
                        vstd::std_specs::vec::axiom_vec_index_decreases(*fields, i as int);
                    }
                    let name = fields[i].0.clone();
                    let value = fields[i].1.clone();
                    copy.push((name, value));
                    i = i + 1;
                }
                let r = ValueType::Object(copy);
                proof {
                    assert(r.model()->Object_0 =~= self.model()->Object_0);
                }
                r
            },
        }
    }
}

impl Clone for RuntimeValue {
    fn clone(&self) -> (r: Self)
        ensures
            r@ == self@,
        decreases self,
    {
        RuntimeValue { kind: self.kind.clone() }
    }
}

/// Whether `bits` is the bit pattern of a zero, positive or negative.
pub open spec fn is_zero(bits: u64) -> bool {
    bits == 0 || bits == 0x8000_0000_0000_0000
}

/// The number that `value` counts as in arithmetic: itself where it is a
/// number, and zero where it is nothing. A boolean and an object count as
/// none, which is the error given.
pub open spec fn spec_operand(operator: Oper, value: ValueModel) -> Result<u64, EvalFault> {
    match value {
        ValueModel::Nothing => Ok(0),
        ValueModel::Number(bits) => Ok(bits),
        ValueModel::Bool(b) => Err(EvalFault::TypeMismatch { operator, operand: Operand::Bool(b) }),
        ValueModel::Object(_) => Err(EvalFault::TypeMismatch { operator, operand: Operand::Object }),
    }
}

/// What the numbers `left` and `right` give under `operator`, where `apply`
/// is the arithmetic on bit patterns.
///
/// A boolean or an object on either side is an error, the left one first;
/// nothing on the left gives nothing; nothing on the right counts as zero. A
/// division looks at its divisor first: one that is no number is an error,
/// one that is zero is the error of dividing by zero, and only then the left
/// side is looked at.
pub open spec fn spec_arithmetic(
    operator: Oper,
    left: ValueModel,
    right: ValueModel,
    apply: spec_fn(Oper, u64, u64) -> u64,
) -> Result<ValueModel, EvalFault> {
    let l = spec_operand(operator, left);
    let r = spec_operand(operator, right);
    if operator == Oper::Div && r is Err {
        Err(r->Err_0)
    } else if operator == Oper::Div && is_zero(r->Ok_0) {
        Err(EvalFault::DivideByZero)
    } else if l is Err {
        Err(l->Err_0)
    } else if r is Err {
        Err(r->Err_0)
    } else if left is Nothing {
        Ok(ValueModel::Nothing)
    } else {
        Ok(ValueModel::Number(apply(operator, l->Ok_0, r->Ok_0)))
    }
}

impl ValueType {
    /// The number that this value counts as in arithmetic.
    pub fn operand(&self, operator: Oper) -> (r: Result<u64, EvalError>)
        ensures
            (match r {
                Ok(bits) => spec_operand(operator, self@) == Ok::<_, EvalFault>(bits),
                Err(e) => spec_operand(operator, self@) == Err::<u64, _>(e@),
            }),
    {
        match self {
            ValueType::Nothing => Ok(0),
            ValueType::Number(bits) => Ok(*bits),
            ValueType::Bool(b) => Err(EvalError::TypeMismatch { operator, operand: Operand::Bool(*b) }),
            ValueType::Object(_) => Err(EvalError::TypeMismatch { operator, operand: Operand::Object }),
        }
    }
}

} // verus!
