//! Values of the evaluator.
//!
//! The evaluator never looks at the magnitude of a number: which operator is
//! applied to which operands is decided by the token sequence alone. A value
//! is therefore kept as the arithmetic term that denotes it, exactly, and
//! turning a term into a machine number is a fold that the caller performs
//! in the arithmetic of its choice.

use vstd::prelude::*;
use crate::operator::{OneInOperator, TwoInOperator};
use crate::token::{Number, SpecNumber};

verus! {

/// An arithmetic term: a number, or an operator applied to terms.
#[derive(Debug, PartialEq, Eq)]
pub enum Term {
    Number(Number),
    Unary(OneInOperator, Box<Term>),
    /// Operator, left operand, right operand.
    Binary(TwoInOperator, Box<Term>, Box<Term>),
}

/// The value of a [`Term`] in contracts.
pub enum SpecTerm {
    Number(SpecNumber),
    Unary(OneInOperator, Box<SpecTerm>),
    Binary(TwoInOperator, Box<SpecTerm>, Box<SpecTerm>),
}

/// The value of a term: its numbers by their values, its shape unchanged.
pub open spec fn term_value(term: Term) -> SpecTerm
    decreases term,
{
    match term {
        Term::Number(number) => SpecTerm::Number(number@),
        Term::Unary(op, operand) => SpecTerm::Unary(op, Box::new(term_value(*operand))),
        Term::Binary(op, left, right) => SpecTerm::Binary(
            op,
            Box::new(term_value(*left)),
            Box::new(term_value(*right)),
        ),
    }
}

impl View for Term {
    type V = SpecTerm;

    open spec fn view(&self) -> SpecTerm {
        term_value(*self)
    }
}

/// The values of a sequence of terms, element by element.
pub open spec fn terms_view(terms: Seq<Term>) -> Seq<SpecTerm> {
    Seq::new(terms.len(), |i: int| terms[i]@)
}

impl OneInOperator {
    /// Applies the operator to an operand.
    pub fn apply(&self, operand: Term) -> (result: Term)
        ensures
            result@ == SpecTerm::Unary(*self, Box::new(operand@)),
    {
        Term::Unary(*self, Box::new(operand))
    }
}

impl TwoInOperator {
    /// Applies the operator to a left and a right operand.
    pub fn apply(&self, left: Term, right: Term) -> (result: Term)
        ensures
            result@ == SpecTerm::Binary(*self, Box::new(left@), Box::new(right@)),
    {
        Term::Binary(*self, Box::new(left), Box::new(right))
    }
}

} // verus!
