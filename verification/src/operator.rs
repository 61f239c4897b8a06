//! The operators of the calculator: what they are, how tightly they bind,
//! and which character of an expression stands for which of them.

use vstd::prelude::*;

verus! {

/// The two bracket markers that scope precedence inside an expression.
#[derive(Clone, Copy, Debug, PartialEq, Eq, Structural)]
pub enum Bracket {
    Open,
    Close,
}

/// Operators that take one operand.
#[derive(Clone, Copy, Debug, PartialEq, Eq, Structural)]
pub enum OneInOperator {
    SquareRoot,
    Negative,
}

/// Operators that take a left and a right operand.
#[derive(Clone, Copy, Debug, PartialEq, Eq, Structural)]
pub enum TwoInOperator {
    Add,
    Subtract,
    Multiply,
    Divide,
    Power,
}

/// Anything that can sit on the operator stack.
#[derive(Clone, Copy, Debug, PartialEq, Eq, Structural)]
pub enum Operator {
    OneInOperator(OneInOperator),
    TwoInOperator(TwoInOperator),
    Bracket(Bracket),
}

/// The symbolic constants that an expression may name by a single character.
#[derive(Clone, Copy, Debug, PartialEq, Eq, Structural)]
pub enum Constant {
    /// Euler's number, written `e`.
    E,
    /// The circle constant, written `π`.
    Pi,
}

impl TwoInOperator {
    /// Binding strength: additive 1, multiplicative 2, power 3.
    pub open spec fn priority(self) -> int {
        match self {
            TwoInOperator::Add | TwoInOperator::Subtract => 1,
            TwoInOperator::Multiply | TwoInOperator::Divide => 2,
            TwoInOperator::Power => 3,
        }
    }
}

impl Operator {
    /// Binding strength of an operator. Unary operators bind tightest (4);
    /// brackets are not ranked and report 0, below every real operator.
    pub open spec fn priority(self) -> int {
        match self {
            Operator::TwoInOperator(inside) => inside.priority(),
            Operator::OneInOperator(_) => 4,
            Operator::Bracket(_) => 0,
        }
    }

    pub open spec fn is_open_bracket(self) -> bool {
        self == Operator::Bracket(Bracket::Open)
    }
}

/// The operator that a character denotes, read on its own: `-` is always
/// subtraction here, and turning it into negation is the scanner's business.
pub open spec fn operator_of_char(ch: char) -> Option<Operator> {
    if ch == '+' {
        Some(Operator::TwoInOperator(TwoInOperator::Add))
    } else if ch == '×' {
        Some(Operator::TwoInOperator(TwoInOperator::Multiply))
    } else if ch == '-' {
        Some(Operator::TwoInOperator(TwoInOperator::Subtract))
    } else if ch == '÷' {
        Some(Operator::TwoInOperator(TwoInOperator::Divide))
    } else if ch == '^' {
        Some(Operator::TwoInOperator(TwoInOperator::Power))
    } else if ch == '√' {
        Some(Operator::OneInOperator(OneInOperator::SquareRoot))
    } else if ch == '(' {
        Some(Operator::Bracket(Bracket::Open))
    } else if ch == ')' {
        Some(Operator::Bracket(Bracket::Close))
    } else {
        None
    }
}

/// The constant that a character denotes.
pub open spec fn constant_of_char(ch: char) -> Option<Constant> {
    if ch == 'e' {
        Some(Constant::E)
    } else if ch == 'π' {
        Some(Constant::Pi)
    } else {
        None
    }
}

/// Whether a character belongs to a numeric literal: a decimal digit or the
/// decimal point.
pub open spec fn is_numeric_char(ch: char) -> bool {
    ('0' <= ch && ch <= '9') || ch == '.'
}

/// Converts a char to the operator it denotes, or `None` if it denotes none.
pub fn char_to_operator(ch: &char) -> (result: Option<Operator>)
    ensures
        result == operator_of_char(*ch),
{
    let c: char = *ch;
    if c == '+' {
        Some(Operator::TwoInOperator(TwoInOperator::Add))
    } else if c == '×' {
        Some(Operator::TwoInOperator(TwoInOperator::Multiply))
    } else if c == '-' {
        Some(Operator::TwoInOperator(TwoInOperator::Subtract))
    } else if c == '÷' {
        Some(Operator::TwoInOperator(TwoInOperator::Divide))
    } else if c == '^' {
        Some(Operator::TwoInOperator(TwoInOperator::Power))
    } else if c == '√' {
        Some(Operator::OneInOperator(OneInOperator::SquareRoot))
    } else if c == '(' {
        Some(Operator::Bracket(Bracket::Open))
    } else if c == ')' {
        Some(Operator::Bracket(Bracket::Close))
    } else {
        None
    }
}

/// Converts a char to the constant it names, or `None` if it names none.
pub fn char_to_value(ch: &char) -> (result: Option<Constant>)
    ensures
        result == constant_of_char(*ch),
{
    let c: char = *ch;
    if c == 'e' {
        Some(Constant::E)
    } else if c == 'π' {
        Some(Constant::Pi)
    } else {
        None
    }
}

/// Tells whether a char continues a numeric literal.
pub fn is_numeric(ch: char) -> (result: bool)
    ensures
        result == is_numeric_char(ch),
{
    ('0' <= ch && ch <= '9') || ch == '.'
}

} // verus!
