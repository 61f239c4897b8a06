//! Numbers and tokens, with the mathematical values that contracts speak of.
//!
//! A number is kept as it was written: the characters of a literal, or the
//! name of a constant. Nothing in this crate computes with its magnitude, so
//! nothing here rounds, and the reading of a literal is left to the caller.

use vstd::prelude::*;
use crate::operator::{is_numeric_char, Constant, Operator};

verus! {

/// A number as the scanner found it.
#[derive(Clone, Debug, PartialEq, Eq)]
pub enum Number {
    /// A maximal run of digits and decimal points, in the order written.
    /// The run is not checked to be a well-formed decimal.
    Literal(Vec<char>),
    /// A symbolic constant.
    Constant(Constant),
}

/// The value of a [`Number`] in contracts.
pub enum SpecNumber {
    Literal(Seq<char>),
    Constant(Constant),
}

impl SpecNumber {
    /// What the scanner can produce: a literal is a non-empty run of numeric
    /// characters.
    pub open spec fn well_formed(self) -> bool {
        match self {
            SpecNumber::Literal(text) => {
                &&& text.len() > 0
                &&& forall|i: int| 0 <= i < text.len() ==> is_numeric_char(#[trigger] text[i])
            },
            SpecNumber::Constant(_) => true,
        }
    }
}

impl View for Number {
    type V = SpecNumber;

    open spec fn view(&self) -> SpecNumber {
        match *self {
            Number::Literal(text) => SpecNumber::Literal(text@),
            Number::Constant(constant) => SpecNumber::Constant(constant),
        }
    }
}

/// One element of a postfix sequence.
#[derive(Clone, Debug, PartialEq, Eq)]
pub enum Token {
    Operator(Operator),
    Number(Number),
}

/// The value of a [`Token`] in contracts.
pub enum SpecToken {
    Operator(Operator),
    Number(SpecNumber),
}

impl View for Token {
    type V = SpecToken;

    open spec fn view(&self) -> SpecToken {
        match *self {
            Token::Operator(op) => SpecToken::Operator(op),
            Token::Number(number) => SpecToken::Number(number@),
        }
    }
}

/// The values of a sequence of tokens, element by element.
pub open spec fn tokens_view(tokens: Seq<Token>) -> Seq<SpecToken> {
    Seq::new(tokens.len(), |i: int| tokens[i]@)
}

/// Wraps each operator of a sequence as a token.
pub open spec fn operator_tokens(ops: Seq<Operator>) -> Seq<SpecToken> {
    Seq::new(ops.len(), |i: int| SpecToken::Operator(ops[i]))
}

/// Copies a run of characters.
pub fn copy_chars(text: &Vec<char>) -> (result: Vec<char>)
    ensures
        result@ == text@,
{
    let mut result: Vec<char> = Vec::new();
    let mut i: usize = 0;
    while i < text.len()
        invariant
            i <= text.len(),
            result@ == text@.take(i as int),
        decreases text.len() - i,
    {
        result.push(text[i]);
        i += 1;
    }
    result
}

impl Number {
    /// A copy with the same value.
    pub fn duplicate(&self) -> (result: Number)
        ensures
            result@ == self@,
    {
        match self {
            Number::Literal(text) => Number::Literal(copy_chars(text)),
            Number::Constant(constant) => Number::Constant(*constant),
        }
    }
}

} // verus!
