//! The postfix evaluator: a stack machine over terms.

use vstd::prelude::*;
use crate::convert::{infix_to_postfix, postfix_of};
use crate::operator::{Operator, TwoInOperator};
use crate::term::{terms_view, SpecTerm, Term};
use crate::token::{tokens_view, SpecToken, Token};

verus! {

/// Why a postfix sequence has no value.
#[derive(Clone, Copy, Debug, PartialEq, Eq, Structural)]
pub enum EvalError {
    /// An operator found fewer operands than it takes, or a bracket was left
    /// in the sequence, which no operand can satisfy.
    StackUnderflow,
    /// The sequence left no value at all.
    EmptyResult,
}

/// The value stack after one token, the top of the stack last.
///
/// A number is pushed. A unary operator replaces the top by its application.
/// A binary operator replaces the two topmost values, the lower one being
/// the left operand. A bracket is never satisfied.
pub open spec fn apply_token(values: Seq<SpecTerm>, token: SpecToken) -> Result<
    Seq<SpecTerm>,
    EvalError,
> {
    match token {
        SpecToken::Number(number) => Ok(values.push(SpecTerm::Number(number))),
        SpecToken::Operator(Operator::OneInOperator(op)) => {
            if values.len() >= 1 {
                Ok(values.drop_last().push(SpecTerm::Unary(op, Box::new(values.last()))))
            } else {
                Err(EvalError::StackUnderflow)
            }
        },
        SpecToken::Operator(Operator::TwoInOperator(op)) => {
            if values.len() >= 2 {
                Ok(
                    values.take(values.len() - 2).push(
                        SpecTerm::Binary(
                            op,
                            Box::new(values[values.len() - 2]),
                            Box::new(values[values.len() - 1]),
                        ),
                    ),
                )
            } else {
                Err(EvalError::StackUnderflow)
            }
        },
        SpecToken::Operator(Operator::Bracket(_)) => Err(EvalError::StackUnderflow),
    }
}

/// The value stack after a whole token sequence, read left to right from the
/// stack `values`; the first token that cannot be applied decides the error.
pub open spec fn reduce(values: Seq<SpecTerm>, tokens: Seq<SpecToken>) -> Result<
    Seq<SpecTerm>,
    EvalError,
>
    decreases tokens.len(),
{
    if tokens.len() == 0 {
        Ok(values)
    } else {
        match apply_token(values, tokens.first()) {
            Ok(next) => reduce(next, tokens.drop_first()),
            Err(error) => Err(error),
        }
    }
}

/// The product that stands for several values left side by side: the first
/// times the product of the rest.
pub open spec fn implicit_product(values: Seq<SpecTerm>) -> SpecTerm
    recommends
        values.len() >= 1,
    decreases values.len(),
{
    if values.len() <= 1 {
        values.first()
    } else {
        SpecTerm::Binary(
            TwoInOperator::Multiply,
            Box::new(values.first()),
            Box::new(implicit_product(values.drop_first())),
        )
    }
}

/// The value of a postfix sequence.
///
/// The sequence is reduced from an empty stack. No value left is an error;
/// one value is the result; several are multiplied together.
pub open spec fn evaluation(tokens: Seq<SpecToken>) -> Result<SpecTerm, EvalError> {
    match reduce(Seq::empty(), tokens) {
        Ok(values) => {
            if values.len() == 0 {
                Err(EvalError::EmptyResult)
            } else {
                Ok(implicit_product(values))
            }
        },
        Err(error) => Err(error),
    }
}

/// The value of an evaluator's answer.
pub open spec fn outcome_view(outcome: Result<Term, EvalError>) -> Result<SpecTerm, EvalError> {
    match outcome {
        Ok(term) => Ok(term@),
        Err(error) => Err(error),
    }
}

/// The empty sequence has no value.
pub proof fn lemma_evaluation_of_nothing()
    ensures
        evaluation(Seq::empty()) == Err::<SpecTerm, EvalError>(EvalError::EmptyResult),
{
}

/// Multiplying the two topmost values does not change the implicit product.
pub proof fn lemma_product_of_folded_top(values: Seq<SpecTerm>)
    requires
        values.len() >= 2,
    ensures
        implicit_product(
            values.take(values.len() - 2).push(
                SpecTerm::Binary(
                    TwoInOperator::Multiply,
                    Box::new(values[values.len() - 2]),
                    Box::new(values[values.len() - 1]),
                ),
            ),
        ) == implicit_product(values),
    decreases values.len(),
{
    let folded = values.take(values.len() - 2).push(
        SpecTerm::Binary(
            TwoInOperator::Multiply,
            Box::new(values[values.len() - 2]),
            Box::new(values[values.len() - 1]),
        ),
    );
    if values.len() == 2 {
        assert(values.drop_first().drop_first().len() == 0);
        assert(implicit_product(values.drop_first()) == values[1]);
        assert(folded.len() == 1);
    } else {
        let rest = values.drop_first();
        lemma_product_of_folded_top(rest);
        let rest_folded = rest.take(rest.len() - 2).push(
            SpecTerm::Binary(
                TwoInOperator::Multiply,
                Box::new(rest[rest.len() - 2]),
                Box::new(rest[rest.len() - 1]),
            ),
        );
        assert(folded.drop_first() =~= rest_folded);
        assert(folded.first() == values.first());
    }
}

/// Reads a postfix sequence and works out its value.
///
/// `Err(StackUnderflow)` where an operator lacks an operand or a bracket is
/// met, `Err(EmptyResult)` where nothing is left to return.
pub fn evaluate(expr: &Vec<Token>) -> (result: Result<Term, EvalError>)
    ensures
        outcome_view(result) == evaluation(tokens_view(expr@)),
{
    let ghost tokens: Seq<SpecToken> = tokens_view(expr@);
    let mut working_stack: Vec<Term> = Vec::new();
    let mut i: usize = 0;
    assert(tokens.skip(0) =~= tokens);
    assert(terms_view(working_stack@) =~= Seq::empty());
    while i < expr.len()
        invariant
            i <= expr.len(),
            tokens == tokens_view(expr@),
            reduce(Seq::empty(), tokens) == reduce(terms_view(working_stack@), tokens.skip(i as int)),
        decreases expr.len() - i,
    {
        let ghost values: Seq<SpecTerm> = terms_view(working_stack@);
        proof {
            assert(tokens.skip(i as int).first() == expr@[i as int]@);
            assert(tokens.skip(i as int).drop_first() =~= tokens.skip(i + 1));
        }
        match &expr[i] {
            Token::Number(number) => {
                working_stack.push(Term::Number(number.duplicate()));
                proof {
                    assert(terms_view(working_stack@) =~= values.push(SpecTerm::Number(number@)));
                }
            },
            Token::Operator(op) => {
                let popped: Option<Term> = working_stack.pop();
                let right: Term = match popped {
                    Some(term) => term,
                    None => {
                        return Err(EvalError::StackUnderflow);
                    },
                };
                match op {
                    Operator::OneInOperator(inside) => {
                        let ghost operand: SpecTerm = right@;
                        working_stack.push(inside.apply(right));
                        proof {
                            assert(terms_view(working_stack@) =~= values.drop_last().push(
                                SpecTerm::Unary(*inside, Box::new(operand)),
                            ));
                        }
                    },
                    Operator::TwoInOperator(inside) => {
                        let popped_again: Option<Term> = working_stack.pop();
                        let left: Term = match popped_again {
                            Some(term) => term,
                            None => {
                                return Err(EvalError::StackUnderflow);
                            },
                        };
                        let ghost left_value: SpecTerm = left@;
                        let ghost right_value: SpecTerm = right@;
                        working_stack.push(inside.apply(left, right));
                        proof {
                            assert(terms_view(working_stack@) =~= values.take(values.len() - 2).push(
                                SpecTerm::Binary(
                                    *inside,
                                    Box::new(left_value),
                                    Box::new(right_value),
                                ),
                            ));
                        }
                    },
                    Operator::Bracket(_) => {
                        return Err(EvalError::StackUnderflow);
                    },
                }
            },
        }
        i += 1;
    }
    assert(tokens.skip(i as int).len() == 0);
    let ghost reduced: Seq<SpecTerm> = terms_view(working_stack@);

    // Values left side by side are multiplied, the topmost pair first.
    while working_stack.len() > 1
        invariant
            reduced.len() == 0 <==> working_stack@.len() == 0,
            working_stack@.len() >= 1 ==> implicit_product(terms_view(working_stack@))
                == implicit_product(reduced),
        decreases working_stack@.len(),
    {
        let ghost values: Seq<SpecTerm> = terms_view(working_stack@);
        let right: Term = working_stack.pop().unwrap();
        let left: Term = working_stack.pop().unwrap();
        proof {
            lemma_product_of_folded_top(values);
        }
        let ghost left_value: SpecTerm = left@;
        let ghost right_value: SpecTerm = right@;
        working_stack.push(TwoInOperator::Multiply.apply(left, right));
        proof {
            assert(terms_view(working_stack@) =~= values.take(values.len() - 2).push(
                SpecTerm::Binary(
                    TwoInOperator::Multiply,
                    Box::new(left_value),
                    Box::new(right_value),
                ),
            ));
        }
    }
    match working_stack.pop() {
        Some(term) => Ok(term),
        None => Err(EvalError::EmptyResult),
    }
}

/// An evaluation with its error forgotten: the value, or nothing.
pub open spec fn answer(outcome: Result<SpecTerm, EvalError>) -> Option<SpecTerm> {
    match outcome {
        Ok(term) => Some(term),
        Err(_) => None,
    }
}

/// The value of an optional term.
pub open spec fn answer_view(answer: Option<Term>) -> Option<SpecTerm> {
    match answer {
        Some(term) => Some(term@),
        None => None,
    }
}

/// Reads a postfix sequence and works out its value, or `None` where
/// [`evaluate`] reports an error.
pub fn evaluate_postfix(expr: &Vec<Token>) -> (result: Option<Term>)
    ensures
        answer_view(result) == answer(evaluation(tokens_view(expr@))),
{
    match evaluate(expr) {
        Ok(term) => Some(term),
        Err(_) => None,
    }
}

/// Works out the value of an infix expression, or `None` where its postfix
/// sequence has none.
pub fn evaluate_infix_expr(expr: &String) -> (result: Option<Term>)
    ensures
        answer_view(result) == answer(evaluation(postfix_of(expr@))),
{
    evaluate_postfix(&infix_to_postfix(expr))
}

} // verus!
