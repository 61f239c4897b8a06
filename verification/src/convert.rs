//! The infix-to-postfix converter: one left-to-right scan with an operator
//! stack.
//!
//! What the scan does is stated as a state machine over characters. Its
//! state is the output so far, the operator stack, the numeric literal that
//! is being read, and whether the last thing read was an operator.

use vstd::prelude::*;
use crate::operator::{
    char_to_operator, char_to_value, constant_of_char, is_numeric, is_numeric_char,
    operator_of_char, OneInOperator, Operator, TwoInOperator,
};
use crate::operator_stack::{popped_by_push, stack_after_push, top_run, OperatorStack};
use crate::token::{operator_tokens, tokens_view, Number, SpecNumber, SpecToken, Token};

verus! {

/// The state of a scan between two characters.
pub struct Scan {
    /// The tokens emitted so far.
    pub output: Seq<SpecToken>,
    /// The operators read but not yet emitted, bottom first.
    pub stack: Seq<Operator>,
    /// The digits and decimal points of a literal that has not ended yet.
    pub buffer: Seq<char>,
    /// Whether nothing has been read yet or the last thing read was an
    /// operator or a bracket: a `-` read in this state negates.
    pub after_operator: bool,
}

/// The state before the first character.
pub open spec fn start() -> Scan {
    Scan { output: Seq::empty(), stack: Seq::empty(), buffer: Seq::empty(), after_operator: true }
}

/// Ends the literal that is being read, if any, and emits it.
pub open spec fn flush(state: Scan) -> Scan {
    if state.buffer.len() > 0 {
        Scan {
            output: state.output.push(SpecToken::Number(SpecNumber::Literal(state.buffer))),
            buffer: Seq::empty(),
            ..state
        }
    } else {
        state
    }
}

/// The operator that an operator character means where it stands: a
/// subtraction sign that follows an operator, a bracket or nothing is a
/// negation, and every other operator is itself.
pub open spec fn resolve(op: Operator, after_operator: bool) -> Operator {
    if after_operator && op == Operator::TwoInOperator(TwoInOperator::Subtract) {
        Operator::OneInOperator(OneInOperator::Negative)
    } else {
        op
    }
}

/// The state after one more character.
///
/// A digit or decimal point extends the literal. Any other character ends
/// it. An operator character is then pushed on the stack, and what the push
/// pops is emitted; a constant is emitted as a number; a character that is
/// neither is dropped.
pub open spec fn step(state: Scan, ch: char) -> Scan {
    if is_numeric_char(ch) {
        Scan { buffer: state.buffer.push(ch), after_operator: false, ..state }
    } else {
        let flushed = flush(state);
        match operator_of_char(ch) {
            Some(op) => {
                let resolved = resolve(op, state.after_operator);
                Scan {
                    output: flushed.output + operator_tokens(
                        popped_by_push(flushed.stack, resolved),
                    ),
                    stack: stack_after_push(flushed.stack, resolved),
                    buffer: Seq::empty(),
                    after_operator: true,
                }
            },
            None => match constant_of_char(ch) {
                Some(constant) => Scan {
                    output: flushed.output.push(
                        SpecToken::Number(SpecNumber::Constant(constant)),
                    ),
                    after_operator: false,
                    ..flushed
                },
                None => flushed,
            },
        }
    }
}

/// The state after a run of characters, read left to right.
pub open spec fn scan(state: Scan, chars: Seq<char>) -> Scan
    decreases chars.len(),
{
    if chars.len() == 0 {
        state
    } else {
        scan(step(state, chars.first()), chars.drop_first())
    }
}

/// The output once the input has ended: the pending literal is emitted, then
/// the operators left on the stack, the top first.
pub open spec fn finish(state: Scan) -> Seq<SpecToken> {
    flush(state).output + operator_tokens(top_run(state.stack, state.stack.len()))
}

/// The postfix sequence of an infix expression.
pub open spec fn postfix_of(chars: Seq<char>) -> Seq<SpecToken> {
    finish(scan(start(), chars))
}

/// Conversion keeps no state between calls: the postfix sequence depends on
/// the characters of the expression and on nothing else, so expressions that
/// agree character by character convert to the same sequence.
pub proof fn lemma_conversion_repeats(first: Seq<char>, second: Seq<char>)
    requires
        first.len() == second.len(),
        forall|i: int| 0 <= i < first.len() ==> first[i] == second[i],
    ensures
        postfix_of(first) == postfix_of(second),
{
    assert(first =~= second);
}

/// The empty expression converts to the empty sequence.
pub proof fn lemma_postfix_of_nothing()
    ensures
        postfix_of(Seq::empty()) == Seq::<SpecToken>::empty(),
{
    let end = scan(start(), Seq::empty());
    assert(end == start());
    assert(top_run(end.stack, end.stack.len()) =~= Seq::empty());
    assert(finish(end) =~= Seq::empty());
}

/// Appends operators to a token sequence, in their order.
fn emit_operators(output: &mut Vec<Token>, ops: &Vec<Operator>)
    ensures
        tokens_view(final(output)@) == tokens_view(old(output)@) + operator_tokens(ops@),
{
    let ghost before: Seq<SpecToken> = tokens_view(output@);
    let mut i: usize = 0;
    assert(tokens_view(output@) =~= before + operator_tokens(ops@.take(0)));
    while i < ops.len()
        invariant
            i <= ops.len(),
            tokens_view(output@) == before + operator_tokens(ops@.take(i as int)),
        decreases ops.len() - i,
    {
        let ghost emitted: Seq<SpecToken> = tokens_view(output@);
        output.push(Token::Operator(ops[i]));
        i += 1;
        proof {
            assert(tokens_view(output@) =~= emitted.push(SpecToken::Operator(ops@[i - 1])));
            assert(operator_tokens(ops@.take(i as int)) =~= operator_tokens(
                ops@.take(i - 1),
            ).push(SpecToken::Operator(ops@[i - 1])));
            assert(tokens_view(output@) =~= before + operator_tokens(ops@.take(i as int)));
        }
    }
    assert(ops@.take(i as int) =~= ops@);
}

/// Emits the literal held in `buffer`, if there is one, and empties the
/// buffer.
fn emit_literal(output: &mut Vec<Token>, buffer: &mut Vec<char>)
    ensures
        final(buffer)@ == Seq::<char>::empty(),
        old(buffer)@.len() > 0 ==> tokens_view(final(output)@) == tokens_view(old(output)@).push(
            SpecToken::Number(SpecNumber::Literal(old(buffer)@)),
        ),
        old(buffer)@.len() == 0 ==> tokens_view(final(output)@) == tokens_view(old(output)@),
{
    if buffer.len() > 0 {
        let ghost before: Seq<SpecToken> = tokens_view(output@);
        let ghost text: Seq<char> = buffer@;
        let mut literal: Vec<char> = Vec::new();
        std::mem::swap(&mut literal, buffer);
        output.push(Token::Number(Number::Literal(literal)));
        assert(tokens_view(output@) =~= before.push(
            SpecToken::Number(SpecNumber::Literal(text)),
        ));
    }
}

/// Converts an infix expression to postfix.
///
/// The expression is taken to hold no spaces. Every input has a postfix
/// sequence; one that is not a well-formed expression has one that the
/// evaluator rejects or reads in its own way.
pub fn infix_to_postfix(expr: &String) -> (output: Vec<Token>)
    ensures
        tokens_view(output@) == postfix_of(expr@),
{
    let mut output: Vec<Token> = Vec::new();
    let mut operator_stack: OperatorStack = OperatorStack::new();
    let mut numerics_buffer: Vec<char> = Vec::new();
    // Tells a subtraction from a negation.
    let mut prev_token_is_op: bool = true;

    assert(tokens_view(output@) =~= Seq::empty());
    assert(expr@.skip(0) =~= expr@);
    for ch in it: expr.as_str().chars()
        invariant
            it.seq() == expr@,
            operator_stack.well_formed(),
            scan(start(), expr@) == scan(
                Scan {
                    output: tokens_view(output@),
                    stack: operator_stack@,
                    buffer: numerics_buffer@,
                    after_operator: prev_token_is_op,
                },
                expr@.skip(it.index()),
            ),
    {
        let ghost state = Scan {
            output: tokens_view(output@),
            stack: operator_stack@,
            buffer: numerics_buffer@,
            after_operator: prev_token_is_op,
        };
        proof {
            assert(expr@.skip(it.index()).first() == ch);
            assert(expr@.skip(it.index()).drop_first() =~= expr@.skip(it.index() + 1));
        }
        if is_numeric(ch) {
            numerics_buffer.push(ch);
            prev_token_is_op = false;
        } else {
            emit_literal(&mut output, &mut numerics_buffer);
            match char_to_operator(&ch) {
                Some(op) => {
                    let resolved: Operator = match op {
                        Operator::TwoInOperator(TwoInOperator::Subtract) => {
                            if prev_token_is_op {
                                Operator::OneInOperator(OneInOperator::Negative)
                            } else {
                                op
                            }
                        },
                        _ => op,
                    };
                    let pop_offs: Vec<Operator> = operator_stack.push(resolved);
                    emit_operators(&mut output, &pop_offs);
                    prev_token_is_op = true;
                },
                None => {
                    match char_to_value(&ch) {
                        Some(constant) => {
                            let ghost before: Seq<SpecToken> = tokens_view(output@);
                            output.push(Token::Number(Number::Constant(constant)));
                            assert(tokens_view(output@) =~= before.push(
                                SpecToken::Number(SpecNumber::Constant(constant)),
                            ));
                            prev_token_is_op = false;
                        },
                        None => {},
                    }
                },
            }
        }
        proof {
            let next = step(state, ch);
            assert(tokens_view(output@) =~= next.output);
            assert(operator_stack@ =~= next.stack);
            assert(numerics_buffer@ =~= next.buffer);
            assert(prev_token_is_op == next.after_operator);
        }
    }

    emit_literal(&mut output, &mut numerics_buffer);
    let remaining: Vec<Operator> = operator_stack.drain();
    emit_operators(&mut output, &remaining);
    output
}

} // verus!
