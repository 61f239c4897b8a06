//! What becomes of brackets: a postfix sequence never holds a close bracket,
//! it holds no bracket at all when every open bracket of the expression was
//! closed, and an expression that leaves a bracket open has no value.

use vstd::prelude::*;
use crate::convert::{finish, flush, postfix_of, resolve, scan, start, step, Scan};
use crate::evaluate::{apply_token, evaluation, reduce, EvalError};
use crate::operator::{is_numeric_char, operator_of_char, Bracket, Operator};
use crate::operator_stack::{
    enclosed_count, popped_by_push, stack_after_push, top_run, yielding_count,
};
use crate::term::SpecTerm;
use crate::token::{operator_tokens, SpecToken};

verus! {

/// Whether a token is a bracket.
pub open spec fn is_bracket_token(token: SpecToken) -> bool {
    token matches SpecToken::Operator(Operator::Bracket(_))
}

/// Whether no token of a sequence is a bracket.
pub open spec fn bracket_free(tokens: Seq<SpecToken>) -> bool {
    forall|i: int| 0 <= i < tokens.len() ==> !is_bracket_token(#[trigger] tokens[i])
}

/// The number of brackets that stand open after one more character. A close
/// bracket that closes nothing leaves none open.
pub open spec fn depth_after(depth: nat, ch: char) -> nat {
    if ch == '(' {
        depth + 1
    } else if ch == ')' && depth > 0 {
        (depth - 1) as nat
    } else {
        depth
    }
}

/// The number of brackets that stand open after a run of characters, read
/// left to right with `depth` of them open at its start.
pub open spec fn open_depth(depth: nat, chars: Seq<char>) -> nat
    decreases chars.len(),
{
    if chars.len() == 0 {
        depth
    } else {
        open_depth(depth_after(depth, chars.first()), chars.drop_first())
    }
}

/// The number of open brackets on a stack.
pub open spec fn open_count(stack: Seq<Operator>) -> nat
    decreases stack.len(),
{
    if stack.len() == 0 {
        0
    } else if stack.last().is_open_bracket() {
        open_count(stack.drop_last()) + 1
    } else {
        open_count(stack.drop_last())
    }
}

/// What holds of every state of a scan: the stack holds no close bracket,
/// and no bracket has been emitted.
pub open spec fn tidy(state: Scan) -> bool {
    &&& forall|i: int|
        0 <= i < state.stack.len() ==> #[trigger] state.stack[i] != Operator::Bracket(
            Bracket::Close,
        )
    &&& bracket_free(state.output)
}

proof fn lemma_yielding_run(stack: Seq<Operator>, p: int)
    requires
        p >= 1,
    ensures
        yielding_count(stack, p) <= stack.len(),
        forall|i: int|
            stack.len() - yielding_count(stack, p) <= i < stack.len() ==> !(
            #[trigger] stack[i] is Bracket),
        open_count(stack.take(stack.len() - yielding_count(stack, p))) == open_count(stack),
    decreases stack.len(),
{
    if stack.len() > 0 && stack.last().priority() >= p {
        let rest = stack.drop_last();
        lemma_yielding_run(rest, p);
        let n = yielding_count(stack, p);
        assert(rest.take(rest.len() - yielding_count(rest, p)) =~= stack.take(stack.len() - n));
        assert forall|i: int| stack.len() - n <= i < stack.len() implies !(
        #[trigger] stack[i] is Bracket) by {
            if i < stack.len() - 1 {
                assert(stack[i] == rest[i]);
            }
        }
    } else {
        assert(stack.take(stack.len() as int) =~= stack);
    }
}

proof fn lemma_enclosed_run(stack: Seq<Operator>)
    ensures
        enclosed_count(stack) <= stack.len(),
        forall|i: int|
            stack.len() - enclosed_count(stack) <= i < stack.len() ==> !(
            #[trigger] stack[i]).is_open_bracket(),
        open_count(stack.take(stack.len() - enclosed_count(stack))) == open_count(stack),
        stack.len() > enclosed_count(stack) ==> stack[stack.len() - enclosed_count(stack)
            - 1].is_open_bracket(),
        stack.len() == enclosed_count(stack) ==> open_count(stack) == 0,
    decreases stack.len(),
{
    if stack.len() > 0 && !stack.last().is_open_bracket() {
        let rest = stack.drop_last();
        lemma_enclosed_run(rest);
        let n = enclosed_count(stack);
        assert(rest.take(rest.len() - enclosed_count(rest)) =~= stack.take(stack.len() - n));
        assert forall|i: int| stack.len() - n <= i < stack.len() implies !(
        #[trigger] stack[i]).is_open_bracket() by {
            if i < stack.len() - 1 {
                assert(stack[i] == rest[i]);
            }
        }
        if stack.len() > n {
            assert(stack[stack.len() - n - 1] == rest[rest.len() - enclosed_count(rest) - 1]);
        }
    } else {
        assert(stack.take(stack.len() as int) =~= stack);
    }
}

proof fn lemma_no_open_counted(stack: Seq<Operator>)
    requires
        open_count(stack) == 0,
    ensures
        forall|i: int| 0 <= i < stack.len() ==> !(#[trigger] stack[i]).is_open_bracket(),
    decreases stack.len(),
{
    if stack.len() > 0 {
        let rest = stack.drop_last();
        lemma_no_open_counted(rest);
        assert forall|i: int| 0 <= i < stack.len() implies !(
        #[trigger] stack[i]).is_open_bracket() by {
            if i < stack.len() - 1 {
                assert(stack[i] == rest[i]);
            }
        }
    }
}

proof fn lemma_open_is_somewhere(stack: Seq<Operator>) -> (at: int)
    requires
        open_count(stack) > 0,
    ensures
        0 <= at < stack.len(),
        stack[at].is_open_bracket(),
    decreases stack.len(),
{
    if stack.last().is_open_bracket() {
        stack.len() - 1
    } else {
        let at = lemma_open_is_somewhere(stack.drop_last());
        assert(stack[at] == stack.drop_last()[at]);
        at
    }
}

/// A push on a stack without a close bracket pops no bracket, keeps the
/// stack without one, and opens or closes at most one bracket.
proof fn lemma_push_tidy(stack: Seq<Operator>, op: Operator, ch: char, after_operator: bool)
    requires
        forall|i: int| 0 <= i < stack.len() ==> #[trigger] stack[i] != Operator::Bracket(
            Bracket::Close,
        ),
        operator_of_char(ch) is Some,
        op == resolve(operator_of_char(ch)->0, after_operator),
    ensures
        forall|i: int|
            0 <= i < stack_after_push(stack, op).len() ==> #[trigger] stack_after_push(
                stack,
                op,
            )[i] != Operator::Bracket(Bracket::Close),
        bracket_free(operator_tokens(popped_by_push(stack, op))),
        open_count(stack_after_push(stack, op)) == depth_after(open_count(stack), ch),
{
    let after = stack_after_push(stack, op);
    let popped = popped_by_push(stack, op);
    match op {
        Operator::Bracket(Bracket::Open) => {
            assert(ch == '(');
            assert(after.drop_last() =~= stack);
        },
        Operator::Bracket(Bracket::Close) => {
            assert(ch == ')');
            lemma_enclosed_run(stack);
            let n = enclosed_count(stack);
            let kept = stack.len() - n;
            assert forall|i: int| 0 <= i < popped.len() implies !is_bracket_token(
                #[trigger] operator_tokens(popped)[i],
            ) by {
                let j = stack.len() - 1 - i;
                assert(popped[i] == stack[j]);
                assert(!stack[j].is_open_bracket());
                assert(stack[j] != Operator::Bracket(Bracket::Close));
            }
            if kept > 0 {
                let upto = stack.take(kept);
                assert(upto.last().is_open_bracket());
                assert(upto.drop_last() =~= stack.take(kept - 1));
                assert(open_count(upto) == open_count(stack.take(kept - 1)) + 1);
            }
        },
        Operator::OneInOperator(_) => {
            assert(ch != '(' && ch != ')');
            assert(after.drop_last() =~= stack);
        },
        Operator::TwoInOperator(_) => {
            assert(ch != '(' && ch != ')');
            lemma_yielding_run(stack, op.priority());
            let n = yielding_count(stack, op.priority());
            assert forall|i: int| 0 <= i < popped.len() implies !is_bracket_token(
                #[trigger] operator_tokens(popped)[i],
            ) by {
                let j = stack.len() - 1 - i;
                assert(popped[i] == stack[j]);
                assert(!(stack[j] is Bracket));
            }
            assert(after.drop_last() =~= stack.take(stack.len() - n));
        },
    }
}

/// One character keeps a scan tidy and moves the number of open brackets on
/// the stack as it moves the depth of the text.
pub proof fn lemma_step_tidy(state: Scan, ch: char)
    requires
        tidy(state),
    ensures
        tidy(step(state, ch)),
        open_count(step(state, ch).stack) == depth_after(open_count(state.stack), ch),
{
    if !is_numeric_char(ch) {
        let flushed = flush(state);
        assert(bracket_free(flushed.output));
        if operator_of_char(ch) is Some {
            let op = resolve(operator_of_char(ch)->0, state.after_operator);
            lemma_push_tidy(flushed.stack, op, ch, state.after_operator);
            let emitted = operator_tokens(popped_by_push(flushed.stack, op));
            let output = flushed.output + emitted;
            assert forall|i: int| 0 <= i < output.len() implies !is_bracket_token(
                #[trigger] output[i],
            ) by {
                if i < flushed.output.len() {
                    assert(output[i] == flushed.output[i]);
                } else {
                    assert(output[i] == emitted[i - flushed.output.len()]);
                }
            }
        }
    }
}

/// A run of characters keeps a scan tidy, and the stack ends with as many
/// open brackets as the text leaves open.
pub proof fn lemma_scan_tidy(state: Scan, chars: Seq<char>)
    requires
        tidy(state),
    ensures
        tidy(scan(state, chars)),
        open_count(scan(state, chars).stack) == open_depth(open_count(state.stack), chars),
    decreases chars.len(),
{
    if chars.len() > 0 {
        lemma_step_tidy(state, chars.first());
        lemma_scan_tidy(step(state, chars.first()), chars.drop_first());
    }
}

/// No postfix sequence holds a close bracket.
pub proof fn lemma_postfix_has_no_close_bracket(chars: Seq<char>)
    ensures
        forall|i: int|
            0 <= i < postfix_of(chars).len() ==> #[trigger] postfix_of(chars)[i]
                != SpecToken::Operator(Operator::Bracket(Bracket::Close)),
{
    let end = scan(start(), chars);
    lemma_scan_tidy(start(), chars);
    let head = flush(end).output;
    let tail = operator_tokens(top_run(end.stack, end.stack.len()));
    assert(bracket_free(head));
    assert forall|i: int| 0 <= i < postfix_of(chars).len() implies #[trigger] postfix_of(
        chars,
    )[i] != SpecToken::Operator(Operator::Bracket(Bracket::Close)) by {
        if i < head.len() {
            assert(postfix_of(chars)[i] == head[i]);
            assert(!is_bracket_token(head[i]));
        } else {
            let j = i - head.len();
            assert(postfix_of(chars)[i] == tail[j]);
            assert(tail[j] == SpecToken::Operator(end.stack[end.stack.len() - 1 - j]));
        }
    }
}

/// The brackets of an expression are resolved by its conversion: where every
/// open bracket is closed by the end of the text, the postfix sequence
/// holds no bracket.
pub proof fn lemma_balanced_postfix_is_bracket_free(chars: Seq<char>)
    requires
        open_depth(0, chars) == 0,
    ensures
        bracket_free(postfix_of(chars)),
{
    let end = scan(start(), chars);
    lemma_scan_tidy(start(), chars);
    lemma_no_open_counted(end.stack);
    let head = flush(end).output;
    let tail = operator_tokens(top_run(end.stack, end.stack.len()));
    assert(bracket_free(head));
    assert forall|i: int| 0 <= i < postfix_of(chars).len() implies !is_bracket_token(
        #[trigger] postfix_of(chars)[i],
    ) by {
        if i < head.len() {
            assert(postfix_of(chars)[i] == head[i]);
        } else {
            let j = i - head.len();
            let k = end.stack.len() - 1 - j;
            assert(postfix_of(chars)[i] == tail[j]);
            assert(tail[j] == SpecToken::Operator(end.stack[k]));
            assert(!end.stack[k].is_open_bracket());
            assert(end.stack[k] != Operator::Bracket(Bracket::Close));
        }
    }
}

/// A sequence that holds a bracket has no value: the evaluator stops at the
/// bracket at the latest, and every stop of the reduction is an underflow.
pub proof fn lemma_bracket_underflows(values: Seq<SpecTerm>, tokens: Seq<SpecToken>, at: int)
    requires
        0 <= at < tokens.len(),
        is_bracket_token(tokens[at]),
    ensures
        reduce(values, tokens) == Err::<Seq<SpecTerm>, EvalError>(EvalError::StackUnderflow),
    decreases tokens.len(),
{
    if at > 0 {
        match apply_token(values, tokens.first()) {
            Ok(next) => {
                assert(tokens.drop_first()[at - 1] == tokens[at]);
                lemma_bracket_underflows(next, tokens.drop_first(), at - 1);
            },
            Err(_) => {},
        }
    }
}

/// An expression that leaves a bracket open has no value: its conversion
/// keeps the open bracket, and the evaluator reports an underflow.
pub proof fn lemma_open_bracket_has_no_value(chars: Seq<char>)
    requires
        open_depth(0, chars) > 0,
    ensures
        evaluation(postfix_of(chars)) == Err::<SpecTerm, EvalError>(EvalError::StackUnderflow),
{
    let end = scan(start(), chars);
    lemma_scan_tidy(start(), chars);
    let k = lemma_open_is_somewhere(end.stack);
    let head = flush(end).output;
    let tail = operator_tokens(top_run(end.stack, end.stack.len()));
    let j = end.stack.len() - 1 - k;
    let at = head.len() + j;
    assert(finish(end) == head + tail);
    assert(postfix_of(chars)[at] == tail[j]);
    assert(tail[j] == SpecToken::Operator(end.stack[k]));
    lemma_bracket_underflows(Seq::empty(), postfix_of(chars), at);
}

} // verus!
