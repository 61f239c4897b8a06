//! Reading back what was written: a term written out with every operator
//! application in its own pair of brackets converts to its postfix form, and
//! its postfix form evaluates to the term.

use vstd::prelude::*;
use crate::convert::{finish, flush, postfix_of, resolve, scan, start, step, Scan};
use crate::evaluate::{apply_token, evaluation, implicit_product, reduce, EvalError};
use crate::operator::{
    constant_of_char, is_numeric_char, operator_of_char, Bracket, Constant, OneInOperator,
    Operator, TwoInOperator,
};
use crate::operator_stack::{
    enclosed_count, popped_by_push, stack_after_push, top_run, yielding_count,
};
use crate::term::SpecTerm;
use crate::token::{operator_tokens, SpecNumber, SpecToken};

verus! {

/// The character that writes a unary operator.
pub open spec fn unary_char(op: OneInOperator) -> char {
    match op {
        OneInOperator::SquareRoot => '√',
        OneInOperator::Negative => '-',
    }
}

/// The character that writes a binary operator.
pub open spec fn binary_char(op: TwoInOperator) -> char {
    match op {
        TwoInOperator::Add => '+',
        TwoInOperator::Subtract => '-',
        TwoInOperator::Multiply => '×',
        TwoInOperator::Divide => '÷',
        TwoInOperator::Power => '^',
    }
}

/// The character that writes a constant.
pub open spec fn constant_char(constant: Constant) -> char {
    match constant {
        Constant::E => 'e',
        Constant::Pi => 'π',
    }
}

/// A number as it is written: a literal by its characters, a constant by
/// its symbol.
pub open spec fn number_text(number: SpecNumber) -> Seq<char> {
    match number {
        SpecNumber::Literal(text) => text,
        SpecNumber::Constant(constant) => seq![constant_char(constant)],
    }
}

/// A term written out in full brackets: a number stands bare, and every
/// application, unary or binary, stands in a pair of brackets of its own.
pub open spec fn bracketed(term: SpecTerm) -> Seq<char>
    decreases term,
{
    match term {
        SpecTerm::Number(number) => number_text(number),
        SpecTerm::Unary(op, operand) => seq!['(', unary_char(op)] + bracketed(*operand) + seq![')'],
        SpecTerm::Binary(op, left, right) => seq!['('] + bracketed(*left) + seq![binary_char(op)]
            + bracketed(*right) + seq![')'],
    }
}

/// A term in postfix: operands first, left before right, then the operator.
pub open spec fn flattened(term: SpecTerm) -> Seq<SpecToken>
    decreases term,
{
    match term {
        SpecTerm::Number(number) => seq![SpecToken::Number(number)],
        SpecTerm::Unary(op, operand) => flattened(*operand).push(
            SpecToken::Operator(Operator::OneInOperator(op)),
        ),
        SpecTerm::Binary(op, left, right) => (flattened(*left) + flattened(*right)).push(
            SpecToken::Operator(Operator::TwoInOperator(op)),
        ),
    }
}

/// The terms whose bracketed form the scanner reads as written.
///
/// Every literal is a non-empty run of digits and decimal points. The left
/// operand of a subtraction is a bare number: a `-` that follows a close
/// bracket is read as a negation, so a subtraction from a bracketed operand
/// cannot be written at all.
pub open spec fn readable(term: SpecTerm) -> bool
    decreases term,
{
    match term {
        SpecTerm::Number(number) => number.well_formed(),
        SpecTerm::Unary(_, operand) => readable(*operand),
        SpecTerm::Binary(op, left, right) => {
            &&& readable(*left)
            &&& readable(*right)
            &&& op == TwoInOperator::Subtract ==> *left is Number
        },
    }
}

/// The scan state once the bracketed form of `term` has been read from
/// `state`: a literal is still in the buffer, a constant has been emitted,
/// and an application has been emitted whole with the stack as it was.
pub open spec fn after_term(state: Scan, term: SpecTerm) -> Scan {
    match term {
        SpecTerm::Number(SpecNumber::Literal(text)) => Scan {
            buffer: state.buffer + text,
            after_operator: false,
            ..state
        },
        SpecTerm::Number(SpecNumber::Constant(constant)) => Scan {
            output: state.output.push(SpecToken::Number(SpecNumber::Constant(constant))),
            after_operator: false,
            ..state
        },
        _ => Scan {
            output: state.output + flattened(term),
            stack: state.stack,
            buffer: Seq::empty(),
            after_operator: true,
        },
    }
}

/// Reading a run starts with reading its first character.
pub proof fn lemma_scan_one(state: Scan, ch: char, rest: Seq<char>)
    ensures
        scan(state, seq![ch] + rest) == scan(step(state, ch), rest),
{
    let chars = seq![ch] + rest;
    assert(chars.first() == ch);
    assert(chars.drop_first() =~= rest);
}

proof fn lemma_scan_numeric_run(state: Scan, text: Seq<char>, rest: Seq<char>)
    requires
        text.len() > 0,
        forall|i: int| 0 <= i < text.len() ==> is_numeric_char(#[trigger] text[i]),
    ensures
        scan(state, text + rest) == scan(
            Scan { buffer: state.buffer + text, after_operator: false, ..state },
            rest,
        ),
    decreases text.len(),
{
    let head = text.first();
    let tail = text.drop_first();
    assert(is_numeric_char(text[0]));
    assert(text + rest =~= seq![head] + (tail + rest));
    lemma_scan_one(state, head, tail + rest);
    let next = step(state, head);
    if tail.len() == 0 {
        assert(tail + rest =~= rest);
        assert(state.buffer.push(head) =~= state.buffer + text);
    } else {
        assert forall|i: int| 0 <= i < tail.len() implies is_numeric_char(#[trigger] tail[i]) by {
            assert(tail[i] == text[i + 1]);
        }
        lemma_scan_numeric_run(next, tail, rest);
        assert(next.buffer + tail =~= state.buffer + text);
    }
}

/// Reading a close bracket when the stack holds the matching open bracket
/// with one operator above it: the operator is emitted and both leave.
proof fn lemma_close_over_one(state: Scan, below: Seq<Operator>, op: Operator)
    requires
        !op.is_open_bracket(),
        flush(state).stack == below.push(Operator::Bracket(Bracket::Open)).push(op),
    ensures
        step(state, ')') == (Scan {
            output: flush(state).output.push(SpecToken::Operator(op)),
            stack: below,
            buffer: Seq::empty(),
            after_operator: true,
        }),
{
    let flushed = flush(state);
    let stack = flushed.stack;
    let close = Operator::Bracket(Bracket::Close);
    assert(operator_of_char(')') == Some(close));
    assert(resolve(close, state.after_operator) == close);
    assert(stack.drop_last() =~= below.push(Operator::Bracket(Bracket::Open)));
    assert(stack.drop_last().last().is_open_bracket());
    assert(enclosed_count(stack.drop_last()) == 0);
    assert(enclosed_count(stack) == 1);
    assert(popped_by_push(stack, close) =~= seq![op]);
    assert(stack_after_push(stack, close) =~= below);
    assert(flushed.output + operator_tokens(seq![op]) =~= flushed.output.push(
        SpecToken::Operator(op),
    ));
}

/// Reading an operator character that resolves to `op`, unary or binary,
/// right after an open bracket or its left operand: nothing is popped, the
/// operator goes on the stack.
proof fn lemma_operator_over_open(state: Scan, ch: char, op: Operator)
    requires
        !is_numeric_char(ch),
        operator_of_char(ch) is Some,
        resolve(operator_of_char(ch)->0, state.after_operator) == op,
        op is OneInOperator || op is TwoInOperator,
        flush(state).stack.len() > 0,
        flush(state).stack.last().is_open_bracket(),
    ensures
        step(state, ch) == (Scan {
            output: flush(state).output,
            stack: flush(state).stack.push(op),
            buffer: Seq::empty(),
            after_operator: true,
        }),
{
    let flushed = flush(state);
    let stack = flushed.stack;
    assert(stack.last().priority() == 0);
    assert(op.priority() >= 1);
    assert(yielding_count(stack, op.priority()) == 0);
    assert(popped_by_push(stack, op) =~= Seq::empty());
    assert(stack_after_push(stack, op) =~= stack.push(op));
    assert(flushed.output + operator_tokens(Seq::<Operator>::empty()) =~= flushed.output);
}

proof fn lemma_open_bracket(state: Scan)
    requires
        state.buffer.len() == 0,
    ensures
        step(state, '(') == (Scan {
            output: state.output,
            stack: state.stack.push(Operator::Bracket(Bracket::Open)),
            buffer: Seq::empty(),
            after_operator: true,
        }),
{
    let open = Operator::Bracket(Bracket::Open);
    assert(operator_of_char('(') == Some(open));
    assert(resolve(open, state.after_operator) == open);
    assert(popped_by_push(state.stack, open) =~= Seq::empty());
    assert(state.output + operator_tokens(Seq::<Operator>::empty()) =~= state.output);
    assert(state.buffer =~= Seq::empty());
}

/// What is known of the state after a readable term, whatever its shape.
pub proof fn lemma_after_term_flushed(state: Scan, term: SpecTerm)
    requires
        readable(term),
        state.buffer.len() == 0,
    ensures
        flush(after_term(state, term)).output == state.output + flattened(term),
        flush(after_term(state, term)).stack == state.stack,
        after_term(state, term).stack == state.stack,
        after_term(state, term).after_operator == !(term is Number),
{
    match term {
        SpecTerm::Number(SpecNumber::Literal(text)) => {
            assert(state.buffer + text =~= text);
            assert(state.output.push(SpecToken::Number(SpecNumber::Literal(text)))
                =~= state.output + flattened(term));
        },
        SpecTerm::Number(SpecNumber::Constant(constant)) => {
            assert(state.output.push(SpecToken::Number(SpecNumber::Constant(constant)))
                =~= state.output + flattened(term));
        },
        _ => {},
    }
}

/// The state inside a pair of brackets opened from `state`, once the
/// operator `op` of the application has been read and `emitted` is the
/// output so far.
pub open spec fn inside(state: Scan, emitted: Seq<SpecToken>, op: Operator) -> Scan {
    Scan {
        output: emitted,
        stack: state.stack.push(Operator::Bracket(Bracket::Open)).push(op),
        buffer: Seq::empty(),
        after_operator: true,
    }
}

/// The state right after an open bracket read from `state`.
pub open spec fn opened(state: Scan) -> Scan {
    Scan {
        output: state.output,
        stack: state.stack.push(Operator::Bracket(Bracket::Open)),
        buffer: Seq::empty(),
        after_operator: true,
    }
}

proof fn lemma_enter_unary(state: Scan, op: OneInOperator, tail: Seq<char>)
    requires
        state.buffer.len() == 0,
    ensures
        scan(state, seq!['(', unary_char(op)] + tail) == scan(
            inside(state, state.output, Operator::OneInOperator(op)),
            tail,
        ),
{
    let uc = unary_char(op);
    assert(seq!['(', uc] + tail =~= seq!['('] + (seq![uc] + tail));
    lemma_scan_one(state, '(', seq![uc] + tail);
    lemma_open_bracket(state);
    let s1 = step(state, '(');
    lemma_scan_one(s1, uc, tail);
    assert(!is_numeric_char(uc));
    assert(resolve(operator_of_char(uc)->0, s1.after_operator) == Operator::OneInOperator(op));
    lemma_operator_over_open(s1, uc, Operator::OneInOperator(op));
}

proof fn lemma_enter_binary(state: Scan, tail: Seq<char>)
    requires
        state.buffer.len() == 0,
    ensures
        scan(state, seq!['('] + tail) == scan(opened(state), tail),
{
    lemma_scan_one(state, '(', tail);
    lemma_open_bracket(state);
}

proof fn lemma_binary_operator(
    state: Scan,
    before: Scan,
    emitted: Seq<SpecToken>,
    op: TwoInOperator,
    tail: Seq<char>,
)
    requires
        flush(before).output == emitted,
        flush(before).stack == opened(state).stack,
        op == TwoInOperator::Subtract ==> !before.after_operator,
    ensures
        scan(before, seq![binary_char(op)] + tail) == scan(
            inside(state, emitted, Operator::TwoInOperator(op)),
            tail,
        ),
{
    let bc = binary_char(op);
    lemma_scan_one(before, bc, tail);
    assert(!is_numeric_char(bc));
    assert(operator_of_char(bc) == Some(Operator::TwoInOperator(op)));
    assert(resolve(Operator::TwoInOperator(op), before.after_operator)
        == Operator::TwoInOperator(op));
    lemma_operator_over_open(before, bc, Operator::TwoInOperator(op));
}

proof fn lemma_leave(
    state: Scan,
    before: Scan,
    emitted: Seq<SpecToken>,
    op: Operator,
    rest: Seq<char>,
)
    requires
        !op.is_open_bracket(),
        flush(before).output == emitted,
        flush(before).stack == inside(state, emitted, op).stack,
    ensures
        scan(before, seq![')'] + rest) == scan(
            Scan {
                output: emitted.push(SpecToken::Operator(op)),
                stack: state.stack,
                buffer: Seq::empty(),
                after_operator: true,
            },
            rest,
        ),
{
    lemma_scan_one(before, ')', rest);
    lemma_close_over_one(before, state.stack, op);
}

proof fn lemma_scan_unary(state: Scan, op: OneInOperator, operand: SpecTerm, rest: Seq<char>)
    requires
        readable(operand),
        state.buffer.len() == 0,
        forall|from: Scan, tail: Seq<char>|
            from.buffer.len() == 0 ==> #[trigger] scan(from, bracketed(operand) + tail) == scan(
                after_term(from, operand),
                tail,
            ),
    ensures
        scan(state, bracketed(SpecTerm::Unary(op, Box::new(operand))) + rest) == scan(
            after_term(state, SpecTerm::Unary(op, Box::new(operand))),
            rest,
        ),
{
    let term = SpecTerm::Unary(op, Box::new(operand));
    let wrapped = Operator::OneInOperator(op);
    let closing = seq![')'] + rest;
    assert(bracketed(term) + rest =~= seq!['(', unary_char(op)] + (bracketed(operand) + closing));
    lemma_enter_unary(state, op, bracketed(operand) + closing);
    let s2 = inside(state, state.output, wrapped);
    let s3 = after_term(s2, operand);
    lemma_after_term_flushed(s2, operand);
    let emitted = state.output + flattened(operand);
    lemma_leave(state, s3, emitted, wrapped, rest);
    assert(emitted.push(SpecToken::Operator(wrapped)) =~= state.output + flattened(term));
}

proof fn lemma_scan_binary(
    state: Scan,
    op: TwoInOperator,
    left: SpecTerm,
    right: SpecTerm,
    rest: Seq<char>,
)
    requires
        readable(left),
        readable(right),
        op == TwoInOperator::Subtract ==> left is Number,
        state.buffer.len() == 0,
        forall|from: Scan, tail: Seq<char>|
            from.buffer.len() == 0 ==> #[trigger] scan(from, bracketed(left) + tail) == scan(
                after_term(from, left),
                tail,
            ),
        forall|from: Scan, tail: Seq<char>|
            from.buffer.len() == 0 ==> #[trigger] scan(from, bracketed(right) + tail) == scan(
                after_term(from, right),
                tail,
            ),
    ensures
        scan(state, bracketed(SpecTerm::Binary(op, Box::new(left), Box::new(right))) + rest)
            == scan(
            after_term(state, SpecTerm::Binary(op, Box::new(left), Box::new(right))),
            rest,
        ),
{
    let term = SpecTerm::Binary(op, Box::new(left), Box::new(right));
    let wrapped = Operator::TwoInOperator(op);
    let closing = seq![')'] + rest;
    let second = bracketed(right) + closing;
    let middle = seq![binary_char(op)] + second;
    assert(bracketed(term) + rest =~= seq!['('] + (bracketed(left) + middle));
    lemma_enter_binary(state, bracketed(left) + middle);
    let s1 = opened(state);
    let s2 = after_term(s1, left);
    lemma_after_term_flushed(s1, left);
    let half = state.output + flattened(left);
    lemma_binary_operator(state, s2, half, op, second);
    let s3 = inside(state, half, wrapped);
    let s4 = after_term(s3, right);
    lemma_after_term_flushed(s3, right);
    let emitted = half + flattened(right);
    lemma_leave(state, s4, emitted, wrapped, rest);
    assert(emitted.push(SpecToken::Operator(wrapped)) =~= state.output + flattened(term));
}

/// The scanner reads the bracketed form of a readable term as one unit: it
/// emits the term's postfix form and leaves the operator stack as it found
/// it.
pub proof fn lemma_scan_bracketed(state: Scan, term: SpecTerm, rest: Seq<char>)
    requires
        readable(term),
        state.buffer.len() == 0,
    ensures
        scan(state, bracketed(term) + rest) == scan(after_term(state, term), rest),
    decreases term,
{
    match term {
        SpecTerm::Number(SpecNumber::Literal(text)) => {
            lemma_scan_numeric_run(state, text, rest);
        },
        SpecTerm::Number(SpecNumber::Constant(constant)) => {
            let ch = constant_char(constant);
            lemma_scan_one(state, ch, rest);
            assert(!is_numeric_char(ch));
            assert(operator_of_char(ch) is None);
            assert(constant_of_char(ch) == Some(constant));
            assert(step(state, ch) == after_term(state, term));
        },
        SpecTerm::Unary(op, operand) => {
            assert forall|from: Scan, tail: Seq<char>| from.buffer.len() == 0 implies #[trigger] scan(
                from,
                bracketed(*operand) + tail,
            ) == scan(after_term(from, *operand), tail) by {
                lemma_scan_bracketed(from, *operand, tail);
            }
            lemma_scan_unary(state, op, *operand, rest);
        },
        SpecTerm::Binary(op, left, right) => {
            assert forall|from: Scan, tail: Seq<char>| from.buffer.len() == 0 implies #[trigger] scan(
                from,
                bracketed(*left) + tail,
            ) == scan(after_term(from, *left), tail) by {
                lemma_scan_bracketed(from, *left, tail);
            }
            assert forall|from: Scan, tail: Seq<char>| from.buffer.len() == 0 implies #[trigger] scan(
                from,
                bracketed(*right) + tail,
            ) == scan(after_term(from, *right), tail) by {
                lemma_scan_bracketed(from, *right, tail);
            }
            lemma_scan_binary(state, op, *left, *right, rest);
        },
    }
}

/// The converter turns the bracketed form of a readable term into the
/// term's postfix form.
pub proof fn lemma_postfix_of_bracketed(term: SpecTerm)
    requires
        readable(term),
    ensures
        postfix_of(bracketed(term)) == flattened(term),
{
    let rest = Seq::<char>::empty();
    lemma_scan_bracketed(start(), term, rest);
    assert(bracketed(term) + rest =~= bracketed(term));
    lemma_after_term_flushed(start(), term);
    let end = after_term(start(), term);
    assert(scan(end, rest) == end);
    assert(top_run(end.stack, end.stack.len()) =~= Seq::empty());
    assert(finish(end) =~= flattened(term));
}

/// Reducing a term's postfix form pushes the term on the value stack,
/// whatever follows and whatever the stack holds.
pub proof fn lemma_reduce_flattened(values: Seq<SpecTerm>, term: SpecTerm, rest: Seq<SpecToken>)
    ensures
        reduce(values, flattened(term) + rest) == reduce(values.push(term), rest),
    decreases term,
{
    match term {
        SpecTerm::Number(number) => {
            let tokens = flattened(term) + rest;
            assert(tokens.first() == SpecToken::Number(number));
            assert(tokens.drop_first() =~= rest);
        },
        SpecTerm::Unary(op, operand) => {
            let token = SpecToken::Operator(Operator::OneInOperator(op));
            let tail = seq![token] + rest;
            assert(flattened(term) + rest =~= flattened(*operand) + tail);
            lemma_reduce_flattened(values, *operand, tail);
            let pushed = values.push(*operand);
            assert(tail.first() == token);
            assert(tail.drop_first() =~= rest);
            assert(pushed.drop_last() =~= values);
            assert(apply_token(pushed, token) == Ok::<Seq<SpecTerm>, EvalError>(
                values.push(term),
            ));
        },
        SpecTerm::Binary(op, left, right) => {
            let token = SpecToken::Operator(Operator::TwoInOperator(op));
            let tail = seq![token] + rest;
            assert(flattened(term) + rest =~= flattened(*left) + (flattened(*right) + tail));
            lemma_reduce_flattened(values, *left, flattened(*right) + tail);
            lemma_reduce_flattened(values.push(*left), *right, tail);
            let pushed = values.push(*left).push(*right);
            assert(tail.first() == token);
            assert(tail.drop_first() =~= rest);
            assert(pushed.take(pushed.len() - 2) =~= values);
            assert(apply_token(pushed, token) == Ok::<Seq<SpecTerm>, EvalError>(
                values.push(term),
            ));
        },
    }
}

/// Evaluating the postfix form of any term gives the term back.
pub proof fn lemma_evaluation_of_flattened(term: SpecTerm)
    ensures
        evaluation(flattened(term)) == Ok::<SpecTerm, EvalError>(term),
{
    let none = Seq::<SpecToken>::empty();
    let values = Seq::<SpecTerm>::empty();
    lemma_reduce_flattened(values, term, none);
    assert(flattened(term) + none =~= flattened(term));
    assert(reduce(values.push(term), none) == Ok::<Seq<SpecTerm>, EvalError>(values.push(term)));
    assert(implicit_product(values.push(term)) == term);
}

/// A fully bracketed expression evaluates to the term it writes: converting
/// the bracketed form of a readable term and evaluating the result applies
/// each operator to exactly the operands that its brackets enclose.
pub proof fn lemma_bracketed_round_trip(term: SpecTerm)
    requires
        readable(term),
    ensures
        evaluation(postfix_of(bracketed(term))) == Ok::<SpecTerm, EvalError>(term),
{
    lemma_postfix_of_bracketed(term);
    lemma_evaluation_of_flattened(term);
}

} // verus!
