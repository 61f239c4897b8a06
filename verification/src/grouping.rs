//! How operators group when no bracket says so: binary operators by
//! priority and then to the left, unary operators from the inside out, and
//! a `-` that follows an operator as a sign.
//!
//! Each statement is about an expression built from arbitrary numbers and
//! operators, written without brackets, and gives the term it evaluates to.

use vstd::prelude::*;
use crate::convert::{finish, flush, postfix_of, resolve, scan, start, Scan};
use crate::evaluate::{evaluation, EvalError};
use crate::operator::{is_numeric_char, operator_of_char, OneInOperator, Operator, TwoInOperator};
use crate::operator_stack::{popped_by_push, stack_after_push, top_run, yielding_count};
use crate::round_trip::{
    after_term, binary_char, flattened, lemma_after_term_flushed, lemma_evaluation_of_flattened,
    lemma_scan_bracketed, lemma_scan_one, number_text, unary_char,
};
use crate::term::SpecTerm;
use crate::token::{operator_tokens, SpecNumber, SpecToken};

verus! {

/// The state between two tokens of an expression, right after an operator:
/// no literal is being read, and a `-` would negate.
pub open spec fn at_operator(output: Seq<SpecToken>, stack: Seq<Operator>) -> Scan {
    Scan { output, stack, buffer: Seq::empty(), after_operator: true }
}

/// The application of a binary operator to two terms.
pub open spec fn binary(op: TwoInOperator, left: SpecTerm, right: SpecTerm) -> SpecTerm {
    SpecTerm::Binary(op, Box::new(left), Box::new(right))
}

/// The application of a unary operator to a term.
pub open spec fn unary(op: OneInOperator, operand: SpecTerm) -> SpecTerm {
    SpecTerm::Unary(op, Box::new(operand))
}

proof fn lemma_number(state: Scan, number: SpecNumber, rest: Seq<char>) -> (after: Scan)
    requires
        number.well_formed(),
        state.buffer.len() == 0,
    ensures
        scan(state, number_text(number) + rest) == scan(after, rest),
        flush(after).output == state.output.push(SpecToken::Number(number)),
        flush(after).stack == state.stack,
        !after.after_operator,
{
    let term = SpecTerm::Number(number);
    lemma_scan_bracketed(state, term, rest);
    lemma_after_term_flushed(state, term);
    assert(state.output + flattened(term) =~= state.output.push(SpecToken::Number(number)));
    after_term(state, term)
}

proof fn lemma_last_number(state: Scan, number: SpecNumber)
    requires
        number.well_formed(),
        state.buffer.len() == 0,
    ensures
        finish(scan(state, number_text(number))) == state.output.push(SpecToken::Number(number))
            + operator_tokens(top_run(state.stack, state.stack.len())),
{
    let none = Seq::<char>::empty();
    let after = lemma_number(state, number, none);
    assert(number_text(number) + none =~= number_text(number));
    assert(scan(after, none) == after);
    assert(after.stack == flush(after).stack);
}

proof fn lemma_binary_step(before: Scan, op: TwoInOperator, rest: Seq<char>)
    requires
        !before.after_operator,
    ensures
        scan(before, seq![binary_char(op)] + rest) == scan(
            at_operator(
                flush(before).output + operator_tokens(
                    popped_by_push(flush(before).stack, Operator::TwoInOperator(op)),
                ),
                stack_after_push(flush(before).stack, Operator::TwoInOperator(op)),
            ),
            rest,
        ),
{
    let ch = binary_char(op);
    lemma_scan_one(before, ch, rest);
    assert(!is_numeric_char(ch));
    assert(operator_of_char(ch) == Some(Operator::TwoInOperator(op)));
    assert(resolve(Operator::TwoInOperator(op), false) == Operator::TwoInOperator(op));
}

proof fn lemma_unary_step(before: Scan, op: OneInOperator, rest: Seq<char>)
    requires
        before.after_operator,
        before.buffer.len() == 0,
    ensures
        scan(before, seq![unary_char(op)] + rest) == scan(
            at_operator(before.output, before.stack.push(Operator::OneInOperator(op))),
            rest,
        ),
{
    let ch = unary_char(op);
    let wrapped = Operator::OneInOperator(op);
    lemma_scan_one(before, ch, rest);
    assert(!is_numeric_char(ch));
    assert(resolve(operator_of_char(ch)->0, true) == wrapped);
    assert(popped_by_push(before.stack, wrapped) =~= Seq::empty());
    assert(before.output + operator_tokens(Seq::<Operator>::empty()) =~= before.output);
    assert(before.buffer =~= Seq::empty());
}

/// A binary operator that meets a single operator on the stack displaces
/// it unless it binds strictly tighter.
proof fn lemma_push_on_one(below: Operator, op: TwoInOperator)
    requires
        !(below is Bracket),
    ensures
        below.priority() >= op.priority() ==> {
            &&& popped_by_push(seq![below], Operator::TwoInOperator(op)) == seq![below]
            &&& stack_after_push(seq![below], Operator::TwoInOperator(op)) == seq![
                Operator::TwoInOperator(op),
            ]
        },
        below.priority() < op.priority() ==> {
            &&& popped_by_push(seq![below], Operator::TwoInOperator(op)) == Seq::<
                Operator,
            >::empty()
            &&& stack_after_push(seq![below], Operator::TwoInOperator(op)) == seq![
                below,
                Operator::TwoInOperator(op),
            ]
        },
{
    let stack = seq![below];
    let wrapped = Operator::TwoInOperator(op);
    let p = wrapped.priority();
    assert(stack.last() == below);
    assert(stack.drop_last().len() == 0);
    assert(yielding_count(stack.drop_last(), p) == 0);
    if below.priority() >= p {
        assert(yielding_count(stack, p) == 1);
        assert(popped_by_push(stack, wrapped) =~= seq![below]);
        assert(stack_after_push(stack, wrapped) =~= seq![wrapped]);
    } else {
        assert(yielding_count(stack, p) == 0);
        assert(popped_by_push(stack, wrapped) =~= Seq::empty());
        assert(stack_after_push(stack, wrapped) =~= seq![below, wrapped]);
    }
}

proof fn lemma_push_on_none(op: TwoInOperator)
    ensures
        popped_by_push(Seq::empty(), Operator::TwoInOperator(op)) == Seq::<Operator>::empty(),
        stack_after_push(Seq::empty(), Operator::TwoInOperator(op)) == seq![
            Operator::TwoInOperator(op),
        ],
{
    let stack = Seq::<Operator>::empty();
    let wrapped = Operator::TwoInOperator(op);
    assert(yielding_count(stack, wrapped.priority()) == 0);
    assert(popped_by_push(stack, wrapped) =~= Seq::empty());
    assert(stack_after_push(stack, wrapped) =~= seq![wrapped]);
}

/// `x f y g z`, written without brackets.
pub open spec fn two_operator_text(
    x: SpecNumber,
    f: TwoInOperator,
    y: SpecNumber,
    g: TwoInOperator,
    z: SpecNumber,
) -> Seq<char> {
    number_text(x) + seq![binary_char(f)] + number_text(y) + seq![binary_char(g)] + number_text(
        z,
    )
}

/// How `x f y g z` groups: the second operator takes `y` for itself if it
/// binds strictly tighter than the first, and takes all of `x f y` as its
/// left operand otherwise.
pub open spec fn two_operator_term(
    x: SpecNumber,
    f: TwoInOperator,
    y: SpecNumber,
    g: TwoInOperator,
    z: SpecNumber,
) -> SpecTerm {
    if g.priority() > f.priority() {
        binary(f, SpecTerm::Number(x), binary(g, SpecTerm::Number(y), SpecTerm::Number(z)))
    } else {
        binary(g, binary(f, SpecTerm::Number(x), SpecTerm::Number(y)), SpecTerm::Number(z))
    }
}

/// Precedence and left-associativity: of two binary operators in a row, the
/// one that binds tighter is applied first, and of two that bind alike, the
/// left one.
pub proof fn lemma_two_operators_group(
    x: SpecNumber,
    f: TwoInOperator,
    y: SpecNumber,
    g: TwoInOperator,
    z: SpecNumber,
)
    requires
        x.well_formed(),
        y.well_formed(),
        z.well_formed(),
    ensures
        postfix_of(two_operator_text(x, f, y, g, z)) == flattened(
            two_operator_term(x, f, y, g, z),
        ),
        evaluation(postfix_of(two_operator_text(x, f, y, g, z))) == Ok::<SpecTerm, EvalError>(
            two_operator_term(x, f, y, g, z),
        ),
{
    let first = Operator::TwoInOperator(f);
    let second = Operator::TwoInOperator(g);
    let tx = SpecToken::Number(x);
    let ty = SpecToken::Number(y);
    let tz = SpecToken::Number(z);
    let rest3 = number_text(z);
    let rest2 = seq![binary_char(g)] + rest3;
    let rest1 = number_text(y) + rest2;
    let rest0 = seq![binary_char(f)] + rest1;
    assert(two_operator_text(x, f, y, g, z) =~= number_text(x) + rest0);

    let a1 = lemma_number(start(), x, rest0);
    lemma_binary_step(a1, f, rest1);
    lemma_push_on_none(f);
    let out1 = seq![tx];
    assert(flush(a1).output + operator_tokens(Seq::<Operator>::empty()) =~= out1);
    let s1 = at_operator(out1, seq![first]);

    let a2 = lemma_number(s1, y, rest2);
    lemma_binary_step(a2, g, rest3);
    lemma_push_on_one(first, g);
    let term = two_operator_term(x, f, y, g, z);
    lemma_evaluation_of_flattened(term);
    if g.priority() > f.priority() {
        let out2 = seq![tx, ty];
        assert(flush(a2).output + operator_tokens(Seq::<Operator>::empty()) =~= out2);
        let s2 = at_operator(out2, seq![first, second]);
        lemma_last_number(s2, z);
        assert(out2.push(tz) + operator_tokens(top_run(s2.stack, s2.stack.len())) =~= seq![
            tx,
            ty,
            tz,
            SpecToken::Operator(second),
            SpecToken::Operator(first),
        ]);
        assert(flattened(term) =~= seq![
            tx,
            ty,
            tz,
            SpecToken::Operator(second),
            SpecToken::Operator(first),
        ]) by {
            lemma_flattened_binary(g, y, z);
            lemma_flattened_nested(term);
        }
    } else {
        let out2 = seq![tx, ty, SpecToken::Operator(first)];
        assert(flush(a2).output + operator_tokens(seq![first]) =~= out2);
        let s2 = at_operator(out2, seq![second]);
        lemma_last_number(s2, z);
        assert(out2.push(tz) + operator_tokens(top_run(s2.stack, s2.stack.len())) =~= seq![
            tx,
            ty,
            SpecToken::Operator(first),
            tz,
            SpecToken::Operator(second),
        ]);
        assert(flattened(term) =~= seq![
            tx,
            ty,
            SpecToken::Operator(first),
            tz,
            SpecToken::Operator(second),
        ]) by {
            lemma_flattened_binary(f, x, y);
            lemma_flattened_nested(term);
        }
    }
}

proof fn lemma_flattened_binary(op: TwoInOperator, left: SpecNumber, right: SpecNumber)
    ensures
        flattened(binary(op, SpecTerm::Number(left), SpecTerm::Number(right))) == seq![
            SpecToken::Number(left),
            SpecToken::Number(right),
            SpecToken::Operator(Operator::TwoInOperator(op)),
        ],
{
    let term = binary(op, SpecTerm::Number(left), SpecTerm::Number(right));
    assert(flattened(SpecTerm::Number(left)) == seq![SpecToken::Number(left)]);
    assert(flattened(SpecTerm::Number(right)) == seq![SpecToken::Number(right)]);
    assert(flattened(term) =~= seq![
        SpecToken::Number(left),
        SpecToken::Number(right),
        SpecToken::Operator(Operator::TwoInOperator(op)),
    ]);
}

proof fn lemma_flattened_unary(op: OneInOperator, operand: SpecNumber)
    ensures
        flattened(unary(op, SpecTerm::Number(operand))) == seq![
            SpecToken::Number(operand),
            SpecToken::Operator(Operator::OneInOperator(op)),
        ],
{
    let term = unary(op, SpecTerm::Number(operand));
    assert(flattened(SpecTerm::Number(operand)) == seq![SpecToken::Number(operand)]);
    assert(flattened(term) =~= seq![
        SpecToken::Number(operand),
        SpecToken::Operator(Operator::OneInOperator(op)),
    ]);
}

/// The postfix form of an application, by the postfix forms of its
/// operands.
proof fn lemma_flattened_nested(term: SpecTerm)
    ensures
        term matches SpecTerm::Binary(op, left, right) ==> flattened(term) == (flattened(*left)
            + flattened(*right)).push(SpecToken::Operator(Operator::TwoInOperator(op))),
        term matches SpecTerm::Unary(op, operand) ==> flattened(term) == flattened(
            *operand,
        ).push(SpecToken::Operator(Operator::OneInOperator(op))),
{
}

/// Unary operators apply from the inside out: of two in a row before a
/// number, the one next to the number is applied first.
pub proof fn lemma_unary_operators_nest(
    outer: OneInOperator,
    inner: OneInOperator,
    x: SpecNumber,
)
    requires
        x.well_formed(),
    ensures
        evaluation(
            postfix_of(seq![unary_char(outer), unary_char(inner)] + number_text(x)),
        ) == Ok::<SpecTerm, EvalError>(unary(outer, unary(inner, SpecTerm::Number(x)))),
{
    let first = Operator::OneInOperator(outer);
    let second = Operator::OneInOperator(inner);
    let tx = SpecToken::Number(x);
    let text = seq![unary_char(outer), unary_char(inner)] + number_text(x);
    let rest1 = seq![unary_char(inner)] + number_text(x);
    assert(text =~= seq![unary_char(outer)] + rest1);
    lemma_unary_step(start(), outer, rest1);
    let s1 = at_operator(Seq::empty(), seq![first]);
    assert(start().stack.push(first) =~= seq![first]);
    lemma_unary_step(s1, inner, number_text(x));
    let s2 = at_operator(Seq::empty(), seq![first, second]);
    assert(s1.stack.push(second) =~= seq![first, second]);
    lemma_last_number(s2, x);
    let term = unary(outer, unary(inner, SpecTerm::Number(x)));
    assert(s2.output.push(tx) + operator_tokens(top_run(s2.stack, s2.stack.len())) =~= seq![
        tx,
        SpecToken::Operator(second),
        SpecToken::Operator(first),
    ]);
    assert(flattened(term) =~= seq![tx, SpecToken::Operator(second), SpecToken::Operator(first)])
        by {
        lemma_flattened_unary(inner, x);
        lemma_flattened_nested(term);
    }
    lemma_evaluation_of_flattened(term);
}

/// A `-` that follows a binary operator is a sign: `x f -y` applies `f` to
/// `x` and the negation of `y`, whatever `f` is.
pub proof fn lemma_minus_after_operator_negates(x: SpecNumber, f: TwoInOperator, y: SpecNumber)
    requires
        x.well_formed(),
        y.well_formed(),
    ensures
        evaluation(
            postfix_of(number_text(x) + seq![binary_char(f), '-'] + number_text(y)),
        ) == Ok::<SpecTerm, EvalError>(
            binary(f, SpecTerm::Number(x), unary(OneInOperator::Negative, SpecTerm::Number(y))),
        ),
{
    let first = Operator::TwoInOperator(f);
    let sign = Operator::OneInOperator(OneInOperator::Negative);
    let tx = SpecToken::Number(x);
    let ty = SpecToken::Number(y);
    let text = number_text(x) + seq![binary_char(f), '-'] + number_text(y);
    let rest2 = number_text(y);
    let rest1 = seq!['-'] + rest2;
    let rest0 = seq![binary_char(f)] + rest1;
    assert(text =~= number_text(x) + rest0);

    let a1 = lemma_number(start(), x, rest0);
    lemma_binary_step(a1, f, rest1);
    lemma_push_on_none(f);
    let out1 = seq![tx];
    assert(flush(a1).output + operator_tokens(Seq::<Operator>::empty()) =~= out1);
    let s1 = at_operator(out1, seq![first]);
    assert(unary_char(OneInOperator::Negative) == '-');
    lemma_unary_step(s1, OneInOperator::Negative, rest2);
    assert(s1.stack.push(sign) =~= seq![first, sign]);
    let s2 = at_operator(out1, seq![first, sign]);
    lemma_last_number(s2, y);

    let term = binary(
        f,
        SpecTerm::Number(x),
        unary(OneInOperator::Negative, SpecTerm::Number(y)),
    );
    assert(out1.push(ty) + operator_tokens(top_run(s2.stack, s2.stack.len())) =~= seq![
        tx,
        ty,
        SpecToken::Operator(sign),
        SpecToken::Operator(first),
    ]);
    assert(flattened(term) =~= seq![tx, ty, SpecToken::Operator(sign), SpecToken::Operator(first)])
        by {
        lemma_flattened_unary(OneInOperator::Negative, y);
        lemma_flattened_nested(term);
    }
    lemma_evaluation_of_flattened(term);
}

/// A `-` at the start is a sign, and a sign binds tighter than any binary
/// operator: `-x f y` applies `f` to the negation of `x` and to `y`.
pub proof fn lemma_leading_minus_negates(x: SpecNumber, f: TwoInOperator, y: SpecNumber)
    requires
        x.well_formed(),
        y.well_formed(),
    ensures
        evaluation(
            postfix_of(seq!['-'] + number_text(x) + seq![binary_char(f)] + number_text(y)),
        ) == Ok::<SpecTerm, EvalError>(
            binary(f, unary(OneInOperator::Negative, SpecTerm::Number(x)), SpecTerm::Number(y)),
        ),
{
    let second = Operator::TwoInOperator(f);
    let sign = Operator::OneInOperator(OneInOperator::Negative);
    let tx = SpecToken::Number(x);
    let ty = SpecToken::Number(y);
    let text = seq!['-'] + number_text(x) + seq![binary_char(f)] + number_text(y);
    let rest2 = number_text(y);
    let rest1 = seq![binary_char(f)] + rest2;
    let rest0 = number_text(x) + rest1;
    assert(text =~= seq!['-'] + rest0);

    assert(unary_char(OneInOperator::Negative) == '-');
    lemma_unary_step(start(), OneInOperator::Negative, rest0);
    assert(start().stack.push(sign) =~= seq![sign]);
    let s1 = at_operator(Seq::empty(), seq![sign]);
    let a1 = lemma_number(s1, x, rest1);
    lemma_binary_step(a1, f, rest2);
    lemma_push_on_one(sign, f);
    let out2 = seq![tx, SpecToken::Operator(sign)];
    assert(flush(a1).output + operator_tokens(seq![sign]) =~= out2);
    let s2 = at_operator(out2, seq![second]);
    lemma_last_number(s2, y);

    let term = binary(
        f,
        unary(OneInOperator::Negative, SpecTerm::Number(x)),
        SpecTerm::Number(y),
    );
    assert(out2.push(ty) + operator_tokens(top_run(s2.stack, s2.stack.len())) =~= seq![
        tx,
        SpecToken::Operator(sign),
        ty,
        SpecToken::Operator(second),
    ]);
    assert(flattened(term) =~= seq![tx, SpecToken::Operator(sign), ty, SpecToken::Operator(second)])
        by {
        lemma_flattened_unary(OneInOperator::Negative, x);
        lemma_flattened_nested(term);
    }
    lemma_evaluation_of_flattened(term);
}

/// A number on its own converts to a single token and evaluates to itself:
/// a constant is one number token, and a literal is kept as written.
pub proof fn lemma_number_alone(x: SpecNumber)
    requires
        x.well_formed(),
    ensures
        postfix_of(number_text(x)) == seq![SpecToken::Number(x)],
        evaluation(postfix_of(number_text(x))) == Ok::<SpecTerm, EvalError>(SpecTerm::Number(x)),
{
    lemma_last_number(start(), x);
    assert(start().output.push(SpecToken::Number(x)) + operator_tokens(
        top_run(start().stack, start().stack.len()),
    ) =~= seq![SpecToken::Number(x)]);
    lemma_evaluation_of_flattened(SpecTerm::Number(x));
}

} // verus!
