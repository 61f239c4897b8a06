//! The stack of operators that have been read but not yet emitted.
//!
//! A stack is modelled as the sequence of its operators, bottom first. What a
//! push does is stated over that sequence: how many operators leave the top,
//! which ones, and what remains.

use vstd::prelude::*;
use crate::operator::{Bracket, Operator, TwoInOperator};

verus! {

/// Priority of the operator on top, or -1 for an empty stack.
pub open spec fn top_priority(stack: Seq<Operator>) -> int {
    if stack.len() == 0 {
        -1
    } else {
        stack.last().priority()
    }
}

/// The `n` topmost operators, topmost first: the order in which they are
/// popped.
pub open spec fn top_run(stack: Seq<Operator>, n: nat) -> Seq<Operator>
    recommends
        n <= stack.len(),
{
    Seq::new(n, |i: int| stack[stack.len() - 1 - i])
}

/// How many operators a binary operator of priority `p` displaces: the
/// longest run at the top in which every operator binds at least as tightly
/// as `p`. Equal priority counts, which is what makes operators group to the
/// left.
pub open spec fn yielding_count(stack: Seq<Operator>, p: int) -> nat
    decreases stack.len(),
{
    if stack.len() > 0 && stack.last().priority() >= p {
        1 + yielding_count(stack.drop_last(), p)
    } else {
        0
    }
}

/// How many operators lie above the innermost open bracket, or on the whole
/// stack if it holds no open bracket.
pub open spec fn enclosed_count(stack: Seq<Operator>) -> nat
    decreases stack.len(),
{
    if stack.len() > 0 && !stack.last().is_open_bracket() {
        1 + enclosed_count(stack.drop_last())
    } else {
        0
    }
}

/// The operators that a push of `op` pops, in pop order.
pub open spec fn popped_by_push(stack: Seq<Operator>, op: Operator) -> Seq<Operator> {
    match op {
        Operator::Bracket(Bracket::Open) => Seq::empty(),
        Operator::Bracket(Bracket::Close) => top_run(stack, enclosed_count(stack)),
        Operator::OneInOperator(_) => Seq::empty(),
        Operator::TwoInOperator(_) => top_run(stack, yielding_count(stack, op.priority())),
    }
}

/// The stack that a push of `op` leaves.
///
/// An open bracket and a unary operator go on top of what is there. A close
/// bracket removes what its bracket encloses and the open bracket itself, if
/// there is one, and is not kept. A binary operator replaces the operators
/// that yield to it.
pub open spec fn stack_after_push(stack: Seq<Operator>, op: Operator) -> Seq<Operator> {
    match op {
        Operator::Bracket(Bracket::Open) => stack.push(op),
        Operator::Bracket(Bracket::Close) => {
            let kept = stack.len() - enclosed_count(stack);
            if kept > 0 {
                stack.take(kept - 1)
            } else {
                Seq::empty()
            }
        },
        Operator::OneInOperator(_) => stack.push(op),
        Operator::TwoInOperator(_) => stack.take(
            stack.len() - yielding_count(stack, op.priority()),
        ).push(op),
    }
}

/// A close bracket never pops more than the stack holds.
pub proof fn lemma_enclosed_count_bound(stack: Seq<Operator>)
    ensures
        enclosed_count(stack) <= stack.len(),
    decreases stack.len(),
{
    if stack.len() > 0 && !stack.last().is_open_bracket() {
        lemma_enclosed_count_bound(stack.drop_last());
    }
}

/// A stack of operators with the priority of its top kept at hand.
pub struct OperatorStack {
    stack: Vec<Operator>,
    highest_priority: i32,
}

impl View for OperatorStack {
    type V = Seq<Operator>;

    closed spec fn view(&self) -> Seq<Operator> {
        self.stack@
    }
}

impl OperatorStack {
    /// The cached priority is that of the operator on top, or -1 when the
    /// stack is empty.
    pub closed spec fn well_formed(&self) -> bool {
        self.highest_priority == top_priority(self.stack@)
    }

    /// An empty stack.
    pub fn new() -> (result: Self)
        ensures
            result@ == Seq::<Operator>::empty(),
            result.well_formed(),
    {
        Self { stack: Vec::new(), highest_priority: -1 }
    }

    /// Computes the priority level of an operator.
    pub fn get_priority(op: &Operator) -> (result: i32)
        ensures
            result == op.priority(),
    {
        match op {
            Operator::TwoInOperator(inside) => match inside {
                TwoInOperator::Add | TwoInOperator::Subtract => 1,
                TwoInOperator::Multiply | TwoInOperator::Divide => 2,
                TwoInOperator::Power => 3,
            },
            Operator::OneInOperator(_) => 4,
            Operator::Bracket(_) => 0,
        }
    }

    /// The priority that the operator on top has, or -1 on an empty stack.
    pub fn highest_priority(&self) -> (result: i32)
        requires
            self.well_formed(),
        ensures
            result == top_priority(self@),
    {
        self.highest_priority
    }

    fn refresh_priority(&mut self)
        ensures
            final(self).stack@ == old(self).stack@,
            final(self).well_formed(),
    {
        let n: usize = self.stack.len();
        if n > 0 {
            self.highest_priority = Self::get_priority(&self.stack[n - 1]);
        } else {
            self.highest_priority = -1;
        }
    }

    /// Pushes an operator and returns the operators that were popped to make
    /// room for it, the first one popped first.
    pub fn push(&mut self, op: Operator) -> (popped: Vec<Operator>)
        requires
            old(self).well_formed(),
        ensures
            final(self).well_formed(),
            final(self)@ == stack_after_push(old(self)@, op),
            popped@ == popped_by_push(old(self)@, op),
    {
        let mut output: Vec<Operator> = Vec::new();
        let curr_priority: i32 = Self::get_priority(&op);
        let ghost before: Seq<Operator> = self.stack@;

        match op {
            Operator::Bracket(Bracket::Open) => {
                self.highest_priority = 0;
                self.stack.push(op);
            },
            Operator::Bracket(Bracket::Close) => {
                loop
                    invariant_except_break
                        output@.len() <= before.len(),
                        self.stack@ == before.take(before.len() - output@.len()),
                        output@ == top_run(before, output@.len() as nat),
                        enclosed_count(before) == output@.len() + enclosed_count(self.stack@),
                    invariant
                        op == Operator::Bracket(Bracket::Close),
                    ensures
                        output@ == top_run(before, enclosed_count(before)),
                        self.stack@ == stack_after_push(before, op),
                    decreases self.stack@.len(),
                {
                    let ghost current: Seq<Operator> = self.stack@;
                    let ghost emitted: Seq<Operator> = output@;
                    let stack_top: Option<Operator> = self.stack.pop();
                    match stack_top {
                        None => {
                            proof {
                                lemma_enclosed_count_bound(before);
                                assert(current.len() == 0);
                            }
                            break ;
                        },
                        Some(Operator::Bracket(Bracket::Open)) => {
                            proof {
                                lemma_enclosed_count_bound(before);
                                assert(current.last().is_open_bracket());
                                assert(self.stack@ =~= before.take(
                                    before.len() - emitted.len() - 1,
                                ));
                            }
                            break ;
                        },
                        Some(top) => {
                            output.push(top);
                            proof {
                                assert(!current.last().is_open_bracket());
                                assert(self.stack@ =~= before.take(
                                    before.len() - output@.len(),
                                ));
                                assert(output@ =~= top_run(before, output@.len() as nat));
                            }
                        },
                    }
                }
                self.refresh_priority();
            },
            Operator::TwoInOperator(_) => {
                while self.highest_priority >= curr_priority
                    invariant
                        curr_priority == op.priority(),
                        curr_priority >= 1,
                        output@.len() <= before.len(),
                        self.stack@ == before.take(before.len() - output@.len()),
                        output@ == top_run(before, output@.len() as nat),
                        yielding_count(before, curr_priority as int) == output@.len()
                            + yielding_count(self.stack@, curr_priority as int),
                        self.well_formed(),
                    decreases self.stack@.len(),
                {
                    let ghost current: Seq<Operator> = self.stack@;
                    let stack_top: Option<Operator> = self.stack.pop();
                    output.push(stack_top.unwrap());
                    proof {
                        assert(self.stack@ =~= before.take(before.len() - output@.len()));
                        assert(output@ =~= top_run(before, output@.len() as nat));
                    }
                    self.refresh_priority();
                }
                self.highest_priority = curr_priority;
                self.stack.push(op);
                proof {
                    assert(self.stack@ =~= stack_after_push(before, op));
                }
            },
            Operator::OneInOperator(_) => {
                self.stack.push(op);
                self.highest_priority = curr_priority;
            },
        }
        output
    }

    /// Empties the stack and returns what it held, the top first.
    pub fn drain(self) -> (operators: Vec<Operator>)
        ensures
            operators@ == top_run(self@, self@.len()),
    {
        let mut stack: Vec<Operator> = self.stack;
        let ghost before: Seq<Operator> = stack@;
        let mut operators: Vec<Operator> = Vec::new();
        while stack.len() > 0
            invariant
                operators@.len() <= before.len(),
                stack@ == before.take(before.len() - operators@.len()),
                operators@ == top_run(before, operators@.len() as nat),
            decreases stack@.len(),
        {
            let top: Option<Operator> = stack.pop();
            operators.push(top.unwrap());
            proof {
                assert(stack@ =~= before.take(before.len() - operators@.len()));
                assert(operators@ =~= top_run(before, operators@.len() as nat));
            }
        }
        operators
    }
}

} // verus!
