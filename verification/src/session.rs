//! The state behind a calculator's keys: the expression being typed and the
//! calculations done so far.
//!
//! A key press changes that state by rule. Working out a number from a term
//! and printing it is not done here: where a press asks for a value, the
//! term is handed out, and the printed answer is handed back in.

use vstd::prelude::*;
use vstd::string::{StrSliceExecFns, StringExecFns};
use crate::convert::postfix_of;
use crate::evaluate::{answer, answer_view, evaluate_infix_expr, evaluation};
use crate::term::{SpecTerm, Term};

verus! {

/// A past calculation: what was typed and what was shown for it.
#[derive(Clone, Debug, PartialEq, Eq)]
pub struct Calculation {
    pub expression: String,
    pub answer: String,
}

/// The value of a [`Calculation`] in contracts.
pub struct SpecCalculation {
    pub expression: Seq<char>,
    pub answer: Seq<char>,
}

impl View for Calculation {
    type V = SpecCalculation;

    open spec fn view(&self) -> SpecCalculation {
        SpecCalculation { expression: self.expression@, answer: self.answer@ }
    }
}

/// The values of a list of calculations, element by element.
pub open spec fn history_view(history: Seq<Calculation>) -> Seq<SpecCalculation> {
    Seq::new(history.len(), |i: int| history[i]@)
}

/// What a key does.
#[derive(Clone, Copy, Debug, PartialEq, Eq, Structural)]
pub enum Key {
    /// `=`: work out the expression.
    Evaluate,
    /// `C`: start over.
    Clear,
    /// `⌫`: take back the last character.
    Backspace,
    /// Any other key: its label is typed.
    Input,
}

/// The meaning of a key, by its label.
pub open spec fn key_of(label: Seq<char>) -> Key {
    if label == seq!['='] {
        Key::Evaluate
    } else if label == seq!['C'] {
        Key::Clear
    } else if label == seq!['⌫'] {
        Key::Backspace
    } else {
        Key::Input
    }
}

/// What the history shows for an expression without a value.
pub open spec fn error_text() -> Seq<char> {
    seq!['E', 'r', 'r', 'o', 'r']
}

/// Tells what a key does from its label.
pub fn classify(label: &str) -> (key: Key)
    ensures
        key == key_of(label@),
{
    if label.unicode_len() == 1 {
        let ch: char = label.get_char(0);
        assert(label@ =~= seq![ch]);
        if ch == '=' {
            Key::Evaluate
        } else if ch == 'C' {
            Key::Clear
        } else if ch == '⌫' {
            Key::Backspace
        } else {
            assert(seq![ch] != seq!['=']) by {
                assert(seq![ch][0] != seq!['='][0]);
            }
            assert(seq![ch] != seq!['C']) by {
                assert(seq![ch][0] != seq!['C'][0]);
            }
            assert(seq![ch] != seq!['⌫']) by {
                assert(seq![ch][0] != seq!['⌫'][0]);
            }
            Key::Input
        }
    } else {
        assert(seq!['='].len() == 1 && seq!['C'].len() == 1 && seq!['⌫'].len() == 1);
        Key::Input
    }
}

/// The expression being typed and the calculations done so far, oldest
/// first.
pub struct Session {
    pub expression: String,
    pub history: Vec<Calculation>,
}

/// The value of a [`Session`] in contracts.
pub struct SpecSession {
    pub expression: Seq<char>,
    pub history: Seq<SpecCalculation>,
}

impl View for Session {
    type V = SpecSession;

    open spec fn view(&self) -> SpecSession {
        SpecSession { expression: self.expression@, history: history_view(self.history@) }
    }
}

/// The state after a key press.
///
/// A press of `=` on an expression that has a value changes nothing yet: the
/// state moves on when the answer comes in, see [`after_answer`].
pub open spec fn after_press(state: SpecSession, label: Seq<char>) -> SpecSession {
    match key_of(label) {
        Key::Evaluate => match evaluation(postfix_of(state.expression)) {
            Ok(_) => state,
            Err(_) => SpecSession {
                expression: Seq::empty(),
                history: state.history.push(
                    SpecCalculation { expression: state.expression, answer: error_text() },
                ),
            },
        },
        Key::Clear => SpecSession { expression: Seq::empty(), ..state },
        Key::Backspace => SpecSession {
            expression: if state.expression.len() > 0 {
                state.expression.drop_last()
            } else {
                state.expression
            },
            ..state
        },
        Key::Input => SpecSession { expression: state.expression + label, ..state },
    }
}

/// The term that a key press asks the caller to work out: the value of the
/// expression, on `=`, if it has one.
pub open spec fn asked_by_press(state: SpecSession, label: Seq<char>) -> Option<SpecTerm> {
    match key_of(label) {
        Key::Evaluate => answer(evaluation(postfix_of(state.expression))),
        _ => None,
    }
}

/// The state after the answer to the expression has come in: the
/// calculation joins the history, and the answer is the new expression.
pub open spec fn after_answer(state: SpecSession, text: Seq<char>) -> SpecSession {
    SpecSession {
        expression: text,
        history: state.history.push(
            SpecCalculation { expression: state.expression, answer: text },
        ),
    }
}

impl Session {
    /// A session with nothing typed and nothing calculated.
    pub fn new() -> (result: Self)
        ensures
            result@.expression == Seq::<char>::empty(),
            result@.history == Seq::<SpecCalculation>::empty(),
    {
        let result = Session { expression: String::new(), history: Vec::new() };
        assert(history_view(result.history@) =~= Seq::empty());
        result
    }

    fn record(&mut self, answer: String)
        ensures
            final(self).expression@ == old(self).expression@,
            history_view(final(self).history@) == history_view(old(self).history@).push(
                SpecCalculation { expression: old(self).expression@, answer: answer@ },
            ),
    {
        let ghost before: Seq<SpecCalculation> = history_view(self.history@);
        let entry = Calculation { expression: self.expression.clone(), answer };
        let ghost added: SpecCalculation = entry@;
        self.history.push(entry);
        assert(history_view(self.history@) =~= before.push(added));
    }

    /// Handles a key press.
    ///
    /// Returns the term to work out where the key was `=` and the expression
    /// has a value; the caller then reports the printed value with
    /// [`Session::answer`]. An expression without a value is recorded as an
    /// error at once and cleared.
    pub fn press(&mut self, label: &str) -> (asked: Option<Term>)
        ensures
            final(self)@ == after_press(old(self)@, label@),
            answer_view(asked) == asked_by_press(old(self)@, label@),
    {
        match classify(label) {
            Key::Evaluate => {
                let value: Option<Term> = evaluate_infix_expr(&self.expression);
                if value.is_none() {
                    proof {
                        reveal_strlit("Error");
                    }
                    let text: String = String::from_str("Error");
                    assert(text@ =~= error_text());
                    self.record(text);
                    self.expression = String::new();
                }
                value
            },
            Key::Clear => {
                self.expression = String::new();
                None
            },
            Key::Backspace => {
                let length: usize = self.expression.as_str().unicode_len();
                if length > 0 {
                    let shorter: String = self.expression.as_str().substring_char(
                        0,
                        length - 1,
                    ).to_owned();
                    assert(shorter@ =~= self.expression@.drop_last());
                    self.expression = shorter;
                }
                None
            },
            Key::Input => {
                self.expression.append(label);
                None
            },
        }
    }

    /// Takes in the printed value of the expression: the calculation joins
    /// the history and its answer becomes the expression.
    pub fn answer(&mut self, text: String)
        ensures
            final(self)@ == after_answer(old(self)@, text@),
    {
        let shown: String = text.clone();
        self.record(text);
        self.expression = shown;
    }
}

} // verus!
