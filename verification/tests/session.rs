//! Key presses and what they do to a session.

use calculator::{classify, Calculation, Key, Number, Session, Term, TwoInOperator};

fn typed(keys: &[&str]) -> Session {
    let mut session = Session::new();
    for key in keys {
        assert_eq!(session.press(key), None);
    }
    session
}

fn leaf(text: &str) -> Term {
    Term::Number(Number::Literal(text.chars().collect()))
}

#[test]
fn keys_by_label() {
    assert_eq!(classify("="), Key::Evaluate);
    assert_eq!(classify("C"), Key::Clear);
    assert_eq!(classify("⌫"), Key::Backspace);
    assert_eq!(classify("7"), Key::Input);
    assert_eq!(classify("π"), Key::Input);
    assert_eq!(classify("c"), Key::Input);
    assert_eq!(classify(""), Key::Input);
    assert_eq!(classify("=="), Key::Input);
}

#[test]
fn a_new_session_is_blank() {
    let session = Session::new();
    assert_eq!(session.expression, "");
    assert_eq!(session.history, vec![]);
}

#[test]
fn input_keys_are_typed_in_order() {
    let session = typed(&["3", ".", "6", "+", "(", "π", ")"]);
    assert_eq!(session.expression, "3.6+(π)");
    assert_eq!(session.history, vec![]);
}

#[test]
fn clear_empties_the_expression_only() {
    let mut session = typed(&["1", "+"]);
    assert_eq!(session.press("="), None);
    session.press("9");
    assert_eq!(session.press("C"), None);
    assert_eq!(session.expression, "");
    assert_eq!(session.history.len(), 1);
}

#[test]
fn backspace_takes_one_character() {
    let mut session = typed(&["2", "×", "√"]);
    assert_eq!(session.press("⌫"), None);
    assert_eq!(session.expression, "2×");
    session.press("⌫");
    session.press("⌫");
    assert_eq!(session.expression, "");
    session.press("⌫");
    assert_eq!(session.expression, "");
}

#[test]
fn evaluate_asks_for_the_value() {
    let mut session = typed(&["8", "-", "3"]);
    let asked = session.press("=");
    assert_eq!(
        asked,
        Some(Term::Binary(TwoInOperator::Subtract, Box::new(leaf("8")), Box::new(leaf("3"))))
    );
    // nothing moves until the answer is in
    assert_eq!(session.expression, "8-3");
    assert_eq!(session.history, vec![]);
    session.answer(String::from("5"));
    assert_eq!(session.expression, "5");
    assert_eq!(
        session.history,
        vec![Calculation { expression: String::from("8-3"), answer: String::from("5") }]
    );
}

#[test]
fn evaluate_without_a_value_records_an_error() {
    let mut session = typed(&["3", "+"]);
    assert_eq!(session.press("="), None);
    assert_eq!(session.expression, "");
    assert_eq!(
        session.history,
        vec![Calculation { expression: String::from("3+"), answer: String::from("Error") }]
    );
    // and so does an empty expression
    assert_eq!(session.press("="), None);
    assert_eq!(
        session.history[1],
        Calculation { expression: String::new(), answer: String::from("Error") }
    );
}

#[test]
fn the_answer_can_be_typed_on() {
    let mut session = typed(&["2", "×", "3"]);
    assert!(session.press("=").is_some());
    session.answer(String::from("6"));
    session.press("+");
    session.press("1");
    assert_eq!(session.expression, "6+1");
    assert!(session.press("=").is_some());
    session.answer(String::from("7"));
    assert_eq!(session.history.len(), 2);
    assert_eq!(session.history[0].answer, "6");
    assert_eq!(session.history[1].expression, "6+1");
}
