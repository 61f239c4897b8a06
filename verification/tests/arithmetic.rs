//! Expressions evaluated end to end, with terms folded into IEEE doubles.

use calculator::{
    evaluate_infix_expr, infix_to_postfix, Constant, Number, OneInOperator, Term, Token,
    TwoInOperator,
};

fn number_value(number: &Number) -> f64 {
    match number {
        Number::Literal(text) => text.iter().collect::<String>().parse::<f64>().unwrap(),
        Number::Constant(Constant::E) => std::f64::consts::E,
        Number::Constant(Constant::Pi) => std::f64::consts::PI,
    }
}

fn value(term: &Term) -> f64 {
    match term {
        Term::Number(number) => number_value(number),
        Term::Unary(OneInOperator::SquareRoot, operand) => value(operand).sqrt(),
        Term::Unary(OneInOperator::Negative, operand) => -1.0 * value(operand),
        Term::Binary(op, left, right) => {
            let left_num = value(left);
            let right_num = value(right);
            match op {
                TwoInOperator::Add => left_num + right_num,
                TwoInOperator::Subtract => left_num - right_num,
                TwoInOperator::Multiply => left_num * right_num,
                TwoInOperator::Divide => left_num / right_num,
                TwoInOperator::Power => left_num.powf(right_num),
            }
        }
    }
}

fn evaluate_number(expr: &str) -> Option<f64> {
    evaluate_infix_expr(&String::from(expr)).map(|term| value(&term))
}

#[test]
fn basic_expressions() {
    let expr_and_ans = [
        ("363.2+5.6", 368.8),
        ("486.4-154.2", 332.2),
        ("1272.5×4", 5090.0),
        ("32÷10", 3.2),
        ("√16", 4.0),
        ("4^3.5", 128.0),
    ];
    for item in expr_and_ans {
        assert_eq!(evaluate_number(item.0).unwrap(), item.1);
    }
}

#[test]
fn complex_order_of_operations() {
    let expr_and_ans = [("3.6+(23.2-6×3^2÷3+5)×1.5", 18.9)];
    for item in expr_and_ans {
        assert_eq!(evaluate_number(item.0).unwrap(), item.1);
    }
}

#[test]
fn negative_numbers() {
    let expr_and_ans = [
        ("36+-4.5", 31.5),
        ("-12×-2", 24.0),
        ("48.2--15.8", 64.0),
        ("-20+6×-(5÷2)", -35.0),
    ];
    for item in expr_and_ans {
        assert_eq!(evaluate_number(item.0).unwrap(), item.1);
    }
}

#[test]
fn one_input_operator_chaining() {
    // a chain of one input operators is applied from the inside out
    assert_eq!(evaluate_number("-√25").unwrap(), -5.0);
    // the root of a negative number is a number all the same: NaN
    assert!(evaluate_number("√-36").unwrap().is_nan())
}

#[test]
fn subtraction_groups_to_the_left() {
    assert_eq!(evaluate_number("8-3-2").unwrap(), 3.0);
}

#[test]
fn division_groups_to_the_left() {
    assert_eq!(evaluate_number("64÷4÷2").unwrap(), 8.0);
}

#[test]
fn division_by_zero_is_a_number() {
    assert_eq!(evaluate_number("1÷0").unwrap(), f64::INFINITY);
    assert_eq!(evaluate_number("-1÷0").unwrap(), f64::NEG_INFINITY);
    assert!(evaluate_number("0÷0").unwrap().is_nan());
}

#[test]
fn constants_have_their_exact_values() {
    assert_eq!(evaluate_number("e").unwrap(), std::f64::consts::E);
    assert_eq!(evaluate_number("π").unwrap(), std::f64::consts::PI);
    assert_eq!(evaluate_number("2×π").unwrap(), 2.0 * std::f64::consts::PI);
}

#[test]
fn values_side_by_side_are_multiplied() {
    assert_eq!(evaluate_number("2π").unwrap(), 2.0 * std::f64::consts::PI);
    assert_eq!(evaluate_number("2(3)").unwrap(), 6.0);
    assert_eq!(evaluate_number("(2)(3)(4)").unwrap(), 24.0);
}

#[test]
fn minus_after_a_close_bracket_negates() {
    // after a bracket a `-` is a sign, so the two values end side by side
    assert_eq!(evaluate_number("(5)-3").unwrap(), -15.0);
}

#[test]
fn unknown_characters_are_dropped() {
    assert_eq!(evaluate_number("2 + 3").unwrap(), 5.0);
    assert_eq!(evaluate_number("2a+b3").unwrap(), 5.0);
    // a dropped character still ends the literal it follows
    assert_eq!(evaluate_number("1 2").unwrap(), 2.0);
}

#[test]
fn malformed_expressions_have_no_value() {
    assert_eq!(evaluate_number(""), None);
    assert_eq!(evaluate_number("+"), None);
    assert_eq!(evaluate_number("3+"), None);
    assert_eq!(evaluate_number("×3"), None);
    assert_eq!(evaluate_number("(3"), None);
    assert_eq!(evaluate_number("√"), None);
}

#[test]
fn a_literal_is_kept_as_written() {
    let tokens = infix_to_postfix(&String::from("007.50"));
    assert_eq!(
        tokens,
        vec![Token::Number(Number::Literal("007.50".chars().collect()))]
    );
    assert_eq!(evaluate_number("007.50").unwrap(), 7.5);
}

#[test]
fn fully_bracketed_expression_matches_direct_arithmetic() {
    assert_eq!(
        evaluate_number("((1.5+(2×3))÷(√(16)))").unwrap(),
        (1.5 + (2.0 * 3.0)) / (16.0f64).sqrt()
    );
    assert_eq!(
        evaluate_number("((-(2^3))+(7-(4÷8)))").unwrap(),
        -(2.0f64.powf(3.0)) + (7.0 - (4.0 / 8.0))
    );
}
