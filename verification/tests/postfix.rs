//! The converter, the operator stack and the evaluator, token by token.

use calculator::{
    char_to_operator, char_to_value, evaluate, evaluate_infix_expr, evaluate_postfix,
    infix_to_postfix, Bracket, Constant, EvalError, Number, OneInOperator, Operator,
    OperatorStack, Term, Token, TwoInOperator,
};

fn lit(text: &str) -> Number {
    Number::Literal(text.chars().collect())
}

fn num(text: &str) -> Token {
    Token::Number(lit(text))
}

fn one(op: OneInOperator) -> Token {
    Token::Operator(Operator::OneInOperator(op))
}

fn two(op: TwoInOperator) -> Token {
    Token::Operator(Operator::TwoInOperator(op))
}

fn leaf(text: &str) -> Term {
    Term::Number(lit(text))
}

fn unary(op: OneInOperator, operand: Term) -> Term {
    Term::Unary(op, Box::new(operand))
}

fn binary(op: TwoInOperator, left: Term, right: Term) -> Term {
    Term::Binary(op, Box::new(left), Box::new(right))
}

fn convert(expr: &str) -> Vec<Token> {
    infix_to_postfix(&String::from(expr))
}

#[test]
fn every_operator_character_is_known() {
    assert_eq!(char_to_operator(&'+'), Some(Operator::TwoInOperator(TwoInOperator::Add)));
    assert_eq!(char_to_operator(&'×'), Some(Operator::TwoInOperator(TwoInOperator::Multiply)));
    assert_eq!(char_to_operator(&'-'), Some(Operator::TwoInOperator(TwoInOperator::Subtract)));
    assert_eq!(char_to_operator(&'÷'), Some(Operator::TwoInOperator(TwoInOperator::Divide)));
    assert_eq!(char_to_operator(&'^'), Some(Operator::TwoInOperator(TwoInOperator::Power)));
    assert_eq!(char_to_operator(&'√'), Some(Operator::OneInOperator(OneInOperator::SquareRoot)));
    assert_eq!(char_to_operator(&'('), Some(Operator::Bracket(Bracket::Open)));
    assert_eq!(char_to_operator(&')'), Some(Operator::Bracket(Bracket::Close)));
}

#[test]
fn other_characters_are_no_operators() {
    assert_eq!(char_to_operator(&'*'), None);
    assert_eq!(char_to_operator(&'/'), None);
    assert_eq!(char_to_operator(&'x'), None);
    assert_eq!(char_to_operator(&'7'), None);
    assert_eq!(char_to_operator(&'e'), None);
    assert_eq!(char_to_operator(&' '), None);
}

#[test]
fn constant_characters() {
    assert_eq!(char_to_value(&'e'), Some(Constant::E));
    assert_eq!(char_to_value(&'π'), Some(Constant::Pi));
    assert_eq!(char_to_value(&'E'), None);
    assert_eq!(char_to_value(&'p'), None);
    assert_eq!(char_to_value(&'+'), None);
}

#[test]
fn priorities() {
    assert_eq!(OperatorStack::get_priority(&Operator::TwoInOperator(TwoInOperator::Add)), 1);
    assert_eq!(OperatorStack::get_priority(&Operator::TwoInOperator(TwoInOperator::Subtract)), 1);
    assert_eq!(OperatorStack::get_priority(&Operator::TwoInOperator(TwoInOperator::Multiply)), 2);
    assert_eq!(OperatorStack::get_priority(&Operator::TwoInOperator(TwoInOperator::Divide)), 2);
    assert_eq!(OperatorStack::get_priority(&Operator::TwoInOperator(TwoInOperator::Power)), 3);
    assert_eq!(OperatorStack::get_priority(&Operator::OneInOperator(OneInOperator::SquareRoot)), 4);
    assert_eq!(OperatorStack::get_priority(&Operator::OneInOperator(OneInOperator::Negative)), 4);
    assert_eq!(OperatorStack::get_priority(&Operator::Bracket(Bracket::Open)), 0);
    assert_eq!(OperatorStack::get_priority(&Operator::Bracket(Bracket::Close)), 0);
}

#[test]
fn a_new_stack_is_empty() {
    let stack = OperatorStack::new();
    assert_eq!(stack.highest_priority(), -1);
    assert_eq!(stack.drain(), vec![]);
}

#[test]
fn binary_push_pops_what_binds_as_tightly() {
    let add = Operator::TwoInOperator(TwoInOperator::Add);
    let subtract = Operator::TwoInOperator(TwoInOperator::Subtract);
    let multiply = Operator::TwoInOperator(TwoInOperator::Multiply);
    let power = Operator::TwoInOperator(TwoInOperator::Power);
    let mut stack = OperatorStack::new();
    assert_eq!(stack.push(add), vec![]);
    assert_eq!(stack.highest_priority(), 1);
    assert_eq!(stack.push(multiply), vec![]);
    assert_eq!(stack.highest_priority(), 2);
    assert_eq!(stack.push(power), vec![]);
    assert_eq!(stack.highest_priority(), 3);
    // the first one popped comes first
    assert_eq!(stack.push(subtract), vec![power, multiply, add]);
    assert_eq!(stack.highest_priority(), 1);
    assert_eq!(stack.drain(), vec![subtract]);
}

#[test]
fn binary_push_stops_at_a_looser_operator() {
    let add = Operator::TwoInOperator(TwoInOperator::Add);
    let multiply = Operator::TwoInOperator(TwoInOperator::Multiply);
    let divide = Operator::TwoInOperator(TwoInOperator::Divide);
    let mut stack = OperatorStack::new();
    stack.push(add);
    stack.push(multiply);
    assert_eq!(stack.push(divide), vec![multiply]);
    assert_eq!(stack.drain(), vec![divide, add]);
}

#[test]
fn unary_push_pops_nothing() {
    let power = Operator::TwoInOperator(TwoInOperator::Power);
    let root = Operator::OneInOperator(OneInOperator::SquareRoot);
    let negative = Operator::OneInOperator(OneInOperator::Negative);
    let mut stack = OperatorStack::new();
    stack.push(power);
    assert_eq!(stack.push(root), vec![]);
    assert_eq!(stack.push(negative), vec![]);
    assert_eq!(stack.highest_priority(), 4);
    assert_eq!(stack.drain(), vec![negative, root, power]);
}

#[test]
fn open_bracket_shields_what_is_below() {
    let multiply = Operator::TwoInOperator(TwoInOperator::Multiply);
    let add = Operator::TwoInOperator(TwoInOperator::Add);
    let open = Operator::Bracket(Bracket::Open);
    let mut stack = OperatorStack::new();
    stack.push(multiply);
    assert_eq!(stack.push(open), vec![]);
    assert_eq!(stack.highest_priority(), 0);
    assert_eq!(stack.push(add), vec![]);
    assert_eq!(stack.drain(), vec![add, open, multiply]);
}

#[test]
fn close_bracket_pops_to_its_open_bracket() {
    let multiply = Operator::TwoInOperator(TwoInOperator::Multiply);
    let add = Operator::TwoInOperator(TwoInOperator::Add);
    let power = Operator::TwoInOperator(TwoInOperator::Power);
    let open = Operator::Bracket(Bracket::Open);
    let close = Operator::Bracket(Bracket::Close);
    let mut stack = OperatorStack::new();
    stack.push(multiply);
    stack.push(open);
    stack.push(add);
    stack.push(power);
    assert_eq!(stack.push(close), vec![power, add]);
    // the priority below the bracket is in force again
    assert_eq!(stack.highest_priority(), 2);
    assert_eq!(stack.drain(), vec![multiply]);
}

#[test]
fn adjacent_brackets_pop_nothing() {
    let open = Operator::Bracket(Bracket::Open);
    let close = Operator::Bracket(Bracket::Close);
    let mut stack = OperatorStack::new();
    stack.push(open);
    assert_eq!(stack.push(close), vec![]);
    assert_eq!(stack.highest_priority(), -1);
    assert_eq!(stack.drain(), vec![]);
    assert_eq!(convert("()"), vec![]);
}

#[test]
fn close_bracket_without_open_empties_the_stack() {
    let add = Operator::TwoInOperator(TwoInOperator::Add);
    let root = Operator::OneInOperator(OneInOperator::SquareRoot);
    let close = Operator::Bracket(Bracket::Close);
    let mut stack = OperatorStack::new();
    stack.push(add);
    stack.push(root);
    assert_eq!(stack.push(close), vec![root, add]);
    assert_eq!(stack.highest_priority(), -1);
    assert_eq!(stack.drain(), vec![]);
}

#[test]
fn empty_expression_has_no_tokens_and_no_value() {
    assert_eq!(convert(""), vec![]);
    assert_eq!(evaluate(&vec![]), Err(EvalError::EmptyResult));
    assert_eq!(evaluate_postfix(&vec![]), None);
    assert_eq!(evaluate_infix_expr(&String::new()), None);
}

#[test]
fn constants_are_single_number_tokens() {
    assert_eq!(convert("e"), vec![Token::Number(Number::Constant(Constant::E))]);
    assert_eq!(convert("π"), vec![Token::Number(Number::Constant(Constant::Pi))]);
}

#[test]
fn conversion_has_no_hidden_state() {
    let expr = String::from("3.6+(23.2-6×3^2÷3+5)×1.5");
    let first = infix_to_postfix(&expr);
    let second = infix_to_postfix(&expr);
    assert_eq!(first, second);
    assert_eq!(convert("-12×-2"), convert("-12×-2"));
}

#[test]
fn postfix_of_a_precedence_mix() {
    assert_eq!(
        convert("3.6+(23.2-6×3^2÷3+5)×1.5"),
        vec![
            num("3.6"),
            num("23.2"),
            num("6"),
            num("3"),
            num("2"),
            two(TwoInOperator::Power),
            two(TwoInOperator::Multiply),
            num("3"),
            two(TwoInOperator::Divide),
            two(TwoInOperator::Subtract),
            num("5"),
            two(TwoInOperator::Add),
            num("1.5"),
            two(TwoInOperator::Multiply),
            two(TwoInOperator::Add),
        ]
    );
}

#[test]
fn equal_priority_pops_before_pushing() {
    assert_eq!(
        convert("8-3-2"),
        vec![
            num("8"),
            num("3"),
            two(TwoInOperator::Subtract),
            num("2"),
            two(TwoInOperator::Subtract),
        ]
    );
    assert_eq!(
        evaluate_infix_expr(&String::from("8-3-2")),
        Some(binary(
            TwoInOperator::Subtract,
            binary(TwoInOperator::Subtract, leaf("8"), leaf("3")),
            leaf("2"),
        ))
    );
}

#[test]
fn minus_after_an_operator_or_at_the_start_negates() {
    assert_eq!(
        convert("36+-4.5"),
        vec![num("36"), num("4.5"), one(OneInOperator::Negative), two(TwoInOperator::Add)]
    );
    assert_eq!(
        convert("-12×-2"),
        vec![
            num("12"),
            one(OneInOperator::Negative),
            num("2"),
            one(OneInOperator::Negative),
            two(TwoInOperator::Multiply),
        ]
    );
    assert_eq!(convert("(-3)"), vec![num("3"), one(OneInOperator::Negative)]);
    assert_eq!(
        convert("e-π"),
        vec![
            Token::Number(Number::Constant(Constant::E)),
            Token::Number(Number::Constant(Constant::Pi)),
            two(TwoInOperator::Subtract),
        ]
    );
}

#[test]
fn unary_operators_chain_from_the_inside_out() {
    assert_eq!(
        convert("-√25"),
        vec![num("25"), one(OneInOperator::SquareRoot), one(OneInOperator::Negative)]
    );
    assert_eq!(
        evaluate_infix_expr(&String::from("-√25")),
        Some(unary(OneInOperator::Negative, unary(OneInOperator::SquareRoot, leaf("25"))))
    );
    assert_eq!(
        evaluate_infix_expr(&String::from("√-36")),
        Some(unary(OneInOperator::SquareRoot, unary(OneInOperator::Negative, leaf("36"))))
    );
}

#[test]
fn a_run_of_decimal_points_is_one_literal() {
    assert_eq!(convert("1.2.3"), vec![num("1.2.3")]);
    assert_eq!(convert(".+.."), vec![num("."), num(".."), two(TwoInOperator::Add)]);
}

#[test]
fn unknown_characters_end_a_literal_and_vanish() {
    assert_eq!(convert("12a34"), vec![num("12"), num("34")]);
    assert_eq!(convert("a"), vec![]);
    assert_eq!(convert(" 7 "), vec![num("7")]);
    // a dropped character does not stand for a value
    assert_eq!(convert("a-3"), vec![num("3"), one(OneInOperator::Negative)]);
}

#[test]
fn unmatched_open_bracket_stays_in_the_output() {
    assert_eq!(
        convert("(3+4"),
        vec![
            num("3"),
            num("4"),
            two(TwoInOperator::Add),
            Token::Operator(Operator::Bracket(Bracket::Open)),
        ]
    );
    assert_eq!(evaluate(&convert("(3+4")), Err(EvalError::StackUnderflow));
}

#[test]
fn unmatched_close_bracket_is_dropped() {
    assert_eq!(convert("3+4)"), vec![num("3"), num("4"), two(TwoInOperator::Add)]);
    assert_eq!(convert(")"), vec![]);
}

#[test]
fn operator_without_operands_underflows() {
    assert_eq!(evaluate(&vec![two(TwoInOperator::Add)]), Err(EvalError::StackUnderflow));
    assert_eq!(evaluate(&vec![num("3"), two(TwoInOperator::Add)]), Err(EvalError::StackUnderflow));
    assert_eq!(evaluate(&vec![one(OneInOperator::SquareRoot)]), Err(EvalError::StackUnderflow));
    assert_eq!(
        evaluate(&vec![num("1"), num("2"), two(TwoInOperator::Add), two(TwoInOperator::Add)]),
        Err(EvalError::StackUnderflow)
    );
}

#[test]
fn bracket_token_underflows() {
    let open = Token::Operator(Operator::Bracket(Bracket::Open));
    let close = Token::Operator(Operator::Bracket(Bracket::Close));
    assert_eq!(evaluate(&vec![open.clone()]), Err(EvalError::StackUnderflow));
    assert_eq!(evaluate(&vec![num("1"), open]), Err(EvalError::StackUnderflow));
    assert_eq!(evaluate(&vec![num("1"), num("2"), close]), Err(EvalError::StackUnderflow));
}

#[test]
fn binary_operator_takes_the_lower_value_as_left() {
    assert_eq!(
        evaluate(&vec![num("32"), num("10"), two(TwoInOperator::Divide)]),
        Ok(binary(TwoInOperator::Divide, leaf("32"), leaf("10")))
    );
    assert_eq!(
        evaluate(&vec![num("4"), num("3.5"), two(TwoInOperator::Power)]),
        Ok(binary(TwoInOperator::Power, leaf("4"), leaf("3.5")))
    );
}

#[test]
fn leftover_values_multiply_from_the_top() {
    assert_eq!(
        evaluate(&vec![num("2"), num("3"), num("4")]),
        Ok(binary(
            TwoInOperator::Multiply,
            leaf("2"),
            binary(TwoInOperator::Multiply, leaf("3"), leaf("4")),
        ))
    );
    assert_eq!(evaluate(&vec![num("2")]), Ok(leaf("2")));
}

#[test]
fn apply_builds_the_application() {
    assert_eq!(
        OneInOperator::SquareRoot.apply(leaf("16")),
        unary(OneInOperator::SquareRoot, leaf("16"))
    );
    assert_eq!(
        TwoInOperator::Subtract.apply(leaf("8"), leaf("3")),
        binary(TwoInOperator::Subtract, leaf("8"), leaf("3"))
    );
}

#[test]
fn evaluate_postfix_forgets_the_error() {
    assert_eq!(evaluate_postfix(&vec![two(TwoInOperator::Add)]), None);
    assert_eq!(evaluate_postfix(&vec![num("5")]), Some(leaf("5")));
}

#[test]
fn bracketed_term_is_read_back() {
    // ((1.5+(2×3))÷(√16)), every application in its own brackets
    let term = binary(
        TwoInOperator::Divide,
        binary(
            TwoInOperator::Add,
            leaf("1.5"),
            binary(TwoInOperator::Multiply, leaf("2"), leaf("3")),
        ),
        unary(OneInOperator::SquareRoot, leaf("16")),
    );
    assert_eq!(
        convert("((1.5+(2×3))÷(√16))"),
        vec![
            num("1.5"),
            num("2"),
            num("3"),
            two(TwoInOperator::Multiply),
            two(TwoInOperator::Add),
            num("16"),
            one(OneInOperator::SquareRoot),
            two(TwoInOperator::Divide),
        ]
    );
    assert_eq!(evaluate_infix_expr(&String::from("((1.5+(2×3))÷(√16))")), Some(term));
    // a subtraction from a bare number, and a sign in brackets
    assert_eq!(
        evaluate_infix_expr(&String::from("(7-(-(e^2)))")),
        Some(binary(
            TwoInOperator::Subtract,
            leaf("7"),
            unary(
                OneInOperator::Negative,
                binary(
                    TwoInOperator::Power,
                    Term::Number(Number::Constant(Constant::E)),
                    leaf("2"),
                ),
            ),
        ))
    );
}

#[test]
fn subtraction_from_a_bracket_is_not_read_back() {
    // the sign after the close bracket negates, and the values multiply
    assert_eq!(
        evaluate_infix_expr(&String::from("((1+2)-3)")),
        Some(binary(
            TwoInOperator::Multiply,
            binary(TwoInOperator::Add, leaf("1"), leaf("2")),
            unary(OneInOperator::Negative, leaf("3")),
        ))
    );
}

fn is_bracket(token: &Token) -> bool {
    matches!(token, Token::Operator(Operator::Bracket(_)))
}

#[test]
fn closed_brackets_leave_no_bracket_token() {
    for expr in ["(1+2)×3", "((2))", "()", "3+4)", ")(5)", "√(4)^(1÷2)"] {
        assert!(!convert(expr).iter().any(is_bracket));
    }
}

#[test]
fn open_brackets_end_in_underflow() {
    for expr in ["(", "(1+2", "((3)", "2×(", ")(", "1+(2×(3+4)"] {
        let tokens = convert(expr);
        assert!(tokens.contains(&Token::Operator(Operator::Bracket(Bracket::Open))));
        assert!(!tokens.contains(&Token::Operator(Operator::Bracket(Bracket::Close))));
        assert_eq!(evaluate(&tokens), Err(EvalError::StackUnderflow));
    }
}

fn parsed(expr: &str) -> Option<Term> {
    evaluate_infix_expr(&String::from(expr))
}

#[test]
fn tighter_operator_is_applied_first() {
    assert_eq!(
        parsed("2+3×4"),
        Some(binary(
            TwoInOperator::Add,
            leaf("2"),
            binary(TwoInOperator::Multiply, leaf("3"), leaf("4")),
        ))
    );
    assert_eq!(
        parsed("2×3+4"),
        Some(binary(
            TwoInOperator::Add,
            binary(TwoInOperator::Multiply, leaf("2"), leaf("3")),
            leaf("4"),
        ))
    );
    assert_eq!(
        parsed("2÷3^4"),
        Some(binary(
            TwoInOperator::Divide,
            leaf("2"),
            binary(TwoInOperator::Power, leaf("3"), leaf("4")),
        ))
    );
}

#[test]
fn equal_priority_groups_to_the_left() {
    assert_eq!(
        parsed("2^3^2"),
        Some(binary(
            TwoInOperator::Power,
            binary(TwoInOperator::Power, leaf("2"), leaf("3")),
            leaf("2"),
        ))
    );
    assert_eq!(
        parsed("8÷4×2"),
        Some(binary(
            TwoInOperator::Multiply,
            binary(TwoInOperator::Divide, leaf("8"), leaf("4")),
            leaf("2"),
        ))
    );
    assert_eq!(
        parsed("1-2+3"),
        Some(binary(
            TwoInOperator::Add,
            binary(TwoInOperator::Subtract, leaf("1"), leaf("2")),
            leaf("3"),
        ))
    );
}

#[test]
fn a_sign_binds_tighter_than_any_binary_operator() {
    assert_eq!(
        parsed("-2^2"),
        Some(binary(
            TwoInOperator::Power,
            unary(OneInOperator::Negative, leaf("2")),
            leaf("2"),
        ))
    );
    assert_eq!(
        parsed("2^-3"),
        Some(binary(
            TwoInOperator::Power,
            leaf("2"),
            unary(OneInOperator::Negative, leaf("3")),
        ))
    );
    assert_eq!(
        parsed("π-e"),
        Some(binary(
            TwoInOperator::Subtract,
            Term::Number(Number::Constant(Constant::Pi)),
            Term::Number(Number::Constant(Constant::E)),
        ))
    );
}

#[test]
fn a_number_alone_is_its_own_value() {
    assert_eq!(parsed("42"), Some(leaf("42")));
    assert_eq!(parsed(".5"), Some(leaf(".5")));
    assert_eq!(parsed("π"), Some(Term::Number(Number::Constant(Constant::Pi))));
}
