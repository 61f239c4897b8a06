//! A calculator core: infix expressions are turned into postfix token
//! sequences by an operator-stack scan, and postfix sequences are reduced
//! by a value-stack machine.

pub mod brackets;
pub mod convert;
pub mod evaluate;
pub mod grouping;
pub mod operator;
pub mod operator_stack;
pub mod round_trip;
pub mod session;
pub mod term;
pub mod token;

pub use convert::infix_to_postfix;
pub use evaluate::{evaluate, evaluate_infix_expr, evaluate_postfix, EvalError};
pub use operator::{Bracket, Constant, OneInOperator, Operator, TwoInOperator};
pub use operator::{char_to_operator, char_to_value};
pub use operator_stack::OperatorStack;
pub use session::{classify, Calculation, Key, Session};
pub use term::Term;
pub use token::{Number, Token};
