//! A small symbolic-algebra engine: formulas are parsed into expression
//! trees, evaluated with exact rational arithmetic against a bank of named
//! definitions, and differentiated symbolically.
use vstd::prelude::*;

pub mod rational;
pub mod text;
pub mod expression;
pub mod error;
pub mod parser;
pub mod bank;
pub mod derivative;
pub mod evaluate;
pub mod laws;
pub mod roundtrip;

pub use bank::{Bank, Letter, Value, add_func_to_bank, add_var_to_bank, new_bank};
pub use error::{EvalError, ParseError};
pub use evaluate::{Transcendental, get_expression};
pub use expression::{Equation, Expression, Operation, copy_expression};
pub use parser::{get_name, is_func, is_implied_mult, is_special, is_wrapped};
pub use rational::Rational;

verus! {

} // verus!
