//! A calculator for one operation on two natural numbers of any size: a
//! line such as `3 + 4` is read into an `Operation`, and an `Operation` is
//! carried out exactly, on fractions of 128-bit integers.

pub mod chars;
pub mod decimal;
pub mod divisors;
pub mod grammar;
pub mod laws;
pub mod operation;
pub mod rational;
pub mod session;

pub use decimal::Natural;
pub use operation::{MathStringParseError, Operation};
pub use rational::{EvalError, Rational};
pub use session::{respond, Reply};
