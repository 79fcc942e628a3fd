//! A typed boolean-expression engine over a caller-defined domain.
//!
//! A domain declares properties, each with a name and a datatype. Conditions
//! bind a property to an expected value or to a set of values, expressions
//! combine conditions with `not`, `or` and `and`, and evaluation folds an
//! expression as far as the values known so far allow: to a truth value, or
//! to a smaller expression that waits for more values.
//!
//! Every function states what it returns over the mathematical content of
//! its arguments, their views: [`value`] and [`domain`] hold the values and
//! what a domain provides, [`condition`] and [`context`] the conditions and
//! the known values, [`node`] and [`evaluation`] what the nodes of an
//! expression are and mean, [`expression`] the builder and the evaluator,
//! and [`laws`] what follows for every domain.

pub mod text;
pub mod sequence;
pub mod value;
pub mod error;
pub mod domain;
pub mod condition;
pub mod context;
pub mod node;
pub mod evaluation;
pub mod expression;
pub mod laws;
pub mod testproperty;
