//! A two-stage rule engine over a fixed symbol set.
//!
//! Stage one evaluates boolean guard rules over the flags `A`, `B`, `C` and
//! yields a category tag (`M`, `P` or `T`); stage two evaluates an arithmetic
//! formula rule keyed by that tag over the numeric inputs `D`, `E`, `F`.
//! Rule text is tokenized, compiled to postfix form, and evaluated on a stack;
//! a rule set stores compiled rules with replace-on-insert semantics and
//! chains the two stages.
//!
//! Numeric values are exact rationals ([`rat::Rat`]), so every arithmetic
//! result is either exact or an explicit error; division by zero and
//! overflow never produce a silent wrong value.

pub mod app;
pub mod base1;
pub mod base2;
pub mod errors;
pub mod expr;
pub mod output;
pub mod rat;
pub mod scope;
pub mod tokenize;
