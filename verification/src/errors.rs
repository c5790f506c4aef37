//! The error taxonomy of the engine, one enum per failing operation.

use vstd::prelude::*;
use crate::output::H;
use crate::tokenize::{Token, TokenizeError};

verus! {

/// Why compiling a token sequence into a rule failed.
#[derive(Debug, Clone, Copy, PartialEq, Eq, Structural)]
pub enum CompileError {
    /// No `Arrow` token in the sequence.
    NoArrow,
    /// A boolean rule whose tail does not name one of the three tags.
    NoOutput,
    /// A token the sub-expression grammar does not know.
    UnexpectedToken(Token),
    /// An arithmetic rule whose key position holds no tag.
    BadKey(Token),
    /// An arithmetic rule that ends before its key tag.
    MissingKey,
    /// An arithmetic rule whose tokens after `Arrow` are not `K`, `Eq`, formula.
    BadTail,
}

/// Why evaluating a compiled arithmetic formula failed.
#[derive(Debug, Clone, Copy, PartialEq, Eq, Structural)]
pub enum EvalError {
    /// A division whose divisor evaluates to zero.
    DivByZero,
    /// An exact intermediate value that does not fit the rational fields.
    Overflow,
    /// An instruction the arithmetic evaluator does not know, by position.
    InvalidToken { pos: usize },
}

/// Why turning rule text into a compiled rule failed.
#[derive(Debug, Clone, Copy, PartialEq, Eq, Structural)]
pub enum ExprError {
    Tokenize(TokenizeError),
    Compile(CompileError),
    /// The text holds no token at all.
    Empty,
}

/// Why resolving a context against a rule set failed.
#[derive(Debug, Clone, Copy, PartialEq, Eq, Structural)]
pub enum RunError {
    /// No boolean rule matched the context.
    NoRuleMatched,
    /// No arithmetic rule is keyed by the matched tag.
    NoFormula(H),
    /// The selected arithmetic rule failed to evaluate.
    Eval(EvalError),
}

} // verus!
