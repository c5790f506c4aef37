//! The evaluation context handed to a rule evaluation.

use vstd::prelude::*;
use crate::rat::Rat;

verus! {

/// A plain record of the inputs one evaluation reads: three booleans for the
/// flags `A`, `B`, `C`, one rational for `D`, and two integers for `E`, `F`.
/// Never mutated by the engine.
#[derive(Debug, Clone, Copy)]
pub struct Scope {
    pub a: bool,
    pub b: bool,
    pub c: bool,
    pub d: Rat,
    pub e: i64,
    pub f: i64,
}

impl Scope {
    pub fn new(a: bool, b: bool, c: bool, d: Rat, e: i64, f: i64) -> (r: Scope)
        ensures
            r == (Scope { a, b, c, d, e, f }),
    {
        Scope { a, b, c, d, e, f }
    }

    /// A scope that sets only the flags; the numeric inputs are zero.
    pub fn abc(a: bool, b: bool, c: bool) -> (r: Scope)
        ensures
            r == (Scope { a, b, c, d: Rat { num: 0, den: 1 }, e: 0, f: 0 }),
    {
        Scope { a, b, c, d: Rat { num: 0, den: 1 }, e: 0, f: 0 }
    }

    /// A scope that sets only the numeric inputs; the flags are false.
    pub fn def(d: Rat, e: i64, f: i64) -> (r: Scope)
        ensures
            r == (Scope { a: false, b: false, c: false, d, e, f }),
    {
        Scope { a: false, b: false, c: false, d, e, f }
    }
}

} // verus!
