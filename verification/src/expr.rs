//! Compiled rules: the dispatch between the two rule variants, chosen once
//! by the leading token of the rule text.

use vstd::prelude::*;
use crate::base1::{spec_base1_build, s1_truth, s1_wf, Base1Expr};
use crate::base2::{spec_base2_build, s2_consts_valid, s2_eval, s2_wf, Base2Expr};
use crate::errors::{EvalError, ExprError};
use crate::output::H;
use crate::rat::{rat_valid, Rat};
use crate::scope::Scope;
use crate::tokenize::{spec_tokenize, tokenize, Token};

verus! {

/// A compiled rule of either stage.
#[derive(Debug, Clone)]
pub enum Expr {
    Base1(Base1Expr),
    Base2(Base2Expr),
}

impl PartialEq for Expr {
    fn eq(&self, other: &Self) -> (r: bool) {
        match (self, other) {
            (Expr::Base1(x), Expr::Base1(y)) => x.eq(y),
            (Expr::Base2(x), Expr::Base2(y)) => x.eq(y),
            _ => false,
        }
    }
}

impl vstd::std_specs::cmp::PartialEqSpecImpl for Expr {
    open spec fn obeys_eq_spec() -> bool {
        true
    }

    open spec fn eq_spec(&self, other: &Self) -> bool {
        rule_eq(*self, *other)
    }
}

/// What identifies a compiled rule: its variant, its tag and its postfix
/// instruction sequence. The mathematical view of an [`Expr`].
pub enum RuleShape {
    /// A boolean rule: output tag and guard instructions.
    Guard(H, Seq<Token>),
    /// An arithmetic rule: key tag and formula instructions.
    Formula(H, Seq<Token>),
}

/// The view of a compiled rule.
pub open spec fn shape(e: Expr) -> RuleShape {
    match e {
        Expr::Base1(b) => RuleShape::Guard(b.output, b.executable.inner@),
        Expr::Base2(b) => RuleShape::Formula(b.output, b.executable.inner@),
    }
}

/// Structural rule equality: same variant and same instruction sequence.
/// The tag is deliberately not part of a rule's identity.
pub open spec fn rule_eq(a: Expr, b: Expr) -> bool {
    match (a, b) {
        (Expr::Base1(x), Expr::Base1(y)) => x.executable.inner@ == y.executable.inner@,
        (Expr::Base2(x), Expr::Base2(y)) => x.executable.inner@ == y.executable.inner@,
        _ => false,
    }
}

/// A rule whose instructions evaluation can run without underflow, with
/// every literal valid.
pub open spec fn expr_wf(e: Expr) -> bool {
    match e {
        Expr::Base1(b) => s1_wf(b.executable.inner@),
        Expr::Base2(b) => s2_wf(b.executable.inner@) && s2_consts_valid(b.executable.inner@),
    }
}

/// What compiling rule text yields: tokenization, then the compiler chosen
/// by the leading token (`H` starts an arithmetic rule).
pub open spec fn spec_from_str(s: Seq<char>) -> Result<RuleShape, ExprError> {
    match spec_tokenize(s) {
        Err(e) => Err(ExprError::Tokenize(e)),
        Ok(toks) => if toks.len() == 0 {
            Err(ExprError::Empty)
        } else if toks[0] == Token::H {
            match spec_base2_build(toks) {
                Ok((tag, code)) => Ok(RuleShape::Formula(tag, code)),
                Err(c) => Err(ExprError::Compile(c)),
            }
        } else {
            match spec_base1_build(toks) {
                Ok((tag, code)) => Ok(RuleShape::Guard(tag, code)),
                Err(c) => Err(ExprError::Compile(c)),
            }
        },
    }
}

/// What one rule yields against a context: a (possible) tag from a boolean
/// rule, a number from an arithmetic rule.
#[derive(Debug, Clone, Copy, PartialEq)]
pub enum BaseOutput {
    /// An arithmetic rule's value.
    Num(Rat),
    /// A boolean rule's tag, or no match.
    Output(Option<H>),
}

impl Expr {
    /// Compile rule text into a rule of the stage its leading token picks.
    pub fn from_str(s: &str) -> (r: Result<Expr, ExprError>)
        ensures
            match r {
                Ok(e) => spec_from_str(s@) == Ok::<RuleShape, ExprError>(shape(e)),
                Err(er) => spec_from_str(s@) == Err::<RuleShape, ExprError>(er),
            },
    {
        let tokens = match tokenize(s) {
            Ok(t) => t,
            Err(e) => {
                return Err(ExprError::Tokenize(e));
            },
        };
        if tokens.len() == 0 {
            return Err(ExprError::Empty);
        }
        if tokens[0] == Token::H {
            match Base2Expr::build(&tokens) {
                Ok(e) => Ok(Expr::Base2(e)),
                Err(c) => Err(ExprError::Compile(c)),
            }
        } else {
            match Base1Expr::build(&tokens) {
                Ok(e) => Ok(Expr::Base1(e)),
                Err(c) => Err(ExprError::Compile(c)),
            }
        }
    }

    /// Whether this rule's instructions are well formed.
    pub fn well_formed(&self) -> (r: bool)
        ensures
            r == expr_wf(*self),
    {
        match self {
            Expr::Base1(b) => b.well_formed(),
            Expr::Base2(b) => b.well_formed(),
        }
    }

    /// Evaluate this rule against a context.
    pub fn run(&self, s: Scope) -> (r: Result<BaseOutput, EvalError>)
        requires
            expr_wf(*self),
            rat_valid(s.d),
        ensures
            self matches Expr::Base1(b) ==> r == Ok::<BaseOutput, EvalError>(
                BaseOutput::Output(
                    if s1_truth(b.executable.inner@, s) {
                        Some(b.output)
                    } else {
                        None
                    },
                ),
            ),
            self matches Expr::Base2(b) ==> match r {
                Ok(o) => o matches BaseOutput::Num(v) && s2_eval(b.executable.inner@, s) == Some(
                    Ok::<Rat, EvalError>(v),
                ) && rat_valid(v),
                Err(e) => s2_eval(b.executable.inner@, s) == Some(Err::<Rat, EvalError>(e)),
            },
    {
        match self {
            Expr::Base1(e) => Ok(BaseOutput::Output(e.run(s))),
            Expr::Base2(e) => match e.run(s) {
                Ok(v) => Ok(BaseOutput::Num(v)),
                Err(er) => Err(er),
            },
        }
    }
}

/// Compiling is deterministic: equal token sequences compile to equal
/// postfix shapes, and equal rule texts to equal rules. Re-serializing a
/// compiled rule's postfix form is therefore stable.
pub proof fn lemma_compile_deterministic(t1: Seq<Token>, t2: Seq<Token>, s1: Seq<char>, s2: Seq<char>)
    requires
        t1 == t2,
        s1 == s2,
    ensures
        spec_base1_build(t1) == spec_base1_build(t2),
        spec_base2_build(t1) == spec_base2_build(t2),
        spec_from_str(s1) == spec_from_str(s2),
{
}

} // verus!
