//! The rule set: an ordered collection of compiled rules with
//! replace-on-insert semantics, and the two-step resolution that chains a
//! boolean-stage tag into an arithmetic-stage formula.

use vstd::prelude::*;
use crate::base1::s1_truth;
use crate::base2::{s2_eval, Base2Expr};
use crate::errors::{ExprError, RunError};
use crate::expr::{expr_wf, rule_eq, shape, spec_from_str, Expr, RuleShape};
use crate::output::H;
use crate::rat::{rat_valid, Rat};
use crate::scope::Scope;

verus! {

/// The rules not structurally equal to `e`, in their stored order.
pub open spec fn spec_filter_ne(exprs: Seq<Expr>, e: Expr) -> Seq<Expr>
    decreases exprs.len(),
{
    if exprs.len() == 0 {
        Seq::empty()
    } else if rule_eq(exprs[0], e) {
        spec_filter_ne(exprs.drop_first(), e)
    } else {
        seq![exprs[0]] + spec_filter_ne(exprs.drop_first(), e)
    }
}

/// Insert-with-override: every rule structurally equal to `e` is dropped,
/// then `e` is appended, so the new rule stands last.
pub open spec fn spec_insert(exprs: Seq<Expr>, e: Expr) -> Seq<Expr> {
    spec_filter_ne(exprs, e).push(e)
}

/// Every stored rule is well formed.
pub open spec fn app_wf(exprs: Seq<Expr>) -> bool {
    forall|k: int| 0 <= k < exprs.len() ==> expr_wf(#[trigger] exprs[k])
}

/// The tag of the first boolean rule whose guard holds, by stored order.
pub open spec fn first_tag_at(exprs: Seq<Expr>, i: int, s: Scope) -> Option<H>
    decreases exprs.len() - i when 0 <= i <= exprs.len()
{
    if i >= exprs.len() {
        None
    } else {
        match exprs[i] {
            Expr::Base1(b) => if s1_truth(b.executable.inner@, s) {
                Some(b.output)
            } else {
                first_tag_at(exprs, i + 1, s)
            },
            _ => first_tag_at(exprs, i + 1, s),
        }
    }
}

/// The first arithmetic rule keyed by `tag`, by stored order.
pub open spec fn first_formula_at(exprs: Seq<Expr>, i: int, tag: H) -> Option<Base2Expr>
    decreases exprs.len() - i when 0 <= i <= exprs.len()
{
    if i >= exprs.len() {
        None
    } else {
        match exprs[i] {
            Expr::Base2(b) => if b.output == tag {
                Some(b)
            } else {
                first_formula_at(exprs, i + 1, tag)
            },
            _ => first_formula_at(exprs, i + 1, tag),
        }
    }
}

/// Two-step resolution: the first matching boolean rule names the tag, the
/// first arithmetic rule keyed by that tag is evaluated. `None` stands for
/// the underflow a well-formed rule set never reaches.
pub open spec fn spec_resolve(exprs: Seq<Expr>, s: Scope) -> Option<Result<Rat, RunError>> {
    match first_tag_at(exprs, 0, s) {
        None => Some(Err(RunError::NoRuleMatched)),
        Some(tag) => match first_formula_at(exprs, 0, tag) {
            None => Some(Err(RunError::NoFormula(tag))),
            Some(b) => match s2_eval(b.executable.inner@, s) {
                None => None,
                Some(Ok(v)) => Some(Ok(v)),
                Some(Err(e)) => Some(Err(RunError::Eval(e))),
            },
        },
    }
}

/// The rule set. Grows only by insertion; an insertion replaces any rule
/// structurally equal to the new one.
#[derive(Debug, Clone)]
pub struct App {
    pub exprs: Vec<Expr>,
}

impl App {
    /// The empty rule set.
    pub fn new() -> (r: App)
        ensures
            r.exprs@ == Seq::<Expr>::empty(),
    {
        App { exprs: Vec::new() }
    }

    /// Compile rule text and insert the compiled rule.
    pub fn add(self, expr: &str) -> (r: Result<App, ExprError>)
        ensures
            match r {
                Ok(a) => spec_from_str(expr@) matches Ok(sh) && a.exprs@.len() >= 1 && shape(
                    a.exprs@.last(),
                ) == sh && a.exprs@ == spec_insert(self.exprs@, a.exprs@.last()),
                Err(er) => spec_from_str(expr@) == Err::<RuleShape, ExprError>(er),
            },
    {
        match Expr::from_str(expr) {
            Ok(e) => Ok(self.add_expr(e)),
            Err(er) => Err(er),
        }
    }

    /// Insert a compiled rule with override.
    pub fn add_expr(self, e: Expr) -> (r: App)
        ensures
            r.exprs@ == spec_insert(self.exprs@, e),
    {
        let ghost orig = self.exprs@;
        let mut src = self.exprs;
        let mut out: Vec<Expr> = Vec::new();
        while src.len() > 0
            invariant
                spec_filter_ne(orig, e) == out@ + spec_filter_ne(src@, e),
            decreases src@.len(),
        {
            let ghost src0 = src@;
            let ghost out0 = out@;
            let x = src.remove(0);
            proof {
                assert(src@ =~= src0.drop_first());
            }
            if !(x == e) {
                out.push(x);
                proof {
                    assert(out@ + spec_filter_ne(src@, e) =~= out0 + (seq![x] + spec_filter_ne(
                        src@,
                        e,
                    )));
                }
            }
        }
        proof {
            assert(out@ + spec_filter_ne(src@, e) =~= out@);
        }
        out.push(e);
        App { exprs: out }
    }

    /// Whether every stored rule is well formed.
    pub fn well_formed(&self) -> (r: bool)
        ensures
            r == app_wf(self.exprs@),
    {
        let n = self.exprs.len();
        let mut i: usize = 0;
        while i < n
            invariant
                i <= n,
                n == self.exprs@.len(),
                forall|k: int| 0 <= k < i ==> expr_wf(#[trigger] self.exprs@[k]),
            decreases n - i,
        {
            let x = &self.exprs[i];
            if !x.well_formed() {
                return false;
            }
            i += 1;
        }
        true
    }

    /// Resolve a context: every boolean rule is evaluated in stored order and
    /// the first match names the tag; the first arithmetic rule keyed by that
    /// tag yields the result.
    pub fn run(&self, s: Scope) -> (r: Result<Rat, RunError>)
        requires
            app_wf(self.exprs@),
            rat_valid(s.d),
        ensures
            Some(r) == spec_resolve(self.exprs@, s),
            r matches Ok(v) ==> rat_valid(v),
    {
        let n = self.exprs.len();
        let mut i: usize = 0;
        let mut fst: Option<H> = None;
        while i < n
            invariant
                i <= n,
                n == self.exprs@.len(),
                app_wf(self.exprs@),
                match fst {
                    None => first_tag_at(self.exprs@, 0, s) == first_tag_at(
                        self.exprs@,
                        i as int,
                        s,
                    ),
                    Some(t) => first_tag_at(self.exprs@, 0, s) == Some(t),
                },
            decreases n - i,
        {
            let x = &self.exprs[i];
            proof {
                assert(expr_wf(self.exprs@[i as int]));
            }
            match x {
                Expr::Base1(b) => {
                    let m = b.run(s);
                    if fst.is_none() {
                        if let Some(t) = m {
                            fst = Some(t);
                        }
                    }
                },
                _ => {},
            }
            i += 1;
        }
        let tag = match fst {
            Some(t) => t,
            None => {
                return Err(RunError::NoRuleMatched);
            },
        };
        let mut j: usize = 0;
        while j < n
            invariant
                j <= n,
                n == self.exprs@.len(),
                app_wf(self.exprs@),
                rat_valid(s.d),
                first_tag_at(self.exprs@, 0, s) == Some(tag),
                first_formula_at(self.exprs@, 0, tag) == first_formula_at(
                    self.exprs@,
                    j as int,
                    tag,
                ),
            decreases n - j,
        {
            let x = &self.exprs[j];
            proof {
                assert(expr_wf(self.exprs@[j as int]));
            }
            match x {
                Expr::Base2(b) => {
                    if b.output() == tag {
                        match b.run(s) {
                            Ok(v) => {
                                return Ok(v);
                            },
                            Err(e) => {
                                return Err(RunError::Eval(e));
                            },
                        }
                    }
                },
                _ => {},
            }
            j += 1;
        }
        Err(RunError::NoFormula(tag))
    }
}

proof fn lemma_filter_ne_members(exprs: Seq<Expr>, e: Expr)
    ensures
        forall|k: int|
            0 <= k < spec_filter_ne(exprs, e).len() ==> !rule_eq(
                #[trigger] spec_filter_ne(exprs, e)[k],
                e,
            ),
    decreases exprs.len(),
{
    if exprs.len() > 0 {
        lemma_filter_ne_members(exprs.drop_first(), e);
        let f = spec_filter_ne(exprs, e);
        let rest = spec_filter_ne(exprs.drop_first(), e);
        if !rule_eq(exprs[0], e) {
            assert forall|k: int| 0 <= k < f.len() implies !rule_eq(f[k], e) by {
                if k == 0 {
                    assert(f[0] == exprs[0]);
                } else {
                    assert(f[k] == rest[k - 1]);
                }
            }
        }
    }
}

proof fn lemma_filter_ne_noop(exprs: Seq<Expr>, e: Expr)
    requires
        forall|k: int| 0 <= k < exprs.len() ==> !rule_eq(#[trigger] exprs[k], e),
    ensures
        spec_filter_ne(exprs, e) == exprs,
    decreases exprs.len(),
{
    if exprs.len() > 0 {
        lemma_filter_ne_noop(exprs.drop_first(), e);
        assert(seq![exprs[0]] + exprs.drop_first() =~= exprs);
    }
}

proof fn lemma_filter_ne_push(exprs: Seq<Expr>, x: Expr, e: Expr)
    ensures
        spec_filter_ne(exprs.push(x), e) == if rule_eq(x, e) {
            spec_filter_ne(exprs, e)
        } else {
            spec_filter_ne(exprs, e).push(x)
        },
    decreases exprs.len(),
{
    if exprs.len() == 0 {
        assert(exprs.push(x).len() == 1);
        assert(exprs.push(x)[0] == x);
        assert(exprs.push(x).drop_first() =~= exprs);
        assert(spec_filter_ne(exprs, e) == Seq::<Expr>::empty());
        if !rule_eq(x, e) {
            assert(spec_filter_ne(exprs.push(x), e) == seq![x] + spec_filter_ne(exprs, e));
            assert(seq![x] + spec_filter_ne(exprs, e) =~= spec_filter_ne(exprs, e).push(x));
        }
    } else {
        assert(exprs.push(x).len() == exprs.len() + 1);
        assert(exprs.push(x)[0] == exprs[0]);
        assert(exprs.push(x).drop_first() =~= exprs.drop_first().push(x));
        lemma_filter_ne_push(exprs.drop_first(), x, e);
        assert(spec_filter_ne(exprs.push(x).drop_first(), e) == spec_filter_ne(
            exprs.drop_first().push(x),
            e,
        ));
        if rule_eq(exprs[0], e) {
            assert(spec_filter_ne(exprs.push(x), e) == spec_filter_ne(
                exprs.push(x).drop_first(),
                e,
            ));
            assert(spec_filter_ne(exprs, e) == spec_filter_ne(exprs.drop_first(), e));
        } else if rule_eq(x, e) {
            assert(spec_filter_ne(exprs.push(x), e) == seq![exprs[0]] + spec_filter_ne(
                exprs.drop_first(),
                e,
            ));
            assert(spec_filter_ne(exprs, e) == seq![exprs[0]] + spec_filter_ne(
                exprs.drop_first(),
                e,
            ));
        } else {
            assert(spec_filter_ne(exprs.push(x), e) == seq![exprs[0]] + spec_filter_ne(
                exprs.drop_first(),
                e,
            ).push(x));
            assert(seq![exprs[0]] + spec_filter_ne(exprs.drop_first(), e).push(x) =~= (seq![
                exprs[0],
            ] + spec_filter_ne(exprs.drop_first(), e)).push(x));
            assert(spec_filter_ne(exprs, e) == seq![exprs[0]] + spec_filter_ne(
                exprs.drop_first(),
                e,
            ));
        }
    }
}

/// Insertion idempotence: inserting a rule structurally equal to one already
/// inserted leaves the rule set exactly as the first insertion left it — the
/// duplicate replaces itself at the end — so resolution against any context
/// is unchanged.
pub proof fn lemma_insert_idempotent(exprs: Seq<Expr>, e: Expr, s: Scope)
    ensures
        spec_insert(spec_insert(exprs, e), e) == spec_insert(exprs, e),
        spec_resolve(spec_insert(spec_insert(exprs, e), e), s) == spec_resolve(
            spec_insert(exprs, e),
            s,
        ),
{
    let f = spec_filter_ne(exprs, e);
    lemma_filter_ne_push(f, e, e);
    lemma_filter_ne_members(exprs, e);
    lemma_filter_ne_noop(f, e);
}

} // verus!

