//! Boolean-stage rules: a guard over the flags compiled to postfix form,
//! evaluated against a context to yield the rule's tag or no match.

use vstd::prelude::*;
use crate::errors::CompileError;
use crate::output::H;
use crate::scope::Scope;
use crate::tokenize::{find_arrow, first_arrow, token_vec_eq, Token};

verus! {

/// The postfix transform of a guard: flag reads are emitted at once and pop
/// one pending operator behind them; `Not` and `And` are pushed on the stack;
/// what remains on the stack is flushed last, in stack order. `Err` carries
/// the first token the guard grammar does not know.
pub open spec fn s1_build_at(input: Seq<Token>, i: int, stack: Seq<Token>, out: Seq<Token>) -> Result<
    Seq<Token>,
    Token,
>
    decreases input.len() - i when 0 <= i <= input.len()
{
    if i >= input.len() {
        Ok(out + stack.reverse())
    } else {
        match input[i] {
            Token::Not => s1_build_at(input, i + 1, stack.push(Token::Not), out),
            Token::And => s1_build_at(input, i + 1, stack.push(Token::And), out),
            Token::A | Token::B | Token::C => {
                let out2 = out.push(input[i]);
                if stack.len() == 0 {
                    s1_build_at(input, i + 1, stack, out2)
                } else {
                    s1_build_at(input, i + 1, stack.drop_last(), out2.push(stack.last()))
                }
            },
            _ => Err(input[i]),
        }
    }
}

/// The postfix form of a whole guard.
pub open spec fn s1_build(input: Seq<Token>) -> Result<Seq<Token>, Token> {
    s1_build_at(input, 0, Seq::empty(), Seq::empty())
}

/// Stack-depth simulation of evaluation: `Some(final depth)` when no
/// instruction underflows the value stack, `None` otherwise. Depth does not
/// depend on the context, only on the instruction shape.
pub open spec fn s1_depth_at(code: Seq<Token>, i: int, depth: int) -> Option<int>
    decreases code.len() - i when 0 <= i <= code.len()
{
    if i >= code.len() {
        Some(depth)
    } else {
        match code[i] {
            Token::A | Token::B | Token::C => s1_depth_at(code, i + 1, depth + 1),
            Token::Not => if depth >= 1 {
                s1_depth_at(code, i + 1, depth)
            } else {
                None
            },
            Token::And => if depth >= 2 {
                s1_depth_at(code, i + 1, depth - 1)
            } else {
                None
            },
            _ => None,
        }
    }
}

/// A postfix sequence is well formed when evaluation cannot underflow and
/// leaves at least one value as the guard's truth.
pub open spec fn s1_wf(code: Seq<Token>) -> bool {
    match s1_depth_at(code, 0, 0) {
        Some(d) => d >= 1,
        None => false,
    }
}

/// Evaluation on a boolean value stack: flag reads push the context flag,
/// `Not` negates the top, `And` replaces the two top values by their
/// conjunction. `None` on underflow or a foreign instruction.
pub open spec fn s1_eval_at(code: Seq<Token>, i: int, stack: Seq<bool>, s: Scope) -> Option<
    Seq<bool>,
>
    decreases code.len() - i when 0 <= i <= code.len()
{
    if i >= code.len() {
        Some(stack)
    } else {
        match code[i] {
            Token::A => s1_eval_at(code, i + 1, stack.push(s.a), s),
            Token::B => s1_eval_at(code, i + 1, stack.push(s.b), s),
            Token::C => s1_eval_at(code, i + 1, stack.push(s.c), s),
            Token::Not => if stack.len() >= 1 {
                s1_eval_at(code, i + 1, stack.drop_last().push(!stack.last()), s)
            } else {
                None
            },
            Token::And => if stack.len() >= 2 {
                let x = stack[stack.len() - 2];
                let y = stack.last();
                s1_eval_at(code, i + 1, stack.drop_last().drop_last().push(x && y), s)
            } else {
                None
            },
            _ => None,
        }
    }
}

/// The truth of a well-formed guard against a context: the last value left
/// on the stack after the whole sequence ran.
pub open spec fn s1_truth(code: Seq<Token>, s: Scope) -> bool {
    match s1_eval_at(code, 0, Seq::empty(), s) {
        Some(st) => st.len() >= 1 && st.last(),
        None => false,
    }
}


/// One instruction's effect on the evaluation stack depth.
pub open spec fn s1_step(t: Token, d: int) -> Option<int> {
    match t {
        Token::A | Token::B | Token::C => Some(d + 1),
        Token::Not => if d >= 1 {
            Some(d)
        } else {
            None
        },
        Token::And => if d >= 2 {
            Some(d - 1)
        } else {
            None
        },
        _ => None,
    }
}

proof fn lemma_s1_depth_append(code: Seq<Token>, t: Token, i: int, dep: int)
    requires
        0 <= i <= code.len(),
    ensures
        s1_depth_at(code.push(t), i, dep) == match s1_depth_at(code, i, dep) {
            Some(d) => s1_step(t, d),
            None => None,
        },
    decreases code.len() - i,
{
    assert(code.push(t).len() == code.len() + 1);
    if i < code.len() {
        assert(code.push(t)[i] == code[i]);
        match code[i] {
            Token::A | Token::B | Token::C => lemma_s1_depth_append(code, t, i + 1, dep + 1),
            Token::Not => if dep >= 1 {
                lemma_s1_depth_append(code, t, i + 1, dep)
            },
            Token::And => if dep >= 2 {
                lemma_s1_depth_append(code, t, i + 1, dep - 1)
            },
            _ => {},
        }
    } else {
        assert(code.push(t)[i] == t);
        match t {
            Token::A | Token::B | Token::C => {
                assert(s1_depth_at(code.push(t), i + 1, dep + 1) == Some(dep + 1));
            },
            Token::Not => if dep >= 1 {
                assert(s1_depth_at(code.push(t), i + 1, dep) == Some(dep));
            },
            Token::And => if dep >= 2 {
                assert(s1_depth_at(code.push(t), i + 1, dep - 1) == Some(dep - 1));
            },
            _ => {},
        }
    }
}

proof fn lemma_s1_depth_flush(out: Seq<Token>, ands: Seq<Token>, d: int)
    requires
        s1_depth_at(out, 0, 0) == Some(d),
        d == ands.len() + 1,
        forall|j: int| 0 <= j < ands.len() ==> ands[j] == Token::And,
    ensures
        s1_depth_at(out + ands, 0, 0) == Some(1int),
    decreases ands.len(),
{
    if ands.len() == 0 {
        assert(out + ands =~= out);
    } else {
        lemma_s1_depth_append(out, Token::And, 0, 0);
        assert(s1_depth_at(out.push(Token::And), 0, 0) == Some(d - 1));
        lemma_s1_depth_flush(out.push(Token::And), ands.drop_first(), d - 1);
        assert(out + ands =~= out.push(Token::And) + ands.drop_first());
    }
}

/// Whether the tokens from `i` on form a syntactically valid guard:
/// `[Not] flag (And [Not] flag)*` with `flag` one of `A`, `B`, `C`.
pub open spec fn valid_guard_at(t: Seq<Token>, i: int) -> bool
    decreases t.len() - i when 0 <= i <= t.len()
{
    let j = if i < t.len() && t[i] == Token::Not {
        i + 1
    } else {
        i
    };
    &&& j < t.len()
    &&& (t[j] == Token::A || t[j] == Token::B || t[j] == Token::C)
    &&& (j + 1 == t.len() || (t[j + 1] == Token::And && valid_guard_at(t, j + 2)))
}

/// Whether a whole token sequence is a syntactically valid guard.
pub open spec fn valid_guard(t: Seq<Token>) -> bool {
    valid_guard_at(t, 0)
}

proof fn lemma_build_wf_at(t: Seq<Token>, i: int, stack: Seq<Token>, out: Seq<Token>)
    requires
        0 <= i <= t.len(),
        valid_guard_at(t, i),
        forall|j: int| 0 <= j < stack.len() ==> stack[j] == Token::And,
        s1_depth_at(out, 0, 0) == Some(stack.len() as int),
    ensures
        s1_build_at(t, i, stack, out) matches Ok(code) && s1_wf(code),
    decreases t.len() - i,
{
    let k = stack.len() as int;
    let j = if i < t.len() && t[i] == Token::Not {
        i + 1
    } else {
        i
    };
    let flag = t[j];
    // After the optional Not, the flag is emitted and pops one pending
    // operator: the Not itself, or a pending And when one is waiting.
    let out1 = out.push(flag);
    lemma_s1_depth_append(out, flag, 0, 0);
    assert(s1_depth_at(out1, 0, 0) == Some(k + 1));
    let (stack2, out2): (Seq<Token>, Seq<Token>) = if j == i + 1 {
        // the Not on top is popped right after the flag
        lemma_s1_depth_append(out1, Token::Not, 0, 0);
        (stack, out1.push(Token::Not))
    } else if stack.len() > 0 {
        // a pending And is popped right after the flag
        lemma_s1_depth_append(out1, Token::And, 0, 0);
        (stack.drop_last(), out1.push(stack.last()))
    } else {
        (stack, out1)
    };
    let k2 = stack2.len() as int;
    assert(s1_depth_at(out2, 0, 0) == Some(k2 + 1));
    if j == i + 1 {
        assert(s1_build_at(t, i, stack, out) == s1_build_at(t, i + 1, stack.push(Token::Not), out));
        assert(stack.push(Token::Not).len() > 0);
        assert(stack.push(Token::Not).last() == Token::Not);
        assert(stack.push(Token::Not).drop_last() =~= stack);
        assert(s1_build_at(t, i + 1, stack.push(Token::Not), out) == s1_build_at(
            t,
            i + 2,
            stack,
            out1.push(Token::Not),
        ));
    } else {
        if stack.len() > 0 {
            assert(stack.last() == Token::And);
            assert(s1_build_at(t, i, stack, out) == s1_build_at(
                t,
                i + 1,
                stack.drop_last(),
                out1.push(stack.last()),
            ));
        } else {
            assert(s1_build_at(t, i, stack, out) == s1_build_at(t, i + 1, stack, out1));
        }
    }
    assert(s1_build_at(t, i, stack, out) == s1_build_at(t, j + 1, stack2, out2));
    if j + 1 == t.len() {
        assert(s1_build_at(t, j + 1, stack2, out2) == Ok::<Seq<Token>, Token>(
            out2 + stack2.reverse(),
        ));
        assert(forall|m: int|
            0 <= m < stack2.reverse().len() ==> stack2.reverse()[m] == Token::And);
        lemma_s1_depth_flush(out2, stack2.reverse(), k2 + 1);
    } else {
        assert(s1_build_at(t, j + 1, stack2, out2) == s1_build_at(
            t,
            j + 2,
            stack2.push(Token::And),
            out2,
        ));
        lemma_build_wf_at(t, j + 2, stack2.push(Token::And), out2);
    }
}

/// Construction guarantees well-formedness: compiling any syntactically
/// valid guard succeeds, and the postfix sequence it yields can always be
/// evaluated without underflowing the value stack.
pub proof fn lemma_valid_guard_builds_wf(t: Seq<Token>)
    requires
        valid_guard(t),
    ensures
        s1_build(t) matches Ok(code) && s1_wf(code),
{
    lemma_build_wf_at(t, 0, Seq::empty(), Seq::empty());
}

/// A compiled guard: a postfix instruction sequence over flag reads, `Not`
/// and `And`.
#[derive(Debug, Clone)]
pub struct Executable {
    pub inner: Vec<Token>,
}

impl PartialEq for Executable {
    fn eq(&self, other: &Self) -> (r: bool) {
        token_vec_eq(&self.inner, &other.inner)
    }
}

impl vstd::std_specs::cmp::PartialEqSpecImpl for Executable {
    open spec fn obeys_eq_spec() -> bool {
        true
    }

    open spec fn eq_spec(&self, other: &Self) -> bool {
        self.inner@ == other.inner@
    }
}

impl Executable {
    /// Compile guard tokens to postfix form, or report the first token the
    /// guard grammar does not know.
    pub fn build(input: &Vec<Token>) -> (r: Result<Executable, CompileError>)
        ensures
            match r {
                Ok(e) => s1_build(input@) == Ok::<Seq<Token>, Token>(e.inner@),
                Err(c) => c matches CompileError::UnexpectedToken(t) && s1_build(input@)
                    == Err::<Seq<Token>, Token>(t),
            },
    {
        let n = input.len();
        let mut stack: Vec<Token> = Vec::new();
        let mut out: Vec<Token> = Vec::new();
        let mut i: usize = 0;
        while i < n
            invariant
                i <= n,
                n == input@.len(),
                s1_build_at(input@, i as int, stack@, out@) == s1_build(input@),
            decreases n - i,
        {
            let t = input[i];
            match t {
                Token::Not => stack.push(Token::Not),
                Token::And => stack.push(Token::And),
                Token::A | Token::B | Token::C => {
                    out.push(t);
                    match stack.pop() {
                        Some(v) => out.push(v),
                        None => {},
                    }
                },
                _ => {
                    return Err(CompileError::UnexpectedToken(t));
                },
            }
            i += 1;
        }
        while stack.len() > 0
            invariant
                out@ + stack@.reverse() == s1_build(input@)->Ok_0,
                s1_build(input@) matches Ok(_),
            decreases stack@.len(),
        {
            let ghost out0 = out@;
            let ghost stack0 = stack@;
            let v = stack.pop().unwrap();
            out.push(v);
            proof {
                assert(stack0.reverse() =~= seq![stack0.last()] + stack0.drop_last().reverse());
                assert(out@ + stack@.reverse() =~= out0 + stack0.reverse());
            }
        }
        proof {
            assert(out@ + stack@.reverse() =~= out@);
        }
        Ok(Executable { inner: out })
    }

    /// Whether evaluation of this sequence cannot underflow.
    pub fn well_formed(&self) -> (r: bool)
        ensures
            r == s1_wf(self.inner@),
    {
        let n = self.inner.len();
        let mut depth: usize = 0;
        let mut i: usize = 0;
        while i < n
            invariant
                i <= n,
                n == self.inner@.len(),
                depth <= i,
                s1_depth_at(self.inner@, i as int, depth as int) == s1_depth_at(
                    self.inner@,
                    0,
                    0,
                ),
            decreases n - i,
        {
            let t = self.inner[i];
            match t {
                Token::A | Token::B | Token::C => {
                    depth += 1;
                },
                Token::Not => {
                    if depth < 1 {
                        return false;
                    }
                },
                Token::And => {
                    if depth < 2 {
                        return false;
                    }
                    depth -= 1;
                },
                _ => {
                    return false;
                },
            }
            i += 1;
        }
        depth >= 1
    }

    /// Evaluate a well-formed postfix guard against a context.
    pub fn run(&self, s: Scope) -> (r: bool)
        requires
            s1_wf(self.inner@),
        ensures
            r == s1_truth(self.inner@, s),
    {
        let n = self.inner.len();
        let mut stack: Vec<bool> = Vec::new();
        let mut i: usize = 0;
        while i < n
            invariant
                i <= n,
                n == self.inner@.len(),
                s1_eval_at(self.inner@, i as int, stack@, s) == s1_eval_at(
                    self.inner@,
                    0,
                    Seq::<bool>::empty(),
                    s,
                ),
                s1_depth_at(self.inner@, i as int, stack@.len() as int) == s1_depth_at(
                    self.inner@,
                    0,
                    0,
                ),
                s1_wf(self.inner@),
            decreases n - i,
        {
            let t = self.inner[i];
            match t {
                Token::A => stack.push(s.a),
                Token::B => stack.push(s.b),
                Token::C => stack.push(s.c),
                Token::Not => {
                    let b = stack.pop().unwrap();
                    stack.push(!b);
                },
                Token::And => {
                    let y = stack.pop().unwrap();
                    let x = stack.pop().unwrap();
                    stack.push(x && y);
                },
                _ => {
                    proof {
                        assert(false);
                    }
                },
            }
            i += 1;
        }
        stack[stack.len() - 1]
    }
}

/// A compiled boolean-stage rule: the tag it yields and its postfix guard.
#[derive(Debug, Clone)]
pub struct Base1Expr {
    pub output: H,
    pub executable: Executable,
}

impl PartialEq for Base1Expr {
    fn eq(&self, other: &Self) -> (r: bool) {
        self.executable == other.executable
    }
}

impl vstd::std_specs::cmp::PartialEqSpecImpl for Base1Expr {
    open spec fn obeys_eq_spec() -> bool {
        true
    }

    open spec fn eq_spec(&self, other: &Self) -> bool {
        self.executable.inner@ == other.executable.inner@
    }
}

/// The tag a tag token names; meaningful only on `M`, `P`, `T`.
pub open spec fn tag_of(t: Token) -> H {
    if t == Token::M {
        H::M
    } else if t == Token::P {
        H::P
    } else {
        H::T
    }
}

/// What compiling a boolean rule yields: the `Arrow` splits the tokens into
/// the guard and a tail whose fourth position names the output tag.
pub open spec fn spec_base1_build(tokens: Seq<Token>) -> Result<(H, Seq<Token>), CompileError> {
    match first_arrow(tokens) {
        None => Err(CompileError::NoArrow),
        Some(p) => match s1_build_at(tokens.subrange(0, p), 0, Seq::empty(), Seq::empty()) {
            Err(t) => Err(CompileError::UnexpectedToken(t)),
            Ok(code) => {
                if p + 3 < tokens.len() && (tokens[p + 3] == Token::M || tokens[p + 3] == Token::P
                    || tokens[p + 3] == Token::T) {
                    Ok((tag_of(tokens[p + 3]), code))
                } else {
                    Err(CompileError::NoOutput)
                }
            },
        },
    }
}

impl Base1Expr {
    /// Compile a whole boolean rule from its tokens.
    pub fn build(tokens: &Vec<Token>) -> (r: Result<Base1Expr, CompileError>)
        ensures
            match r {
                Ok(e) => spec_base1_build(tokens@) == Ok::<(H, Seq<Token>), CompileError>(
                    (e.output, e.executable.inner@),
                ),
                Err(c) => spec_base1_build(tokens@) == Err::<(H, Seq<Token>), CompileError>(c),
            },
    {
        let p = match find_arrow(tokens) {
            Some(p) => p,
            None => {
                return Err(CompileError::NoArrow);
            },
        };
        let mut left: Vec<Token> = Vec::new();
        let mut i: usize = 0;
        while i < p
            invariant
                i <= p,
                p < tokens@.len(),
                left@ == tokens@.subrange(0, i as int),
            decreases p - i,
        {
            left.push(tokens[i]);
            proof {
                assert(left@ =~= tokens@.subrange(0, i + 1 as int));
            }
            i += 1;
        }
        let ex = match Executable::build(&left) {
            Ok(ex) => ex,
            Err(c) => {
                return Err(c);
            },
        };
        if tokens.len() - p > 3 {
            let t = tokens[p + 3];
            let out = match t {
                Token::M => H::M,
                Token::P => H::P,
                Token::T => H::T,
                _ => {
                    return Err(CompileError::NoOutput);
                },
            };
            Ok(Base1Expr { output: out, executable: ex })
        } else {
            Err(CompileError::NoOutput)
        }
    }

    /// Whether this rule's guard can be evaluated without underflow.
    pub fn well_formed(&self) -> (r: bool)
        ensures
            r == s1_wf(self.executable.inner@),
    {
        self.executable.well_formed()
    }

    /// Evaluate the guard; the rule's tag when it holds, no match otherwise.
    pub fn run(&self, s: Scope) -> (r: Option<H>)
        requires
            s1_wf(self.executable.inner@),
        ensures
            r == if s1_truth(self.executable.inner@, s) {
                Some(self.output)
            } else {
                None::<H>
            },
    {
        if self.executable.run(s) {
            Some(self.output)
        } else {
            None
        }
    }
}

} // verus!
