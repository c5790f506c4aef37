//! Arithmetic-stage rules: a formula keyed by a category tag, compiled to
//! postfix form by a shunting-yard pass, evaluated against a context to
//! yield an exact rational or an arithmetic error.

use vstd::prelude::*;
use crate::errors::{CompileError, EvalError};
use crate::output::H;
use crate::rat::{rat_add, rat_div, rat_mul, rat_sub, rat_valid, Rat};
use crate::scope::Scope;
use crate::tokenize::{find_arrow, first_arrow, token_vec_eq, Token};

verus! {

/// Pop operators to the output until (and discarding) the nearest `Open`;
/// an unmatched `Close` silently empties the stack. Yields the new stack and
/// output.
pub open spec fn pop_to_open(stack: Seq<Token>, out: Seq<Token>) -> (Seq<Token>, Seq<Token>)
    decreases stack.len()
{
    if stack.len() == 0 {
        (stack, out)
    } else if stack.last() == Token::Open {
        (stack.drop_last(), out)
    } else {
        pop_to_open(stack.drop_last(), out.push(stack.last()))
    }
}

/// The shunting-yard pass of a formula: numeric reads and literals are
/// emitted at once; every operator and `Open` is pushed (operators are never
/// popped by precedence); `Close` pops to the nearest `Open`; what remains on
/// the stack is flushed last, in stack order. `Err` carries the first token
/// the formula grammar does not know.
pub open spec fn s2_build_at(input: Seq<Token>, i: int, stack: Seq<Token>, out: Seq<Token>) -> Result<
    Seq<Token>,
    Token,
>
    decreases input.len() - i when 0 <= i <= input.len()
{
    if i >= input.len() {
        Ok(out + stack.reverse())
    } else {
        match input[i] {
            Token::D | Token::E | Token::F | Token::Const(_) => s2_build_at(
                input,
                i + 1,
                stack,
                out.push(input[i]),
            ),
            Token::Plus | Token::Minus | Token::Multiple | Token::Divide | Token::Open => s2_build_at(
                input,
                i + 1,
                stack.push(input[i]),
                out,
            ),
            Token::Close => {
                let (stack2, out2) = pop_to_open(stack, out);
                s2_build_at(input, i + 1, stack2, out2)
            },
            _ => Err(input[i]),
        }
    }
}

/// The postfix form of a whole formula.
pub open spec fn s2_build(input: Seq<Token>) -> Result<Seq<Token>, Token> {
    s2_build_at(input, 0, Seq::empty(), Seq::empty())
}

/// Stack-depth simulation of evaluation: true when no instruction underflows
/// the value stack and, if every instruction is known, at least one value is
/// left as the result. A foreign instruction stops evaluation with an error,
/// not an underflow, so anything after it is irrelevant.
pub open spec fn s2_wf_at(code: Seq<Token>, i: int, depth: int) -> bool
    decreases code.len() - i when 0 <= i <= code.len()
{
    if i >= code.len() {
        depth >= 1
    } else {
        match code[i] {
            Token::D | Token::E | Token::F | Token::Const(_) => s2_wf_at(code, i + 1, depth + 1),
            Token::Plus | Token::Minus | Token::Multiple | Token::Divide => depth >= 2 && s2_wf_at(
                code,
                i + 1,
                depth - 1,
            ),
            _ => true,
        }
    }
}

/// A postfix sequence is well formed when evaluation cannot underflow.
pub open spec fn s2_wf(code: Seq<Token>) -> bool {
    s2_wf_at(code, 0, 0)
}

/// Every literal the sequence holds is a valid rational.
pub open spec fn s2_consts_valid(code: Seq<Token>) -> bool {
    forall|k: int|
        0 <= k < code.len() ==> (#[trigger] code[k] matches Token::Const(v) ==> rat_valid(v))
}

/// Evaluation on a rational value stack: reads push the context value
/// (integers widened to rationals), literals push themselves, a binary
/// operator replaces the two top values by `earlier OP later`. Division by a
/// zero value and overflow yield errors; a foreign instruction yields an
/// error naming its position. `None` stands for underflow or an empty final
/// stack, which a well-formed sequence never reaches.
pub open spec fn s2_eval_at(code: Seq<Token>, i: int, stack: Seq<Rat>, s: Scope) -> Option<
    Result<Rat, EvalError>,
>
    decreases code.len() - i when 0 <= i <= code.len()
{
    if i >= code.len() {
        if stack.len() >= 1 {
            Some(Ok(stack.last()))
        } else {
            None
        }
    } else {
        match code[i] {
            Token::D => s2_eval_at(code, i + 1, stack.push(s.d), s),
            Token::E => s2_eval_at(code, i + 1, stack.push(Rat { num: s.e, den: 1 }), s),
            Token::F => s2_eval_at(code, i + 1, stack.push(Rat { num: s.f, den: 1 }), s),
            Token::Const(v) => s2_eval_at(code, i + 1, stack.push(v), s),
            Token::Plus => if stack.len() >= 2 {
                match rat_add(stack[stack.len() - 2], stack.last()) {
                    Some(v) => s2_eval_at(code, i + 1, stack.drop_last().drop_last().push(v), s),
                    None => Some(Err(EvalError::Overflow)),
                }
            } else {
                None
            },
            Token::Minus => if stack.len() >= 2 {
                match rat_sub(stack[stack.len() - 2], stack.last()) {
                    Some(v) => s2_eval_at(code, i + 1, stack.drop_last().drop_last().push(v), s),
                    None => Some(Err(EvalError::Overflow)),
                }
            } else {
                None
            },
            Token::Multiple => if stack.len() >= 2 {
                match rat_mul(stack[stack.len() - 2], stack.last()) {
                    Some(v) => s2_eval_at(code, i + 1, stack.drop_last().drop_last().push(v), s),
                    None => Some(Err(EvalError::Overflow)),
                }
            } else {
                None
            },
            Token::Divide => if stack.len() >= 2 {
                if stack.last().num == 0 {
                    Some(Err(EvalError::DivByZero))
                } else {
                    match rat_div(stack[stack.len() - 2], stack.last()) {
                        Some(v) => s2_eval_at(
                            code,
                            i + 1,
                            stack.drop_last().drop_last().push(v),
                            s,
                        ),
                        None => Some(Err(EvalError::Overflow)),
                    }
                }
            } else {
                None
            },
            _ => Some(Err(EvalError::InvalidToken { pos: i as usize })),
        }
    }
}

/// What evaluating a whole postfix formula yields.
pub open spec fn s2_eval(code: Seq<Token>, s: Scope) -> Option<Result<Rat, EvalError>> {
    s2_eval_at(code, 0, Seq::empty(), s)
}

/// A compiled formula: a postfix instruction sequence over numeric reads,
/// literals and the four operators.
#[derive(Debug, Clone)]
pub struct Executable {
    pub inner: Vec<Token>,
}

impl PartialEq for Executable {
    fn eq(&self, other: &Self) -> (r: bool) {
        token_vec_eq(&self.inner, &other.inner)
    }
}

impl vstd::std_specs::cmp::PartialEqSpecImpl for Executable {
    open spec fn obeys_eq_spec() -> bool {
        true
    }

    open spec fn eq_spec(&self, other: &Self) -> bool {
        self.inner@ == other.inner@
    }
}

impl Executable {
    /// Compile formula tokens to postfix form, or report the first token the
    /// formula grammar does not know.
    pub fn build(input: &Vec<Token>) -> (r: Result<Executable, CompileError>)
        ensures
            match r {
                Ok(e) => s2_build(input@) == Ok::<Seq<Token>, Token>(e.inner@),
                Err(c) => c matches CompileError::UnexpectedToken(t) && s2_build(input@)
                    == Err::<Seq<Token>, Token>(t),
            },
    {
        let n = input.len();
        let mut stack: Vec<Token> = Vec::new();
        let mut out: Vec<Token> = Vec::new();
        let mut i: usize = 0;
        while i < n
            invariant
                i <= n,
                n == input@.len(),
                s2_build_at(input@, i as int, stack@, out@) == s2_build(input@),
            decreases n - i,
        {
            let t = input[i];
            match t {
                Token::D | Token::E | Token::F | Token::Const(_) => out.push(t),
                Token::Plus | Token::Minus | Token::Multiple | Token::Divide | Token::Open => stack
                    .push(t),
                Token::Close => {
                    let ghost stack0 = stack@;
                    let ghost out0 = out@;
                    while stack.len() > 0 && stack[stack.len() - 1] != Token::Open
                        invariant
                            pop_to_open(stack@, out@) == pop_to_open(stack0, out0),
                        decreases stack@.len(),
                    {
                        let v = stack.pop().unwrap();
                        out.push(v);
                    }
                    if stack.len() > 0 {
                        stack.pop();
                    }
                },
                _ => {
                    return Err(CompileError::UnexpectedToken(t));
                },
            }
            i += 1;
        }
        while stack.len() > 0
            invariant
                out@ + stack@.reverse() == s2_build(input@)->Ok_0,
                s2_build(input@) matches Ok(_),
            decreases stack@.len(),
        {
            let ghost out0 = out@;
            let ghost stack0 = stack@;
            let v = stack.pop().unwrap();
            out.push(v);
            proof {
                assert(stack0.reverse() =~= seq![stack0.last()] + stack0.drop_last().reverse());
                assert(out@ + stack@.reverse() =~= out0 + stack0.reverse());
            }
        }
        proof {
            assert(out@ + stack@.reverse() =~= out@);
        }
        Ok(Executable { inner: out })
    }

    /// Whether evaluation of this sequence cannot underflow, and every
    /// literal it holds is a valid rational.
    pub fn well_formed(&self) -> (r: bool)
        ensures
            r == (s2_wf(self.inner@) && s2_consts_valid(self.inner@)),
    {
        let n = self.inner.len();
        let mut depth: usize = 0;
        let mut i: usize = 0;
        let mut wf_done = false;
        let mut wf = false;
        while i < n
            invariant
                i <= n,
                n == self.inner@.len(),
                depth <= i,
                !wf_done ==> s2_wf(self.inner@) == s2_wf_at(
                    self.inner@,
                    i as int,
                    depth as int,
                ),
                wf_done ==> s2_wf(self.inner@) == wf,
                forall|k: int|
                    0 <= k < i ==> (#[trigger] self.inner@[k] matches Token::Const(v)
                        ==> rat_valid(v)),
            decreases n - i,
        {
            let t = self.inner[i];
            match t {
                Token::D | Token::E | Token::F => {
                    if !wf_done {
                        depth += 1;
                    }
                },
                Token::Const(v) => {
                    if v.den <= 0 {
                        return false;
                    }
                    if !wf_done {
                        depth += 1;
                    }
                },
                Token::Plus | Token::Minus | Token::Multiple | Token::Divide => {
                    if !wf_done {
                        if depth < 2 {
                            wf_done = true;
                            wf = false;
                        } else {
                            depth -= 1;
                        }
                    }
                },
                _ => {
                    if !wf_done {
                        wf_done = true;
                        wf = true;
                    }
                },
            }
            i += 1;
        }
        if !wf_done {
            wf = depth >= 1;
        }
        proof {
            assert(s2_consts_valid(self.inner@));
        }
        wf
    }

    /// Evaluate a well-formed postfix formula against a context.
    pub fn run(&self, s: Scope) -> (r: Result<Rat, EvalError>)
        requires
            s2_wf(self.inner@),
            s2_consts_valid(self.inner@),
            rat_valid(s.d),
        ensures
            Some(r) == s2_eval(self.inner@, s),
            r matches Ok(v) ==> rat_valid(v),
    {
        let n = self.inner.len();
        let mut stack: Vec<Rat> = Vec::new();
        let mut i: usize = 0;
        while i < n
            invariant
                i <= n,
                n == self.inner@.len(),
                s2_eval_at(self.inner@, i as int, stack@, s) == s2_eval(self.inner@, s),
                s2_wf_at(self.inner@, i as int, stack@.len() as int),
                s2_consts_valid(self.inner@),
                rat_valid(s.d),
                forall|k: int| 0 <= k < stack@.len() ==> rat_valid(#[trigger] stack@[k]),
            decreases n - i,
        {
            let t = self.inner[i];
            match t {
                Token::D => stack.push(s.d),
                Token::E => stack.push(Rat { num: s.e, den: 1 }),
                Token::F => stack.push(Rat { num: s.f, den: 1 }),
                Token::Const(v) => stack.push(v),
                Token::Plus => {
                    let y = stack.pop().unwrap();
                    let x = stack.pop().unwrap();
                    match x.checked_add(y) {
                        Some(v) => stack.push(v),
                        None => {
                            return Err(EvalError::Overflow);
                        },
                    }
                },
                Token::Minus => {
                    let y = stack.pop().unwrap();
                    let x = stack.pop().unwrap();
                    match x.checked_sub(y) {
                        Some(v) => stack.push(v),
                        None => {
                            return Err(EvalError::Overflow);
                        },
                    }
                },
                Token::Multiple => {
                    let y = stack.pop().unwrap();
                    let x = stack.pop().unwrap();
                    match x.checked_mul(y) {
                        Some(v) => stack.push(v),
                        None => {
                            return Err(EvalError::Overflow);
                        },
                    }
                },
                Token::Divide => {
                    let y = stack.pop().unwrap();
                    let x = stack.pop().unwrap();
                    if y.is_zero() {
                        return Err(EvalError::DivByZero);
                    }
                    match x.checked_div(y) {
                        Some(v) => stack.push(v),
                        None => {
                            return Err(EvalError::Overflow);
                        },
                    }
                },
                _ => {
                    return Err(EvalError::InvalidToken { pos: i });
                },
            }
            i += 1;
        }
        Ok(stack[stack.len() - 1])
    }
}

/// A compiled arithmetic-stage rule: the tag that keys it and its postfix
/// formula.
#[derive(Debug, Clone)]
pub struct Base2Expr {
    pub output: H,
    pub executable: Executable,
}

impl PartialEq for Base2Expr {
    fn eq(&self, other: &Self) -> (r: bool) {
        self.executable == other.executable
    }
}

impl vstd::std_specs::cmp::PartialEqSpecImpl for Base2Expr {
    open spec fn obeys_eq_spec() -> bool {
        true
    }

    open spec fn eq_spec(&self, other: &Self) -> bool {
        self.executable.inner@ == other.executable.inner@
    }
}

/// What compiling an arithmetic rule yields: the head before the `Arrow`
/// must be `H`, `Eq`, a tag; after it, `K`, `Eq` and the formula.
pub open spec fn spec_base2_build(tokens: Seq<Token>) -> Result<(H, Seq<Token>), CompileError> {
    match first_arrow(tokens) {
        None => Err(CompileError::NoArrow),
        Some(p) => {
            if p <= 2 {
                Err(CompileError::MissingKey)
            } else if !(tokens[2] == Token::M || tokens[2] == Token::P || tokens[2] == Token::T) {
                Err(CompileError::BadKey(tokens[2]))
            } else if !(p + 2 < tokens.len() && tokens[p + 1] == Token::K && tokens[p + 2]
                == Token::Eq) {
                Err(CompileError::BadTail)
            } else {
                match s2_build_at(
                    tokens.subrange(p + 3, tokens.len() as int),
                    0,
                    Seq::empty(),
                    Seq::empty(),
                ) {
                    Err(t) => Err(CompileError::UnexpectedToken(t)),
                    Ok(code) => Ok((crate::base1::tag_of(tokens[2]), code)),
                }
            }
        },
    }
}

impl Base2Expr {
    /// Compile a whole arithmetic rule from its tokens.
    pub fn build(tokens: &Vec<Token>) -> (r: Result<Base2Expr, CompileError>)
        ensures
            match r {
                Ok(e) => spec_base2_build(tokens@) == Ok::<(H, Seq<Token>), CompileError>(
                    (e.output, e.executable.inner@),
                ),
                Err(c) => spec_base2_build(tokens@) == Err::<(H, Seq<Token>), CompileError>(c),
            },
    {
        let p = match find_arrow(tokens) {
            Some(p) => p,
            None => {
                return Err(CompileError::NoArrow);
            },
        };
        if p <= 2 {
            return Err(CompileError::MissingKey);
        }
        let key = tokens[2];
        let out = match key {
            Token::M => H::M,
            Token::P => H::P,
            Token::T => H::T,
            _ => {
                return Err(CompileError::BadKey(key));
            },
        };
        if !(tokens.len() - p > 2 && tokens[p + 1] == Token::K && tokens[p + 2] == Token::Eq) {
            return Err(CompileError::BadTail);
        }
        let n = tokens.len();
        let mut right: Vec<Token> = Vec::new();
        let mut i: usize = p + 3;
        while i < n
            invariant
                p + 3 <= i <= n,
                n == tokens@.len(),
                right@ == tokens@.subrange(p + 3 as int, i as int),
            decreases n - i,
        {
            right.push(tokens[i]);
            proof {
                assert(right@ =~= tokens@.subrange(p + 3 as int, i + 1 as int));
            }
            i += 1;
        }
        let ex = match Executable::build(&right) {
            Ok(ex) => ex,
            Err(c) => {
                return Err(c);
            },
        };
        Ok(Base2Expr { output: out, executable: ex })
    }

    /// Whether this rule's formula can be evaluated without underflow, with
    /// every literal valid.
    pub fn well_formed(&self) -> (r: bool)
        ensures
            r == (s2_wf(self.executable.inner@) && s2_consts_valid(self.executable.inner@)),
    {
        self.executable.well_formed()
    }

    /// Evaluate the formula against a context.
    pub fn run(&self, s: Scope) -> (r: Result<Rat, EvalError>)
        requires
            s2_wf(self.executable.inner@),
            s2_consts_valid(self.executable.inner@),
            rat_valid(s.d),
        ensures
            Some(r) == s2_eval(self.executable.inner@, s),
            r matches Ok(v) ==> rat_valid(v),
    {
        self.executable.run(s)
    }

    /// The tag that keys this rule.
    pub fn output(&self) -> (r: H)
        ensures
            r == self.output,
    {
        self.output
    }
}

} // verus!
