//! Tokenization of rule text.
//!
//! Scans the input left to right: whitespace is skipped, single characters map
//! to fixed tokens, `&&` maps to `And`, `=>` collapses to `Arrow` by replacing
//! a just-emitted `Eq` when `>` is seen, and a digit starts a numeric literal
//! that greedily extends over digits and decimal points. The whole behaviour
//! is stated by [`spec_tokenize`].

use vstd::prelude::*;
use crate::rat::Rat;

verus! {

/// A lexical token of the rule grammar. `A`..`C` are flag reads, `D`..`F`
/// numeric reads, `H` the category symbol with its tags `M`, `P`, `T`, `K`
/// the result symbol, and `Const` a numeric literal.
#[derive(Debug, Clone, Copy, PartialEq, Eq, Structural)]
pub enum Token {
    A,
    B,
    C,
    D,
    E,
    F,
    H,
    M,
    P,
    T,
    K,
    Not,
    Arrow,
    Eq,
    And,
    Plus,
    Minus,
    Open,
    Close,
    Multiple,
    Divide,
    Const(Rat),
}

/// Why tokenization failed, with the offending position.
#[derive(Debug, Clone, Copy, PartialEq, Eq, Structural)]
pub enum TokenizeError {
    /// A character no rule text may hold.
    InvalidChar { c: char, pos: usize },
    /// A single `&` followed by something other than `&`.
    UnexpectedChar { c: char, pos: usize },
    /// A single `&` at the end of the text.
    UnexpectedEof { pos: usize },
    /// A `>` whose just-emitted preceding token is not `Eq`.
    StrayAngle { pos: usize },
    /// A numeric literal with a second decimal point, or one whose exact
    /// value does not fit the rational fields.
    BadLiteral { pos: usize },
}

pub open spec fn is_digit(c: char) -> bool {
    48 <= c as u32 <= 57
}

pub open spec fn is_num_char(c: char) -> bool {
    is_digit(c) || c == '.'
}

pub open spec fn digit_val(c: char) -> int {
    c as u32 - 48
}

/// The token a single character maps to, if any.
pub open spec fn single_token(c: char) -> Option<Token> {
    if c == 'A' {
        Some(Token::A)
    } else if c == 'B' {
        Some(Token::B)
    } else if c == 'C' {
        Some(Token::C)
    } else if c == 'D' {
        Some(Token::D)
    } else if c == 'E' {
        Some(Token::E)
    } else if c == 'F' {
        Some(Token::F)
    } else if c == 'H' {
        Some(Token::H)
    } else if c == 'M' {
        Some(Token::M)
    } else if c == 'K' {
        Some(Token::K)
    } else if c == 'P' {
        Some(Token::P)
    } else if c == 'T' {
        Some(Token::T)
    } else if c == '!' {
        Some(Token::Not)
    } else if c == '=' {
        Some(Token::Eq)
    } else if c == '+' {
        Some(Token::Plus)
    } else if c == '-' {
        Some(Token::Minus)
    } else if c == '*' {
        Some(Token::Multiple)
    } else if c == '/' {
        Some(Token::Divide)
    } else if c == '(' {
        Some(Token::Open)
    } else if c == ')' {
        Some(Token::Close)
    } else {
        None
    }
}

/// The first index at or after `i` whose character no longer extends a
/// numeric literal (the literal's exclusive end).
pub open spec fn num_end(s: Seq<char>, i: int) -> int
    decreases s.len() - i when 0 <= i <= s.len()
{
    if i >= s.len() {
        i
    } else if is_num_char(s[i]) {
        num_end(s, i + 1)
    } else {
        i
    }
}

pub proof fn lemma_num_end(s: Seq<char>, i: int)
    requires
        0 <= i <= s.len(),
    ensures
        i <= num_end(s, i) <= s.len(),
    decreases s.len() - i,
{
    if i < s.len() && is_num_char(s[i]) {
        lemma_num_end(s, i + 1);
    }
}

/// One step at a time over `s[i..stop]`: `m` is the digits read so far as an
/// integer, `d` the power of ten for the digits behind the decimal point,
/// `dot` whether a decimal point was seen. `None` on a second decimal point
/// or when a field outgrows `i64`.
pub open spec fn parse_acc(s: Seq<char>, i: int, stop: int, m: int, d: int, dot: bool) -> Option<
    Rat,
>
    decreases stop - i when i <= stop
{
    if i >= stop {
        Some(Rat { num: m as i64, den: d as i64 })
    } else if s[i] == '.' {
        if dot {
            None
        } else {
            parse_acc(s, i + 1, stop, m, d, true)
        }
    } else if is_digit(s[i]) {
        let m2 = m * 10 + digit_val(s[i]);
        let d2 = if dot {
            d * 10
        } else {
            d
        };
        if m2 <= i64::MAX as int && d2 <= i64::MAX as int {
            parse_acc(s, i + 1, stop, m2, d2, dot)
        } else {
            None
        }
    } else {
        None
    }
}

/// The exact rational value of the literal `s[start..stop]`, if it parses.
pub open spec fn parse_literal(s: Seq<char>, start: int, stop: int) -> Option<Rat> {
    parse_acc(s, start, stop, 0, 1, false)
}

/// What tokenizing yields from position `pos` on, with `out` the tokens
/// emitted so far (needed because `>` replaces a just-emitted `Eq`).
pub open spec fn spec_tokenize_at(s: Seq<char>, pos: int, out: Seq<Token>) -> Result<
    Seq<Token>,
    TokenizeError,
>
    decreases s.len() - pos when 0 <= pos <= s.len() via spec_tokenize_at_decreases
{
    if pos >= s.len() {
        Ok(out)
    } else {
        let c = s[pos];
        if c == ' ' {
            spec_tokenize_at(s, pos + 1, out)
        } else if is_digit(c) {
            let end = num_end(s, pos + 1);
            match parse_literal(s, pos, end) {
                Some(r) => spec_tokenize_at(s, end, out.push(Token::Const(r))),
                None => Err(TokenizeError::BadLiteral { pos: pos as usize }),
            }
        } else if c == '&' {
            if pos + 1 >= s.len() {
                Err(TokenizeError::UnexpectedEof { pos: (pos + 1) as usize })
            } else if s[pos + 1] == '&' {
                spec_tokenize_at(s, pos + 2, out.push(Token::And))
            } else {
                Err(TokenizeError::UnexpectedChar { c: s[pos + 1], pos: (pos + 1) as usize })
            }
        } else if c == '>' {
            if out.len() > 0 && out.last() == Token::Eq {
                spec_tokenize_at(s, pos + 1, out.drop_last().push(Token::Arrow))
            } else {
                Err(TokenizeError::StrayAngle { pos: pos as usize })
            }
        } else {
            match single_token(c) {
                Some(t) => spec_tokenize_at(s, pos + 1, out.push(t)),
                None => Err(TokenizeError::InvalidChar { c, pos: pos as usize }),
            }
        }
    }
}

#[via_fn]
proof fn spec_tokenize_at_decreases(s: Seq<char>, pos: int, out: Seq<Token>) {
    if 0 <= pos < s.len() && is_digit(s[pos]) {
        lemma_num_end(s, pos + 1);
    }
}

/// The token sequence of the whole text, or the first error.
pub open spec fn spec_tokenize(s: Seq<char>) -> Result<Seq<Token>, TokenizeError> {
    spec_tokenize_at(s, 0, Seq::empty())
}

/// The position of the first `Arrow` token at or after `i`, if any.
pub open spec fn first_arrow_at(t: Seq<Token>, i: int) -> Option<int>
    decreases t.len() - i when 0 <= i <= t.len()
{
    if i >= t.len() {
        None
    } else if t[i] == Token::Arrow {
        Some(i)
    } else {
        first_arrow_at(t, i + 1)
    }
}

/// The position of the first `Arrow` token, if any.
pub open spec fn first_arrow(t: Seq<Token>) -> Option<int> {
    first_arrow_at(t, 0)
}

/// Find the first `Arrow` token.
pub fn find_arrow(tokens: &Vec<Token>) -> (r: Option<usize>)
    ensures
        match r {
            Some(p) => first_arrow(tokens@) == Some(p as int) && p < tokens@.len(),
            None => first_arrow(tokens@) == None::<int>,
        },
{
    let n = tokens.len();
    let mut i: usize = 0;
    while i < n
        invariant
            i <= n,
            n == tokens@.len(),
            first_arrow_at(tokens@, i as int) == first_arrow(tokens@),
        decreases n - i,
    {
        if tokens[i] == Token::Arrow {
            return Some(i);
        }
        i += 1;
    }
    None
}

/// Whether two token sequences hold the same tokens.
pub fn token_vec_eq(a: &Vec<Token>, b: &Vec<Token>) -> (r: bool)
    ensures
        r == (a@ == b@),
{
    if a.len() != b.len() {
        return false;
    }
    let n = a.len();
    let mut i: usize = 0;
    while i < n
        invariant
            i <= n,
            n == a@.len() == b@.len(),
            forall|k: int| 0 <= k < i ==> a@[k] == b@[k],
        decreases n - i,
    {
        if a[i] != b[i] {
            return false;
        }
        i += 1;
    }
    proof {
        assert(a@ =~= b@);
    }
    true
}

fn is_digit_char(c: char) -> (r: bool)
    ensures
        r == is_digit(c),
{
    let u = c as u32;
    48 <= u && u <= 57
}

fn is_num_char_char(c: char) -> (r: bool)
    ensures
        r == is_num_char(c),
{
    is_digit_char(c) || c == '.'
}

fn char_token(c: char) -> (r: Option<Token>)
    ensures
        r == single_token(c),
{
    match c {
        'A' => Some(Token::A),
        'B' => Some(Token::B),
        'C' => Some(Token::C),
        'D' => Some(Token::D),
        'E' => Some(Token::E),
        'F' => Some(Token::F),
        'H' => Some(Token::H),
        'M' => Some(Token::M),
        'K' => Some(Token::K),
        'P' => Some(Token::P),
        'T' => Some(Token::T),
        '!' => Some(Token::Not),
        '=' => Some(Token::Eq),
        '+' => Some(Token::Plus),
        '-' => Some(Token::Minus),
        '*' => Some(Token::Multiple),
        '/' => Some(Token::Divide),
        '(' => Some(Token::Open),
        ')' => Some(Token::Close),
        _ => None,
    }
}

/// Convert rule text into its token sequence, or report the first error.
pub fn tokenize(s: &str) -> (r: Result<Vec<Token>, TokenizeError>)
    ensures
        match r {
            Ok(v) => spec_tokenize(s@) == Ok::<Seq<Token>, TokenizeError>(v@),
            Err(e) => spec_tokenize(s@) == Err::<Seq<Token>, TokenizeError>(e),
        },
{
    let n = s.unicode_len();
    let mut chars: Vec<char> = Vec::new();
    let mut i: usize = 0;
    while i < n
        invariant
            i <= n,
            n == s@.len(),
            chars@ == s@.subrange(0, i as int),
        decreases n - i,
    {
        chars.push(s.get_char(i));
        proof {
            assert(chars@ =~= s@.subrange(0, i + 1 as int));
        }
        i += 1;
    }
    proof {
        assert(chars@ =~= s@);
    }

    let mut out: Vec<Token> = Vec::new();
    let mut pos: usize = 0;
    while pos < n
        invariant
            pos <= n,
            n == s@.len(),
            chars@ == s@,
            spec_tokenize_at(s@, pos as int, out@) == spec_tokenize(s@),
        decreases n - pos,
    {
        let c = chars[pos];
        if c == ' ' {
            pos += 1;
        } else if is_digit_char(c) {
            let ghost end = num_end(s@, pos + 1 as int);
            proof {
                lemma_num_end(s@, pos + 1 as int);
            }
            let mut m: i64 = (c as u32 - 48) as i64;
            let mut d: i64 = 1;
            let mut dot = false;
            let mut j: usize = pos + 1;
            while j < n && is_num_char_char(chars[j])
                invariant
                    n == s@.len(),
                    chars@ == s@,
                    pos < n,
                    is_digit(s@[pos as int]),
                    pos + 1 <= j <= n,
                    end == num_end(s@, pos + 1 as int),
                    end == num_end(s@, j as int),
                    j <= end <= n,
                    0 <= m,
                    1 <= d,
                    parse_acc(s@, j as int, end, m as int, d as int, dot) == parse_literal(
                        s@,
                        pos as int,
                        end,
                    ),
                    spec_tokenize_at(s@, pos as int, out@) == spec_tokenize(s@),
                decreases n - j,
            {
                let cj = chars[j];
                proof {
                    lemma_num_end(s@, j + 1 as int);
                    assert(end >= j + 1);
                }
                if cj == '.' {
                    if dot {
                        proof {
                            assert(parse_acc(s@, j as int, end, m as int, d as int, dot)
                                == None::<Rat>);
                        }
                        return Err(TokenizeError::BadLiteral { pos });
                    }
                    dot = true;
                } else {
                    let dv = (cj as u32 - 48) as i64;
                    let m2: i128 = m as i128 * 10 + dv as i128;
                    let d2: i128 = if dot {
                        d as i128 * 10
                    } else {
                        d as i128
                    };
                    if m2 > i64::MAX as i128 || d2 > i64::MAX as i128 {
                        proof {
                            assert(parse_acc(s@, j as int, end, m as int, d as int, dot)
                                == None::<Rat>);
                        }
                        return Err(TokenizeError::BadLiteral { pos });
                    }
                    m = m2 as i64;
                    d = d2 as i64;
                }
                j += 1;
                proof {
                    lemma_num_end(s@, j as int);
                }
            }
            proof {
                assert(num_end(s@, j as int) == j);
            }
            out.push(Token::Const(Rat { num: m, den: d }));
            pos = j;
        } else if c == '&' {
            if pos + 1 >= n {
                return Err(TokenizeError::UnexpectedEof { pos: pos + 1 });
            }
            let c2 = chars[pos + 1];
            if c2 == '&' {
                out.push(Token::And);
                pos += 2;
            } else {
                return Err(TokenizeError::UnexpectedChar { c: c2, pos: pos + 1 });
            }
        } else if c == '>' {
            if out.len() > 0 {
                let t = out[out.len() - 1];
                if t == Token::Eq {
                    out.pop();
                    out.push(Token::Arrow);
                    pos += 1;
                } else {
                    return Err(TokenizeError::StrayAngle { pos });
                }
            } else {
                return Err(TokenizeError::StrayAngle { pos });
            }
        } else {
            match char_token(c) {
                Some(t) => {
                    out.push(t);
                    pos += 1;
                },
                None => {
                    return Err(TokenizeError::InvalidChar { c, pos });
                },
            }
        }
    }
    Ok(out)
}

} // verus!
