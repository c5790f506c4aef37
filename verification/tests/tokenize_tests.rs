use rule_engine::rat::Rat;
use rule_engine::tokenize::{tokenize, Token, TokenizeError};

#[test]
fn check_tokenize() {
    assert_eq!(vec![Token::And], tokenize("&&").unwrap());
    assert_eq!(vec![Token::A, Token::And, Token::B], tokenize("A && B ").unwrap());
    assert_eq!(
        vec![Token::Not, Token::C, Token::Arrow, Token::H, Token::Eq, Token::M],
        tokenize(" !C => H = M").unwrap()
    );
    assert_eq!(
        vec![
            Token::A,
            Token::And,
            Token::B,
            Token::And,
            Token::Not,
            Token::C,
            Token::Arrow,
            Token::H,
            Token::Eq,
            Token::M
        ],
        tokenize("A && B && !C => H = M").unwrap()
    );
}

#[test]
fn check_tokenize2() {
    assert_eq!(
        vec![
            Token::H,
            Token::Eq,
            Token::P,
            Token::Arrow,
            Token::K,
            Token::Eq,
            Token::D,
            Token::Plus,
            Token::Open,
            Token::D,
            Token::Multiple,
            Token::Open,
            Token::E,
            Token::Minus,
            Token::F,
            Token::Close,
            Token::Divide,
            Token::Const(Rat::new(255, 10)),
            Token::Close
        ],
        tokenize("H = P => K = D + (D * (E - F) / 25.5)").unwrap()
    );
}

#[test]
fn tokenize_empty_is_ok() {
    assert_eq!(Vec::<Token>::new(), tokenize("").unwrap());
    assert_eq!(Vec::<Token>::new(), tokenize("   ").unwrap());
}

#[test]
fn tokenize_literal_forms() {
    // A trailing decimal point is accepted, as a float parser would.
    assert_eq!(vec![Token::Const(Rat::new(1, 1))], tokenize("1.").unwrap());
    assert_eq!(vec![Token::Const(Rat::new(25, 1))], tokenize("25").unwrap());
    assert_eq!(vec![Token::Const(Rat::new(1005, 100))], tokenize("10.05").unwrap());
}

#[test]
fn tokenize_error_invalid_char() {
    assert_eq!(tokenize("x").unwrap_err(), TokenizeError::InvalidChar { c: 'x', pos: 0 });
    assert_eq!(tokenize("A @ B").unwrap_err(), TokenizeError::InvalidChar { c: '@', pos: 2 });
}

#[test]
fn tokenize_error_single_ampersand() {
    assert_eq!(tokenize("&").unwrap_err(), TokenizeError::UnexpectedEof { pos: 1 });
    assert_eq!(tokenize("A &B").unwrap_err(), TokenizeError::UnexpectedChar { c: 'B', pos: 3 });
}

#[test]
fn tokenize_error_stray_angle() {
    // `>` must follow a just-emitted `=`.
    assert_eq!(tokenize(">").unwrap_err(), TokenizeError::StrayAngle { pos: 0 });
    assert_eq!(tokenize("A>").unwrap_err(), TokenizeError::StrayAngle { pos: 1 });
}

#[test]
fn tokenize_error_bad_literal() {
    assert_eq!(tokenize("1.2.3").unwrap_err(), TokenizeError::BadLiteral { pos: 0 });
    assert_eq!(tokenize("A 1..2").unwrap_err(), TokenizeError::BadLiteral { pos: 2 });
}
