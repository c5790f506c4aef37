use rule_engine::base1::{Base1Expr, Executable};
use rule_engine::errors::CompileError;
use rule_engine::output::H;
use rule_engine::rat::Rat;
use rule_engine::scope::Scope;
use rule_engine::tokenize::Token;

#[test]
fn base1_test_build_executable() {
    let v = vec![Token::A, Token::And, Token::B, Token::And, Token::Not, Token::C];
    let out = Executable::build(&v).unwrap();

    assert_eq!(
        vec![Token::A, Token::B, Token::And, Token::C, Token::Not, Token::And],
        out.inner
    )
}

#[test]
fn test_base1_expr() {
    let v = vec![
        Token::A,
        Token::And,
        Token::B,
        Token::And,
        Token::Not,
        Token::C,
        Token::Arrow,
        Token::H,
        Token::Eq,
        Token::M,
    ];
    let rs1 = Base1Expr::build(&v).unwrap();

    let v = vec![
        Token::Not,
        Token::A,
        Token::And,
        Token::B,
        Token::And,
        Token::C,
        Token::Arrow,
        Token::H,
        Token::Eq,
        Token::T,
    ];
    let rs2 = Base1Expr::build(&v).unwrap();

    assert_ne!(rs1, rs2);
    assert_eq!(rs1, rs1);

    assert_eq!(None, rs1.run(Scope::abc(true, true, true)));
    assert_eq!(Some(H::M), rs1.run(Scope::abc(true, true, false)));

    assert_eq!(Some(H::T), rs2.run(Scope::abc(false, true, true)));
    assert_eq!(None, rs2.run(Scope::abc(true, true, true)));
}

#[test]
fn test_invalid() {
    assert!(Base1Expr::build(&vec![Token::Const(Rat::new(1, 1))]).is_err());
}

#[test]
fn base1_build_error_variants() {
    // No arrow at all.
    assert_eq!(Base1Expr::build(&vec![Token::A]).unwrap_err(), CompileError::NoArrow);
    // Arrow present but the tail names no tag.
    assert_eq!(
        Base1Expr::build(&vec![Token::A, Token::Arrow, Token::H, Token::Eq]).unwrap_err(),
        CompileError::NoOutput
    );
    assert_eq!(
        Base1Expr::build(&vec![Token::A, Token::Arrow, Token::H, Token::Eq, Token::K])
            .unwrap_err(),
        CompileError::NoOutput
    );
    // A token the guard grammar does not know.
    assert_eq!(
        Base1Expr::build(&vec![
            Token::A,
            Token::And,
            Token::D,
            Token::Arrow,
            Token::H,
            Token::Eq,
            Token::M
        ])
        .unwrap_err(),
        CompileError::UnexpectedToken(Token::D)
    );
}

#[test]
fn base1_well_formed_check() {
    let good = Executable::build(&vec![Token::A, Token::And, Token::Not, Token::B]).unwrap();
    assert!(good.well_formed());
    // A lone `And` in postfix position underflows the stack.
    let bad = Executable { inner: vec![Token::And] };
    assert!(!bad.well_formed());
    let empty = Executable { inner: vec![] };
    assert!(!empty.well_formed());
}
