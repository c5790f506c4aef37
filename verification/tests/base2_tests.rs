use rule_engine::base2::{Base2Expr, Executable};
use rule_engine::errors::{CompileError, EvalError};
use rule_engine::output::H;
use rule_engine::rat::Rat;
use rule_engine::scope::Scope;
use rule_engine::tokenize::Token;

#[test]
fn base2_test_build_executable() {
    let values = vec![
        (
            vec![Token::D, Token::Plus, Token::F],
            vec![Token::D, Token::F, Token::Plus],
        ),
        (
            vec![
                Token::D,
                Token::Multiple,
                Token::F,
                Token::Divide,
                Token::Const(Rat::new(25, 1)),
            ],
            vec![
                Token::D,
                Token::F,
                Token::Const(Rat::new(25, 1)),
                Token::Divide,
                Token::Multiple,
            ],
        ),
        (
            vec![
                Token::Open,
                Token::D,
                Token::Plus,
                Token::E,
                Token::Close,
                Token::Multiple,
                Token::E,
            ],
            vec![Token::D, Token::E, Token::Plus, Token::E, Token::Multiple],
        ),
        (
            vec![
                Token::D,
                Token::Plus,
                Token::Open,
                Token::D,
                Token::Multiple,
                Token::E,
                Token::Divide,
                Token::Const(Rat::new(10, 1)),
                Token::Close,
            ],
            vec![
                Token::D,
                Token::D,
                Token::E,
                Token::Const(Rat::new(10, 1)),
                Token::Divide,
                Token::Multiple,
                Token::Plus,
            ],
        ),
        (
            vec![
                Token::D,
                Token::Plus,
                Token::Open,
                Token::D,
                Token::Multiple,
                Token::Open,
                Token::E,
                Token::Minus,
                Token::F,
                Token::Close,
                Token::Divide,
                Token::Const(Rat::new(255, 10)),
                Token::Close,
            ],
            vec![
                Token::D,
                Token::D,
                Token::E,
                Token::F,
                Token::Minus,
                Token::Const(Rat::new(255, 10)),
                Token::Divide,
                Token::Multiple,
                Token::Plus,
            ],
        ),
    ];

    for v in values {
        let out = Executable::build(&v.0).unwrap();
        assert_eq!(v.1, out.inner)
    }
}

#[test]
fn test_base2_expr() {
    let v = vec![
        Token::H,
        Token::Eq,
        Token::M,
        Token::Arrow,
        Token::K,
        Token::Eq,
        Token::D,
        Token::Plus,
        Token::Open,
        Token::D,
        Token::Multiple,
        Token::Open,
        Token::E,
        Token::Minus,
        Token::F,
        Token::Close,
        Token::Divide,
        Token::Const(Rat::new(255, 10)),
        Token::Close,
    ];
    let rs1 = Base2Expr::build(&v).unwrap();

    let v = vec![Token::H, Token::Eq, Token::P, Token::Arrow, Token::K, Token::Eq, Token::D];
    let rs2 = Base2Expr::build(&v).unwrap();

    assert_ne!(rs1, rs2);
    assert_eq!(rs1, rs1);

    assert!(rs1
        .run(Scope::def(Rat::new(1, 1), 80, 29))
        .unwrap()
        .same_value(&Rat::from_int(3)));
    assert!(rs2
        .run(Scope::def(Rat::new(5, 1), 80, 29))
        .unwrap()
        .same_value(&Rat::from_int(5)));
    assert_eq!(rs2.output, H::P);
}

#[test]
fn base2_build_error_variants() {
    assert_eq!(
        Base2Expr::build(&vec![Token::H, Token::Eq, Token::M]).unwrap_err(),
        CompileError::NoArrow
    );
    // The arrow comes before the key tag's position.
    assert_eq!(
        Base2Expr::build(&vec![
            Token::H,
            Token::Eq,
            Token::Arrow,
            Token::K,
            Token::Eq,
            Token::D
        ])
        .unwrap_err(),
        CompileError::MissingKey
    );
    // The key position holds no tag.
    assert_eq!(
        Base2Expr::build(&vec![
            Token::H,
            Token::Eq,
            Token::K,
            Token::Arrow,
            Token::K,
            Token::Eq,
            Token::D
        ])
        .unwrap_err(),
        CompileError::BadKey(Token::K)
    );
    // After the arrow, `K` and `Eq` must follow.
    assert_eq!(
        Base2Expr::build(&vec![Token::H, Token::Eq, Token::M, Token::Arrow, Token::D])
            .unwrap_err(),
        CompileError::BadTail
    );
    // A token the formula grammar does not know.
    assert_eq!(
        Base2Expr::build(&vec![
            Token::H,
            Token::Eq,
            Token::M,
            Token::Arrow,
            Token::K,
            Token::Eq,
            Token::D,
            Token::Plus,
            Token::A
        ])
        .unwrap_err(),
        CompileError::UnexpectedToken(Token::A)
    );
}

#[test]
fn base2_eval_invalid_token() {
    // A foreign instruction in postfix position is an error, not a panic.
    let ex = Executable { inner: vec![Token::A] };
    assert_eq!(
        ex.run(Scope::def(Rat::new(1, 1), 0, 0)).unwrap_err(),
        EvalError::InvalidToken { pos: 0 }
    );
}

#[test]
fn base2_eval_overflow_is_an_error() {
    // 9000000000000000000 * 9000000000000000000 does not fit the exact fields.
    let big = Rat::new(9000000000000000000, 1);
    let ex = Executable { inner: vec![Token::Const(big), Token::Const(big), Token::Multiple] };
    assert_eq!(
        ex.run(Scope::def(Rat::new(1, 1), 0, 0)).unwrap_err(),
        EvalError::Overflow
    );
}
