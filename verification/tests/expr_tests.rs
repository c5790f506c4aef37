use rule_engine::errors::{CompileError, EvalError, ExprError};
use rule_engine::expr::{BaseOutput, Expr};
use rule_engine::output::H;
use rule_engine::rat::Rat;
use rule_engine::scope::Scope;

#[test]
fn test_expr1() {
    let rs = Expr::from_str("A && B && !C => H = M").unwrap();
    assert_eq!(
        rs.run(Scope::abc(true, true, false)).unwrap(),
        BaseOutput::Output(Some(H::M))
    );
}

#[test]
fn test_expr2() {
    let rs = Expr::from_str("H = P => K = D + (D * (E - F) / 25.5)").unwrap();
    match rs.run(Scope::def(Rat::new(1, 1), 1, 1)).unwrap() {
        BaseOutput::Num(v) => assert!(v.same_value(&Rat::from_int(1))),
        other => panic!("expected a number, got {:?}", other),
    }
}

#[test]
fn from_str_empty_text() {
    assert_eq!(Expr::from_str("").unwrap_err(), ExprError::Empty);
    assert_eq!(Expr::from_str("   ").unwrap_err(), ExprError::Empty);
}

#[test]
fn from_str_propagates_errors() {
    assert!(matches!(Expr::from_str("!A && !B && !"), Err(ExprError::Compile(_))));
    assert!(matches!(Expr::from_str("A ~ B"), Err(ExprError::Tokenize(_))));
    assert_eq!(
        Expr::from_str("A && B").unwrap_err(),
        ExprError::Compile(CompileError::NoArrow)
    );
}

#[test]
fn compile_round_trip_is_stable() {
    // Compiling the same text twice yields rules with identical postfix
    // forms: structural equality compares exactly the instruction sequence.
    let a = Expr::from_str("H = P => K = D + (D * (E - F) / 25.5)").unwrap();
    let b = Expr::from_str("H = P => K = D + (D * (E - F) / 25.5)").unwrap();
    assert_eq!(a, b);

    let g1 = Expr::from_str("A && B && !C => H = M").unwrap();
    let g2 = Expr::from_str("A && B && !C => H = M").unwrap();
    assert_eq!(g1, g2);
}

#[test]
fn division_by_zero_is_an_error() {
    // e == f makes the divisor exactly zero; the result is an arithmetic
    // error, never an infinite or undefined value.
    let rs = Expr::from_str("H = M => K = D / (E - F)").unwrap();
    assert_eq!(
        rs.run(Scope::def(Rat::new(1, 1), 7, 7)).unwrap_err(),
        EvalError::DivByZero
    );
}
