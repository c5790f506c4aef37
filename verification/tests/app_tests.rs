use rule_engine::app::App;
use rule_engine::errors::{EvalError, RunError};
use rule_engine::expr::Expr;
use rule_engine::output::H;
use rule_engine::rat::Rat;
use rule_engine::scope::Scope;

fn default_rules() -> App {
    let app = App::new();
    let app = app.add("A && B && !C => H = M").unwrap();
    let app = app.add("A && B && C => H = P").unwrap();
    let app = app.add("!A && B && C => H = T").unwrap();
    let app = app.add("H = M => K = D + (D * E / 10)").unwrap();
    let app = app.add("H = P => K = D + (D * (E - F) / 25.5)").unwrap();
    app.add("H = T => K = D - (D * F / 30)").unwrap()
}

#[test]
fn test_app() {
    let app = default_rules();

    let rs = app.run(Scope::new(false, true, true, Rat::new(5, 1), 0, 30)).unwrap();
    assert!(rs.same_value(&Rat::from_int(0)));

    let rs = app.run(Scope::new(true, true, true, Rat::new(1, 1), 52, 1)).unwrap();
    assert!(rs.same_value(&Rat::from_int(3)));
}

#[test]
fn run_error_variants() {
    // No boolean rule matches the all-false context.
    let app = default_rules();
    assert_eq!(
        app.run(Scope::new(false, false, false, Rat::new(1, 1), 0, 0)).unwrap_err(),
        RunError::NoRuleMatched
    );

    // A tag with no arithmetic rule keyed by it.
    let app = App::new();
    let app = app.add("A => H = M").unwrap();
    assert_eq!(
        app.run(Scope::new(true, false, false, Rat::new(1, 1), 0, 0)).unwrap_err(),
        RunError::NoFormula(H::M)
    );

    // Division by zero inside the selected formula.
    let app = App::new();
    let app = app.add("A => H = M").unwrap();
    let app = app.add("H = M => K = D / (E - F)").unwrap();
    assert_eq!(
        app.run(Scope::new(true, false, false, Rat::new(1, 1), 4, 4)).unwrap_err(),
        RunError::Eval(EvalError::DivByZero)
    );
}

#[test]
fn insert_idempotence_scenario() {
    // Inserting a structurally identical rule twice: resolve behavior is
    // unchanged, but the rule's stored position moves to the end.
    let app = default_rules();
    let n = app.exprs.len();
    let scope = Scope::new(true, true, true, Rat::new(1, 1), 52, 1);
    let before = app.run(scope).unwrap();

    let dup = Expr::from_str("A && B && C => H = P").unwrap();
    let app = app.add_expr(dup.clone());
    // The duplicate replaced its earlier occurrence: same rule count, and
    // the rule now stands last.
    assert_eq!(n, app.exprs.len());
    assert_eq!(*app.exprs.last().unwrap(), dup);

    // Inserting a structurally different rule afterwards changes nothing
    // about which rules fire first: resolve still takes the first match in
    // stored order.
    let app = app.add("!A && !B && !C => H = P").unwrap();
    let after = app.run(scope).unwrap();
    assert!(before.same_value(&after));
    assert!(after.same_value(&Rat::from_int(3)));
}

#[test]
fn override_changes_the_tag() {
    // Rule identity deliberately ignores the output tag: a rule with the
    // same guard but another tag replaces the old one.
    let app = App::new();
    let app = app.add("A && B && !C => H = M").unwrap();
    let app = app.add("H = M => K = D + (D * E / 10)").unwrap();
    let app = app.add("H = P => K = D + D").unwrap();
    let scope = Scope::new(true, true, false, Rat::new(1, 1), 52, 1);
    // The M formula fires: 1 + 1 * 52 / 10.
    assert!(app.run(scope).unwrap().same_value(&Rat::new(62, 10)));

    let app = app.add("A && B && !C => H = P").unwrap();
    // The same guard now yields P, so the P formula fires: 1 + 1 = 2.
    assert!(app.run(scope).unwrap().same_value(&Rat::from_int(2)));
}

#[test]
fn well_formed_rules_from_text() {
    let app = default_rules();
    assert!(app.well_formed());
    assert!(App::new().well_formed());
}
