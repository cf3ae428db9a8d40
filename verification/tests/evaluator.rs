use vn_script::expr::{eval, is_right_associative, precedence};
use vn_script::store::{Value, VarStore};

/// Fixed-point raw value to the number it stands for.
fn as_f64(raw: i64) -> f64 {
    raw as f64 / 1_000_000.0
}

fn eval_f(expr: &str, vars: &VarStore) -> f64 {
    as_f64(eval(expr, vars))
}

#[test]
fn precedence_multiplication_first() {
    let vars = VarStore::new();
    assert_eq!(eval_f("2 + 3 * 4", &vars), 14.0);
}

#[test]
fn parentheses_override_precedence() {
    let vars = VarStore::new();
    assert_eq!(eval_f("(2 + 3) * 4", &vars), 20.0);
}

#[test]
fn not_of_zero_and_one() {
    let vars = VarStore::new();
    assert_eq!(eval_f("not 0", &vars), 1.0);
    assert_eq!(eval_f("not 1", &vars), 0.0);
}

#[test]
fn and_is_false_when_one_side_fails() {
    let vars = VarStore::new();
    assert_eq!(eval_f("5 > 3 and 2 < 1", &vars), 0.0);
}

#[test]
fn or_needs_only_one_side() {
    let vars = VarStore::new();
    assert_eq!(eval_f("0 or 2", &vars), 1.0);
    assert_eq!(eval_f("0 or 0", &vars), 0.0);
}

#[test]
fn comparisons() {
    let vars = VarStore::new();
    assert_eq!(eval_f("1 == 1", &vars), 1.0);
    assert_eq!(eval_f("1 == 2", &vars), 0.0);
    assert_eq!(eval_f("3 >= 3", &vars), 1.0);
    assert_eq!(eval_f("2 <= 1", &vars), 0.0);
    assert_eq!(eval_f("2 < 3", &vars), 1.0);
}

#[test]
fn arithmetic_with_decimals() {
    let vars = VarStore::new();
    assert_eq!(eval_f("10 / 4", &vars), 2.5);
    assert_eq!(eval_f("7 % 3", &vars), 1.0);
    assert_eq!(eval_f("2 - 5", &vars), -3.0);
    assert_eq!(eval_f("1.5 * 2", &vars), 3.0);
    assert_eq!(eval_f("0.25 + 0.75", &vars), 1.0);
}

#[test]
fn division_by_zero_degrades_to_zero() {
    let vars = VarStore::new();
    assert_eq!(eval_f("5 / 0", &vars), 0.0);
    assert_eq!(eval_f("5 % 0", &vars), 0.0);
}

#[test]
fn unknown_variable_reads_as_zero() {
    let vars = VarStore::new();
    assert_eq!(eval_f("missing + 1", &vars), 1.0);
}

#[test]
fn variable_coercions() {
    let mut vars = VarStore::new();
    vars.set("count", Value::Int(2));
    vars.set("flag", Value::Bool(true));
    vars.set("title", Value::Text("intro".to_string()));
    assert_eq!(eval_f("count * 3", &vars), 6.0);
    assert_eq!(eval_f("flag", &vars), 1.0);
    assert_eq!(eval_f("title + 1", &vars), 1.0);
}

#[test]
fn store_overwrites_and_reads_back() {
    let mut vars = VarStore::new();
    vars.set("x", Value::Int(1));
    vars.set("x", Value::Num(2_500_000));
    match vars.get("x") {
        Some(Value::Num(raw)) => assert_eq!(*raw, 2_500_000),
        other => panic!("unexpected value: {:?}", other),
    }
    assert!(vars.get("y").is_none());
}

#[test]
fn empty_and_malformed_expressions_read_as_zero() {
    let vars = VarStore::new();
    assert_eq!(eval_f("", &vars), 0.0);
    assert_eq!(eval_f("+", &vars), 0.0);
    assert_eq!(eval_f("(2", &vars), 0.0);
    assert_eq!(eval_f(")", &vars), 0.0);
}

#[test]
fn bare_point_literals() {
    let vars = VarStore::new();
    assert_eq!(eval_f(".5 + 1", &vars), 1.5);
    assert_eq!(eval_f("2. * 2", &vars), 4.0);
}

#[test]
fn oversized_literals_saturate() {
    let vars = VarStore::new();
    assert_eq!(eval("9999999999999999999999", &vars), i64::MAX);
}

#[test]
fn keyword_operators_bind_loosest() {
    let vars = VarStore::new();
    // `or` binds below the comparison, so this reads (1 > 2) or (3 > 2)
    assert_eq!(eval_f("1 > 2 or 3 > 2", &vars), 1.0);
}

#[test]
fn operators_need_no_surrounding_spaces() {
    let vars = VarStore::new();
    assert_eq!(eval_f("2+3*4", &vars), 14.0);
    assert_eq!(eval_f("(2+3)*4", &vars), 20.0);
    assert_eq!(eval_f("1<=2", &vars), 1.0);
}

#[test]
fn bare_equals_is_an_unknown_operator() {
    let vars = VarStore::new();
    // a lone `=` is not the evaluator's business; it degrades to zero
    assert_eq!(eval_f("x = 5", &vars), 0.0);
}

#[test]
fn precedence_table() {
    assert_eq!(precedence("or"), 1);
    assert_eq!(precedence("and"), 2);
    assert_eq!(precedence("=="), 3);
    assert_eq!(precedence(">"), 3);
    assert_eq!(precedence("<="), 3);
    assert_eq!(precedence("+"), 4);
    assert_eq!(precedence("-"), 4);
    assert_eq!(precedence("*"), 5);
    assert_eq!(precedence("/"), 5);
    assert_eq!(precedence("%"), 5);
    assert_eq!(precedence("not"), 6);
    assert_eq!(precedence("??"), 0);
}

#[test]
fn only_not_is_right_associative() {
    assert!(is_right_associative("not"));
    assert!(!is_right_associative("+"));
    assert!(!is_right_associative("and"));
}
