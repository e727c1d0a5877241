use gitql_core::expression::{
    CallExpression, CheckExpression, CheckOperator, ComparisonExpression, ComparisonOperator,
    EvaluationError, Expression, LogicalExpression, LogicalOperator, NotExpression,
    StringExpression, SymbolExpression, TransformationRegistry,
};
use gitql_core::object::GQLObject;

fn text(s: &str) -> Box<Expression> {
    Box::new(Expression::String(StringExpression { value: s.to_string() }))
}

fn symbol(s: &str) -> Box<Expression> {
    Box::new(Expression::Symbol(SymbolExpression { value: s.to_string() }))
}

fn record(fields: &[(&str, &str)]) -> GQLObject {
    let mut o = GQLObject::new();
    for (k, v) in fields {
        o.insert(k.to_string(), v.to_string());
    }
    o
}

fn eval(e: &Expression, o: &GQLObject) -> Result<String, EvaluationError> {
    e.evaluate(o, &TransformationRegistry::standard())
}

fn compare(a: &str, op: ComparisonOperator, b: &str) -> String {
    let e = Expression::Comparison(ComparisonExpression { left: text(a), operator: op, right: text(b) });
    eval(&e, &GQLObject::new()).unwrap()
}

fn check(a: &str, op: CheckOperator, b: &str) -> String {
    let e = Expression::Check(CheckExpression { left: text(a), operator: op, right: text(b) });
    eval(&e, &GQLObject::new()).unwrap()
}

fn logical(left: Box<Expression>, op: LogicalOperator, right: Box<Expression>) -> Expression {
    Expression::Logical(LogicalExpression { left, operator: op, right })
}

#[test]
fn string_and_symbol_values() {
    let o = record(&[("name", "amr"), ("id", "7")]);
    assert_eq!(eval(&text("hi"), &o).unwrap(), "hi");
    assert_eq!(eval(&symbol("name"), &o).unwrap(), "amr");
    match eval(&symbol("email"), &o) {
        Err(EvaluationError::FieldNotFound(n)) => assert_eq!(n, "email"),
        other => panic!("unexpected {:?}", other),
    }
}

#[test]
fn comparison_is_lexicographic() {
    assert_eq!(compare("9", ComparisonOperator::Less, "10"), "false");
    assert_eq!(compare("9", ComparisonOperator::Greater, "10"), "true");
    assert_eq!(compare("abc", ComparisonOperator::Less, "abd"), "true");
    assert_eq!(compare("ab", ComparisonOperator::Less, "abc"), "true");
    assert_eq!(compare("a", ComparisonOperator::GreaterEqual, "a"), "true");
    assert_eq!(compare("a", ComparisonOperator::LessEqual, "b"), "true");
    assert_eq!(compare("b", ComparisonOperator::LessEqual, "a"), "false");
    assert_eq!(compare("x", ComparisonOperator::Equal, "x"), "true");
    assert_eq!(compare("x", ComparisonOperator::NotEqual, "x"), "false");
    assert_eq!(compare("x", ComparisonOperator::NotEqual, "y"), "true");
}

#[test]
fn substring_checks() {
    assert_eq!(check("hello", CheckOperator::Contains, "ell"), "true");
    assert_eq!(check("hello", CheckOperator::Contains, "elo"), "false");
    assert_eq!(check("hello", CheckOperator::Contains, ""), "true");
    assert_eq!(check("hello", CheckOperator::StartsWith, "he"), "true");
    assert_eq!(check("hello", CheckOperator::StartsWith, "lo"), "false");
    assert_eq!(check("hello", CheckOperator::EndsWith, "lo"), "true");
    assert_eq!(check("lo", CheckOperator::EndsWith, "hello"), "false");
}

#[test]
fn regex_matches() {
    assert_eq!(check("abc123", CheckOperator::Matches, "[0-9]+"), "true");
    assert_eq!(check("abc", CheckOperator::Matches, "^b"), "false");
}

#[test]
fn invalid_regex_is_false() {
    assert_eq!(check("(", CheckOperator::Matches, "("), "false");
    assert_eq!(check("anything", CheckOperator::Matches, "("), "false");
    assert_eq!(check("", CheckOperator::Matches, "("), "false");
}

#[test]
fn not_negates_true_only() {
    let o = GQLObject::new();
    let not = |v: &str| Expression::Not(NotExpression { right: text(v) });
    assert_eq!(eval(&not("true"), &o).unwrap(), "false");
    assert_eq!(eval(&not("false"), &o).unwrap(), "true");
    assert_eq!(eval(&not("yes"), &o).unwrap(), "true");
}

#[test]
fn and_short_circuits_on_false() {
    let o = record(&[("id", "1")]);
    let e = logical(text("false"), LogicalOperator::And, symbol("missing"));
    assert_eq!(eval(&e, &o).unwrap(), "false");
    let e = logical(text("true"), LogicalOperator::And, symbol("missing"));
    assert!(matches!(eval(&e, &o), Err(EvaluationError::FieldNotFound(_))));
}

#[test]
fn or_short_circuits_on_true() {
    let o = record(&[("id", "1")]);
    let e = logical(text("true"), LogicalOperator::Or, symbol("missing"));
    assert_eq!(eval(&e, &o).unwrap(), "true");
    let e = logical(text("false"), LogicalOperator::Or, symbol("missing"));
    assert!(matches!(eval(&e, &o), Err(EvaluationError::FieldNotFound(_))));
}

#[test]
fn logical_operators_combine() {
    let o = GQLObject::new();
    let run = |a: &str, op: LogicalOperator, b: &str| eval(&logical(text(a), op, text(b)), &o).unwrap();
    assert_eq!(run("true", LogicalOperator::And, "true"), "true");
    assert_eq!(run("true", LogicalOperator::And, "false"), "false");
    assert_eq!(run("false", LogicalOperator::Or, "true"), "true");
    assert_eq!(run("false", LogicalOperator::Or, "no"), "false");
    assert_eq!(run("true", LogicalOperator::Xor, "true"), "false");
    assert_eq!(run("true", LogicalOperator::Xor, "false"), "true");
    assert_eq!(run("false", LogicalOperator::Xor, "false"), "false");
}

#[test]
fn call_applies_registered_transformation() {
    let o = record(&[("name", "  MiXed  ")]);
    let call = |f: &str| {
        Expression::Call(CallExpression { left: symbol("name"), function_name: f.to_string() })
    };
    assert_eq!(eval(&call("lower"), &o).unwrap(), "  mixed  ");
    assert_eq!(eval(&call("upper"), &o).unwrap(), "  MIXED  ");
    assert_eq!(eval(&call("trim"), &o).unwrap(), "MiXed");
    match eval(&call("reverse"), &o) {
        Err(EvaluationError::UnknownFunction(n)) => assert_eq!(n, "reverse"),
        other => panic!("unexpected {:?}", other),
    }
}

#[test]
fn registry_lookup() {
    let reg = TransformationRegistry::standard();
    assert!(reg.lookup("lower").is_some());
    assert!(reg.lookup("Lower").is_none());
    assert!(reg.lookup("").is_none());
}
