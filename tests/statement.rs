use gitql_core::expression::{
    CheckExpression, CheckOperator, Expression, StringExpression, SymbolExpression,
    TransformationRegistry,
};
use gitql_core::object::GQLObject;
use gitql_core::statement::{
    execute_statements, LimitStatement, OffsetStatement, OrderByStatement, SelectStatement,
    Statement, WhereStatement,
};

fn record(fields: &[(&str, &str)]) -> GQLObject {
    let mut o = GQLObject::new();
    for (k, v) in fields {
        o.insert(k.to_string(), v.to_string());
    }
    o
}

fn ids(objects: &[GQLObject]) -> Vec<String> {
    objects.iter().map(|o| o.get("id").unwrap_or_default()).collect()
}

fn three() -> Vec<GQLObject> {
    vec![record(&[("id", "3")]), record(&[("id", "1")]), record(&[("id", "2")])]
}

fn run(statements: Vec<Statement>, objects: &mut Vec<GQLObject>) {
    execute_statements(&statements, &Vec::new(), objects, &TransformationRegistry::standard()).unwrap();
}

fn order_by(f: &str) -> Statement {
    Statement::OrderBy(OrderByStatement { field_name: f.to_string() })
}

#[test]
fn order_then_limit() {
    let mut objects = three();
    run(vec![order_by("id"), Statement::Limit(LimitStatement { count: 2 })], &mut objects);
    assert_eq!(ids(&objects), vec!["1", "2"]);
}

#[test]
fn limit_then_order() {
    let mut objects = three();
    run(vec![Statement::Limit(LimitStatement { count: 2 }), order_by("id")], &mut objects);
    // The limit keeps the two leading records, {id:"3"} and {id:"1"}, before sorting.
    assert_eq!(ids(&objects), vec!["1", "3"]);
    let mut other = three();
    run(vec![order_by("id"), Statement::Limit(LimitStatement { count: 2 })], &mut other);
    assert_ne!(ids(&objects), ids(&other));
}

#[test]
fn offset_past_end_is_empty() {
    let mut objects = three();
    OffsetStatement { count: 10 }.execute(&mut objects);
    assert!(objects.is_empty());
}

#[test]
fn limit_past_end_keeps_all() {
    let mut objects = three();
    LimitStatement { count: 10 }.execute(&mut objects);
    assert_eq!(ids(&objects), vec!["3", "1", "2"]);
    LimitStatement { count: 3 }.execute(&mut objects);
    assert_eq!(ids(&objects), vec!["3", "1", "2"]);
    LimitStatement { count: 0 }.execute(&mut objects);
    assert!(objects.is_empty());
}

#[test]
fn offset_drops_leading_records() {
    let mut objects = three();
    OffsetStatement { count: 1 }.execute(&mut objects);
    assert_eq!(ids(&objects), vec!["1", "2"]);
    OffsetStatement { count: 0 }.execute(&mut objects);
    assert_eq!(ids(&objects), vec!["1", "2"]);
}

#[test]
fn order_by_is_stable_and_lexicographic() {
    let mut objects = vec![
        record(&[("id", "10"), ("n", "a")]),
        record(&[("id", "9"), ("n", "b")]),
        record(&[("id", "10"), ("n", "c")]),
        record(&[("id", "1"), ("n", "d")]),
    ];
    OrderByStatement { field_name: "id".to_string() }.execute(&mut objects);
    let names: Vec<String> = objects.iter().map(|o| o.get("n").unwrap()).collect();
    assert_eq!(names, vec!["d", "a", "c", "b"]);
}

#[test]
fn order_by_missing_field_is_noop() {
    let mut objects = three();
    OrderByStatement { field_name: "name".to_string() }.execute(&mut objects);
    assert_eq!(ids(&objects), vec!["3", "1", "2"]);
    let mut empty: Vec<GQLObject> = Vec::new();
    OrderByStatement { field_name: "id".to_string() }.execute(&mut empty);
    assert!(empty.is_empty());
}

#[test]
fn where_keeps_true_records_in_order() {
    let mut objects = vec![
        record(&[("id", "1"), ("msg", "fix bug")]),
        record(&[("id", "2"), ("msg", "add docs")]),
        record(&[("id", "3"), ("msg", "fix typo")]),
    ];
    let cond = Expression::Check(CheckExpression {
        left: Box::new(Expression::Symbol(SymbolExpression { value: "msg".to_string() })),
        operator: CheckOperator::StartsWith,
        right: Box::new(Expression::String(StringExpression { value: "fix".to_string() })),
    });
    let w = WhereStatement { condition: Box::new(cond) };
    w.execute(&mut objects, &TransformationRegistry::standard()).unwrap();
    assert_eq!(ids(&objects), vec!["1", "3"]);
}

#[test]
fn where_failure_leaves_records() {
    let mut objects = three();
    let w = WhereStatement {
        condition: Box::new(Expression::Symbol(SymbolExpression { value: "missing".to_string() })),
    };
    assert!(w.execute(&mut objects, &TransformationRegistry::standard()).is_err());
    assert_eq!(ids(&objects), vec!["3", "1", "2"]);
}

#[test]
fn select_appends_fetched_records() {
    let mut objects: Vec<GQLObject> = Vec::new();
    let select = SelectStatement { table_name: "commits".to_string(), fields: vec!["id".to_string()] };
    select.execute(&three(), &mut objects);
    assert_eq!(ids(&objects), vec!["3", "1", "2"]);
    let statements = vec![
        Statement::Select(SelectStatement { table_name: "commits".to_string(), fields: vec![] }),
        order_by("id"),
        Statement::Offset(OffsetStatement { count: 1 }),
    ];
    let mut result: Vec<GQLObject> = Vec::new();
    execute_statements(&statements, &three(), &mut result, &TransformationRegistry::standard()).unwrap();
    assert_eq!(ids(&result), vec!["2", "3"]);
}

#[test]
fn record_insert_replaces_value() {
    let mut o = record(&[("a", "1"), ("b", "2")]);
    o.insert("a".to_string(), "9".to_string());
    assert_eq!(o.get("a").unwrap(), "9");
    assert_eq!(o.get("b").unwrap(), "2");
    assert_eq!(o.attributes.len(), 2);
    assert!(o.contains_key("b"));
    assert!(!o.contains_key("c"));
    let d = o.duplicate();
    assert_eq!(d.get("a").unwrap(), "9");
}
