use msi::column::Column;
use msi::expr::{BinOp, Expr, UnOp};
use msi::table::{Row, Table};
use msi::value::Value;
use std::collections::HashSet;

fn example_row() -> Row {
    let columns = vec![
        Column::build("Str1").string(10),
        Column::build("Int1").int16(),
        Column::build("Str2").string(10),
        Column::build("Null").nullable().int16(),
        Column::build("Int2").int32(),
    ];
    let table = Table::new("Example".to_string(), columns, false);
    let values = vec![
        Value::Str("foo".to_string()),
        Value::Int(42),
        Value::Str("bar".to_string()),
        Value::Null,
        Value::Int(-17),
    ];
    Row::new(table, values)
}

#[test]
fn evaluate() {
    let row = example_row();
    assert_eq!(Expr::col("Str2").gt(Expr::col("Str1")).eval(&row), Value::from_bool(false));
    assert_eq!(
        Expr::col("Null").eq(Expr::null()).and(Expr::col("Int2").lt(Expr::integer(0))).eval(&row),
        Value::from_bool(true)
    );
    assert_eq!(
        Expr::col("Null").or(Expr::col("Int1").ne(Expr::col("Int2"))).eval(&row),
        Value::from_bool(true)
    );
    assert_eq!(((Expr::col("Int1") - Expr::col("Int2")) * Expr::col("Int1")).eval(&row), Value::Int(2478));
    assert_eq!(((Expr::col("Int1") << Expr::integer(2)) ^ Expr::col("Int2")).eval(&row), Value::Int(-185));
    assert_eq!((Expr::col("Int2") / Expr::integer(0)).eval(&row), Value::Null);
    assert_eq!(
        (Expr::col("Str1") + Expr::string(":") + Expr::col("Str2")).eval(&row),
        Value::Str("foo:bar".to_string())
    );
}

#[test]
fn column_names() {
    let expr = (Expr::col("Foo") / Expr::integer(10))
        .le(Expr::col("Bar"))
        .or(Expr::col("Baz").ge(Expr::col("Foo")));
    let expected: HashSet<&str> = vec!["Foo", "Bar", "Baz"].into_iter().collect();
    let names: HashSet<&str> = expr.column_names().into_iter().collect();
    assert_eq!(names, expected);
}

#[test]
fn display() {
    let expr = (Expr::col("Foo") / Expr::integer(10))
        .le(Expr::col("Bar"))
        .or(Expr::col("Baz").ge(Expr::col("Foo")));
    assert_eq!(expr.to_string(), "Foo / 10 <= Bar OR Baz >= Foo".to_string());

    let expr = Expr::col("Foo") * (Expr::integer(10) + Expr::col("Bar"));
    assert_eq!(expr.to_string(), "Foo * (10 + Bar)".to_string());

    let expr = (Expr::col("Foo") + Expr::integer(10)) * Expr::col("Bar");
    assert_eq!(expr.to_string(), "(Foo + 10) * Bar".to_string());

    let expr = Expr::col("Foo").and(Expr::col("Bar")).or(Expr::col("Baz"));
    assert_eq!(expr.to_string(), "Foo AND Bar OR Baz".to_string());

    let expr = Expr::col("Foo").or(Expr::col("Bar")).and(Expr::col("Baz"));
    assert_eq!(expr.to_string(), "(Foo OR Bar) AND Baz".to_string());

    let expr = Expr::col("Foo") - Expr::col("Bar") - Expr::col("Baz");
    assert_eq!(expr.to_string(), "Foo - Bar - Baz".to_string());

    let expr = Expr::col("Foo") - (Expr::col("Bar") - Expr::col("Baz"));
    assert_eq!(expr.to_string(), "Foo - (Bar - Baz)".to_string());

    let expr = Expr::col("Foo").or(Expr::col("Bar")).or(Expr::col("Baz"));
    assert_eq!(expr.to_string(), "Foo OR Bar OR Baz".to_string());

    let expr = Expr::col("Foo").or(Expr::col("Bar").or(Expr::col("Baz")));
    assert_eq!(expr.to_string(), "Foo OR (Bar OR Baz)".to_string());
}

#[test]
fn constant_folding() {
    let expr = -Expr::integer(-5) + Expr::col("Foo");
    assert_eq!(expr.to_string(), "5 + Foo".to_string());

    let expr = Expr::integer(3) * Expr::integer(4) - Expr::integer(2);
    assert_eq!(expr.to_string(), "10".to_string());
}

#[test]
fn folding_keeps_the_value() {
    let row = example_row();
    let folded = Expr::integer(3) * Expr::integer(4) - Expr::integer(2);
    assert_eq!(folded.eval(&row), Value::Int(10));
    let overflow = Expr::integer(i32::MAX) + Expr::integer(1);
    assert_eq!(overflow.to_string(), "NULL");
    assert_eq!(overflow.eval(&row), Value::Null);
}

#[test]
fn logical_results_are_booleans() {
    let row = example_row();
    assert_eq!(Expr::col("Int1").and(Expr::col("Str1")).eval(&row), Value::from_bool(true));
    assert_eq!(Expr::col("Int1").not().eval(&row), Value::from_bool(false));
    assert_eq!(Expr::col("Null").not().eval(&row), Value::from_bool(true));
}

#[test]
fn operators_on_values() {
    assert_eq!(BinOp::Add.eval(Value::Int(2), Value::Int(3)), Value::Int(5));
    assert_eq!(BinOp::Shl.eval(Value::Int(1), Value::Int(32)), Value::Null);
    assert_eq!(BinOp::Div.eval(Value::Int(-7), Value::Int(2)), Value::Int(-3));
    assert_eq!(UnOp::Neg.eval(Value::Int(i32::MIN)), Value::Null);
    assert_eq!(UnOp::BitNot.eval(Value::Int(0)), Value::Int(-1));
}

#[test]
fn bitwise_inverse_expression() {
    let row = example_row();
    assert_eq!(Expr::col("Int1").bitinv().eval(&row), Value::Int(!42));
    assert_eq!(Expr::col("Null").bitinv().eval(&row), Value::Null);
    assert_eq!(Expr::integer(0).bitinv().eval(&row), Value::Int(-1));
}

#[test]
fn and_or_skip_the_right_operand() {
    let row = example_row();
    assert_eq!(Expr::integer(0).and(Expr::col("Missing")).eval(&row), Value::from_bool(false));
    assert_eq!(Expr::col("Int1").or(Expr::col("Missing")).eval(&row), Value::from_bool(true));
}
