use msi::expr::Expr;
use msi::query::{Delete, Insert, Select, Update};
use msi::value::Value;

#[test]
fn display_delete() {
    let query = Delete::from("Foobar");
    assert_eq!(query.to_string(), "DELETE FROM Foobar".to_string());

    let query = Delete::from("Foobar").with(Expr::col("Foo").lt(Expr::integer(17)));
    assert_eq!(query.to_string(), "DELETE FROM Foobar WHERE Foo < 17".to_string());
}

#[test]
fn display_insert() {
    let query = Insert::into("Foobar");
    assert_eq!(query.to_string(), "INSERT INTO Foobar".to_string());

    let query = Insert::into("Foobar").row(vec![Value::Str("Foo".to_string()), Value::Null]);
    assert_eq!(query.to_string(), "INSERT INTO Foobar VALUES (\"Foo\", NULL)".to_string());

    let query = Insert::into("Foobar")
        .row(vec![Value::Int(1), Value::Int(2)])
        .rows(vec![vec![Value::Int(3), Value::Int(4)], vec![Value::Int(5), Value::Int(6)]])
        .row(vec![Value::Int(7), Value::Int(8)]);
    assert_eq!(query.to_string(), "INSERT INTO Foobar VALUES (1, 2), (3, 4), (5, 6), (7, 8)".to_string());
}

#[test]
fn display_select() {
    let query = Select::table("Foobar");
    assert_eq!(query.to_string(), "SELECT * FROM Foobar".to_string());

    let query = Select::table("Foobar").columns(&["Foo", "Bar"]).with(Expr::col("Foo").lt(Expr::integer(17)));
    assert_eq!(query.to_string(), "SELECT Foo, Bar FROM Foobar WHERE Foo < 17".to_string());

    let query = Select::table("Foobar")
        .inner_join(Select::table("Quux"), Expr::col("Foobar.Key").eq(Expr::col("Quux.Quay")))
        .columns(&["Foobar.Foo", "Quux.Baz"]);
    assert_eq!(
        query.to_string(),
        "SELECT Foobar.Foo, Quux.Baz FROM Foobar INNER JOIN Quux ON Foobar.Key = Quux.Quay".to_string()
    );

    let query = Select::table("Foobar")
        .inner_join(
            Select::table("Quux").with(Expr::col("Quay").gt(Expr::integer(42))),
            Expr::col("Foobar.Key").eq(Expr::col("Quux.Quay")),
        )
        .columns(&["Foobar.Foo", "Quux.Baz"]);
    assert_eq!(
        query.to_string(),
        "SELECT Foobar.Foo, Quux.Baz FROM Foobar INNER JOIN (SELECT * FROM Quux WHERE Quay > 42) ON Foobar.Key = Quux.Quay"
            .to_string()
    );
}

#[test]
fn display_update() {
    let query = Update::table("Foobar").set("Foo", Value::Int(17));
    assert_eq!(query.to_string(), "UPDATE Foobar SET Foo = 17".to_string());

    let query = Update::table("Foobar")
        .set("Foo", Value::Int(17))
        .set("Bar", Value::Null)
        .set("Baz", Value::Str("quux".to_string()))
        .with(Expr::col("Foo").lt(Expr::integer(17)));
    assert_eq!(
        query.to_string(),
        "UPDATE Foobar SET Foo = 17, Bar = NULL, Baz = \"quux\" WHERE Foo < 17".to_string()
    );
}

#[test]
fn display_left_join() {
    let query = Select::table("Foobar")
        .left_join(Select::table("Quux"), Expr::col("Foobar.Key").eq(Expr::col("Quux.Quay")));
    assert_eq!(
        query.to_string(),
        "SELECT * FROM Foobar LEFT JOIN Quux ON Foobar.Key = Quux.Quay".to_string()
    );
}

#[test]
fn conditions_combine() {
    let query = Delete::from("Foobar")
        .with(Expr::col("Foo").lt(Expr::integer(17)))
        .with(Expr::col("Bar").eq(Expr::null()));
    assert_eq!(query.to_string(), "DELETE FROM Foobar WHERE Foo < 17 AND Bar = NULL".to_string());
}
