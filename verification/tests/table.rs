use msi::codepage::CodePage;
use msi::column::Column;
use msi::stringpool::StringPool;
use msi::table::{Row, Rows, Table};
use msi::value::{Value, ValueRef};

#[test]
fn valid_table_name() {
    assert!(Table::is_valid_name("fooBar"));
    assert!(Table::is_valid_name("_Validation"));
    assert!(Table::is_valid_name("Catch22"));
    assert!(Table::is_valid_name("Foo.Bar"));

    assert!(!Table::is_valid_name(""));
    assert!(!Table::is_valid_name("99Bottles"));
    assert!(!Table::is_valid_name(
        "ThisStringIsWayTooLongToBeATableNameIMeanSeriouslyWhoWouldTryToUseANameThatIsThisLongItWouldBePrettySilly"
    ));
}

fn numbers_table(long_string_refs: bool) -> std::rc::Rc<Table> {
    Table::new(
        "Numbers".to_string(),
        vec![Column::build("Number").primary_key().int16(), Column::build("Word").nullable().string(50)],
        long_string_refs,
    )
}

#[test]
fn table_columns() {
    let table = numbers_table(false);
    assert_eq!(table.name(), "Numbers");
    assert_eq!(table.columns().len(), 2);
    assert!(table.has_column("Word"));
    assert!(!table.has_column("Letter"));
    assert_eq!(table.get_column("Word").unwrap().name(), "Word");
    assert!(table.get_column("Letter").is_none());
    assert_eq!(table.primary_key_indices(), vec![0]);
    assert_eq!(table.index_for_column_name("Word"), Some(1));
    assert_eq!(table.stream_name(), msi::streamname::encode("Numbers", true));
}

#[test]
fn rows_round_trip() {
    let mut pool = StringPool::new(CodePage::Utf8);
    let one = pool.incref("One".to_string());
    let table = numbers_table(false);
    let rows = vec![
        vec![ValueRef::Int(1), ValueRef::Str(one)],
        vec![ValueRef::Int(2), ValueRef::Null],
        vec![ValueRef::Int(-3), ValueRef::Str(one)],
    ];
    let bytes = table.write_rows(&rows).unwrap();
    assert_eq!(bytes.len(), 3 * 4);
    assert_eq!(table.read_rows(&bytes), rows);
}

#[test]
fn rows_are_stored_by_column() {
    let table = numbers_table(true);
    let rows = vec![vec![ValueRef::Int(1), ValueRef::Null], vec![ValueRef::Int(2), ValueRef::Null]];
    let bytes = table.write_rows(&rows).unwrap();
    assert_eq!(bytes, vec![0x01, 0x80, 0x02, 0x80, 0, 0, 0, 0, 0, 0]);
}

#[test]
fn trailing_bytes_are_ignored() {
    let table = numbers_table(false);
    let rows = table.read_rows(&[0x01, 0x80, 0x00, 0x00, 0xff]);
    assert_eq!(rows, vec![vec![ValueRef::Int(1), ValueRef::Null]]);
}

#[test]
fn row_values() {
    let table = numbers_table(false);
    let row = Row::new(table, vec![Value::Int(7), Value::Str("Seven".to_string())]);
    assert_eq!(row.len(), 2);
    assert!(!row.is_empty());
    assert!(row.has_column("Number"));
    assert_eq!(row.get(0), &Value::Int(7));
    assert_eq!(row.get_named("Word"), &Value::Str("Seven".to_string()));
}

#[test]
fn rows_hand_out_values() {
    let mut pool = StringPool::new(CodePage::Utf8);
    let one = pool.incref("One".to_string());
    let table = numbers_table(false);
    let mut rows = Rows::new(&pool, table, vec![vec![ValueRef::Int(1), ValueRef::Str(one)]]);
    assert_eq!(rows.remaining(), 1);
    assert_eq!(rows.columns().len(), 2);
    let row = rows.next_row().unwrap();
    assert_eq!(row.get(1), &Value::Str("One".to_string()));
    assert!(rows.next_row().is_none());
    assert_eq!(rows.remaining(), 0);
}
