use msi::column::{Column, ColumnType};
use msi::error::{Error, ErrorKind};
use msi::expr::Expr;
use msi::package::{columns_table, load_tables, tables_table, Database, PackageType};
use msi::query::{Delete, Insert, Select, Update};
use msi::value::Value;

/// A package held in memory: the database and the contents of its streams.
struct Store {
    db: Database,
    summary: Vec<u8>,
    pool: Vec<u8>,
    data: Vec<u8>,
    tables: Vec<(String, Vec<u8>)>,
}

impl Store {
    fn create(package_type: PackageType) -> Store {
        let db = Database::create(package_type);
        let mut store = Store { db, summary: Vec::new(), pool: Vec::new(), data: Vec::new(), tables: Vec::new() };
        store.flush();
        store
    }

    fn flush(&mut self) {
        let writes = self.db.flush().expect("flush");
        if let Some(bytes) = writes.summary_info {
            self.summary = bytes;
        }
        if let Some(bytes) = writes.string_pool {
            self.pool = bytes;
        }
        if let Some(bytes) = writes.string_data {
            self.data = bytes;
        }
    }

    fn put(&mut self, table_name: &str, bytes: Vec<u8>) {
        match self.tables.iter_mut().find(|(name, _)| name == table_name) {
            Some(entry) => entry.1 = bytes,
            None => self.tables.push((table_name.to_string(), bytes)),
        }
    }

    fn stream(&self, table_name: &str) -> Option<&[u8]> {
        self.tables.iter().find(|(name, _)| name == table_name).map(|(_, bytes)| bytes.as_slice())
    }

    fn reopen(mut self) -> Store {
        self.flush();
        let clsid = self.db.package_type().clsid();
        let db = Database::open(
            &clsid,
            Some(&self.summary),
            Some(&self.pool),
            Some(&self.data),
            self.stream("_Tables"),
            self.stream("_Columns"),
        )
        .expect("open");
        Store { db, ..self }
    }

    fn create_table(&mut self, name: &str, columns: Vec<Column>) -> Result<(), Error> {
        let (column_bytes, table_bytes) = self.db.create_table(name.to_string(), columns, &self.tables)?;
        self.put("_Columns", column_bytes);
        self.put("_Tables", table_bytes);
        Ok(())
    }

    fn insert_rows(&mut self, query: Insert) -> Result<(), Error> {
        let name = query.table_name().to_string();
        let bytes = self.db.insert_rows(query, &self.tables)?;
        self.put(&name, bytes);
        Ok(())
    }

    fn delete_rows(&mut self, query: Delete) -> Result<(), Error> {
        let name = query.table_name().to_string();
        let bytes = self.db.delete_rows(query, &self.tables)?;
        self.put(&name, bytes);
        Ok(())
    }

    fn update_rows(&mut self, query: Update) -> Result<(), Error> {
        let name = query.table_name().to_string();
        let bytes = self.db.update_rows(query, &self.tables)?;
        self.put(&name, bytes);
        Ok(())
    }

    fn select(&self, query: Select) -> Result<Vec<Vec<Value>>, Error> {
        let mut rows = self.db.select_rows(query, &self.tables)?;
        let mut values = Vec::new();
        while let Some(row) = rows.next_row() {
            values.push((0..row.len()).map(|i| row.get(i).clone()).collect());
        }
        Ok(values)
    }
}

fn numbers_columns() -> Vec<Column> {
    vec![Column::build("Number").primary_key().int16(), Column::build("Word").nullable().string(50)]
}

fn mapping_store() -> Store {
    let mut store = Store::create(PackageType::Installer);
    let columns =
        vec![Column::build("Key").primary_key().int16(), Column::build("Value").nullable().int32()];
    store.create_table("Mapping", columns).expect("create_table");
    store
        .insert_rows(
            Insert::into("Mapping")
                .row(vec![Value::Int(1), Value::Int(17)])
                .row(vec![Value::Int(2), Value::Int(42)])
                .row(vec![Value::Int(3), Value::Int(17)]),
        )
        .expect("insert_rows");
    store
}

fn int_pairs(rows: Vec<Vec<Value>>) -> Vec<(i32, i32)> {
    rows.iter().map(|row| (row[0].as_int().unwrap(), row[1].as_int().unwrap())).collect()
}

#[test]
fn set_summary_information() {
    let mut store = Store::create(PackageType::Installer);
    store.db.summary_info_mut().set_author("Jane Doe");
    let store = store.reopen();
    assert_eq!(store.db.package_type(), PackageType::Installer);
    assert_eq!(store.db.summary_info().author(), Some("Jane Doe"));
    assert_eq!(store.db.summary_info().title(), Some("Installation Database"));
}

#[test]
fn create_table() {
    let mut store = Store::create(PackageType::Installer);
    store.create_table("Numbers", numbers_columns()).expect("create_table");
    assert!(store.db.has_table("Numbers"));

    let store = store.reopen();
    assert!(store.db.has_table("Numbers"));
    let table = store.db.get_table("Numbers").unwrap();
    assert_eq!(table.name(), "Numbers");

    assert!(table.has_column("Number"));
    let column = table.get_column("Number").unwrap();
    assert_eq!(column.name(), "Number");
    assert_eq!(column.coltype(), ColumnType::Int16);
    assert!(column.is_primary_key());
    assert!(!column.is_nullable());

    assert!(table.has_column("Word"));
    let column = table.get_column("Word").unwrap();
    assert_eq!(column.name(), "Word");
    assert_eq!(column.coltype(), ColumnType::Str(50));
    assert!(!column.is_primary_key());
    assert!(column.is_nullable());
}

#[test]
fn insert_rows() {
    let mut store = Store::create(PackageType::Installer);
    store.create_table("Numbers", numbers_columns()).expect("create_table");
    store
        .insert_rows(
            Insert::into("Numbers")
                .row(vec![Value::Int(2), Value::Str("Two".to_string())])
                .row(vec![Value::Int(4), Value::Str("Four".to_string())])
                .row(vec![Value::Int(1), Value::Str("One".to_string())]),
        )
        .expect("insert_rows");
    assert_eq!(store.select(Select::table("Numbers")).expect("select").len(), 3);

    let store = store.reopen();
    let rows = store.select(Select::table("Numbers")).unwrap();
    assert_eq!(rows.len(), 3);
    let values: Vec<(i32, String)> =
        rows.iter().map(|row| (row[0].as_int().unwrap(), row[1].as_str().unwrap().to_string())).collect();
    assert_eq!(values, vec![(1, "One".to_string()), (2, "Two".to_string()), (4, "Four".to_string())]);
}

#[test]
fn delete_rows() {
    let mut store = mapping_store();
    store.delete_rows(Delete::from("Mapping").with(Expr::col("Value").eq(Expr::integer(17)))).unwrap();
    let store = store.reopen();
    let rows = store.select(Select::table("Mapping")).unwrap();
    assert_eq!(int_pairs(rows), vec![(2, 42)]);
}

#[test]
fn update_rows() {
    let mut store = mapping_store();
    store
        .update_rows(
            Update::table("Mapping").set("Value", Value::Int(-5)).with(Expr::col("Value").eq(Expr::integer(17))),
        )
        .unwrap();
    let store = store.reopen();
    let rows = store.select(Select::table("Mapping")).unwrap();
    assert_eq!(int_pairs(rows), vec![(1, -5), (2, 42), (3, -5)]);
}

#[test]
fn package_select_rows() {
    let mut store = Store::create(PackageType::Installer);
    let columns = vec![
        Column::build("Foo").primary_key().int16(),
        Column::build("Bar").string(16),
        Column::build("Baz").nullable().int32(),
    ];
    store.create_table("Quux", columns).expect("create_table");
    store
        .insert_rows(
            Insert::into("Quux")
                .row(vec![Value::Int(1), Value::Str("spam".to_string()), Value::Int(0)])
                .row(vec![Value::Int(2), Value::Str("eggs".to_string()), Value::Null])
                .row(vec![Value::Int(3), Value::Str("bacon".to_string()), Value::Int(0)])
                .row(vec![Value::Int(4), Value::Str("spam".to_string()), Value::Int(17)]),
        )
        .expect("insert_rows");
    let rows = store
        .select(Select::table("Quux").columns(&["Bar", "Foo"]).with(Expr::col("Baz").eq(Expr::integer(0))))
        .expect("select_rows");
    let values: Vec<(String, i32)> =
        rows.iter().map(|row| (row[0].as_str().unwrap().to_string(), row[1].as_int().unwrap())).collect();
    assert_eq!(values, vec![("spam".to_string(), 1), ("bacon".to_string(), 3)]);
}

#[test]
fn package_join_tables() {
    let mut store = Store::create(PackageType::Installer);
    let columns = vec![Column::build("Foo").primary_key().int16(), Column::build("Bar").int16()];
    store.create_table("Foobar", columns).unwrap();
    store
        .insert_rows(
            Insert::into("Foobar")
                .row(vec![Value::Int(1), Value::Int(17)])
                .row(vec![Value::Int(2), Value::Int(42)])
                .row(vec![Value::Int(3), Value::Int(17)]),
        )
        .unwrap();
    let columns = vec![Column::build("Baz").primary_key().int16(), Column::build("Foo").int16()];
    store.create_table("Bazfoo", columns).unwrap();
    store
        .insert_rows(
            Insert::into("Bazfoo")
                .row(vec![Value::Int(4), Value::Int(42)])
                .row(vec![Value::Int(5), Value::Int(13)])
                .row(vec![Value::Int(6), Value::Int(17)]),
        )
        .unwrap();
    let rows = store
        .select(
            Select::table("Foobar")
                .inner_join(Select::table("Bazfoo"), Expr::col("Foobar.Bar").eq(Expr::col("Bazfoo.Foo")))
                .columns(&["Foobar.Foo", "Bazfoo.Baz"]),
        )
        .expect("select_rows");
    assert_eq!(int_pairs(rows), vec![(1, 6), (2, 4), (3, 6)]);
}

#[test]
fn create_table_with_no_columns() {
    let mut store = Store::create(PackageType::Installer);
    let error = store.create_table("FooBar", vec![]).unwrap_err();
    assert_eq!(error.kind(), ErrorKind::InvalidInput);
    assert_eq!(error.to_string(), "Cannot create a table with no columns");
    assert!(!store.db.has_table("FooBar"));
}

#[test]
fn create_table_with_no_primary_key() {
    let mut store = Store::create(PackageType::Installer);
    let error = store.create_table("FooBar", vec![Column::build("Foo").int16()]).unwrap_err();
    assert_eq!(error.kind(), ErrorKind::InvalidInput);
    assert_eq!(error.to_string(), "Cannot create a table without at least one primary key column");
    assert!(!store.db.has_table("FooBar"));
}

#[test]
fn create_duplicate_table() {
    let mut store = Store::create(PackageType::Installer);
    store.create_table("FooBar", vec![Column::build("Foo").primary_key().int16()]).unwrap();
    let error = store.create_table("FooBar", vec![Column::build("Bar").primary_key().int16()]).unwrap_err();
    assert_eq!(error.kind(), ErrorKind::AlreadyExists);
    assert_eq!(error.to_string(), "Table \"FooBar\" already exists");
    assert!(store.db.has_table("FooBar"));
}

#[test]
fn create_table_with_duplicate_column_names() {
    let mut store = Store::create(PackageType::Installer);
    let columns = vec![
        Column::build("Foo").primary_key().int32(),
        Column::build("Bar").int16(),
        Column::build("Foo").string(6),
    ];
    let error = store.create_table("FooBar", columns).unwrap_err();
    assert_eq!(error.kind(), ErrorKind::InvalidInput);
    assert_eq!(error.to_string(), "Cannot create a table with multiple columns with the same name (\"Foo\")");
    assert!(!store.db.has_table("FooBar"));
}

#[test]
fn create_table_with_overlong_name() {
    let mut store = Store::create(PackageType::Installer);
    let name = "T".repeat(65);
    let error = store.create_table(&name, numbers_columns()).unwrap_err();
    assert_eq!(error.kind(), ErrorKind::InvalidInput);
    assert!(!store.db.has_table(&name));
}

#[test]
fn new_database_tables() {
    let store = Store::create(PackageType::Patch);
    assert_eq!(store.db.package_type(), PackageType::Patch);
    assert_eq!(store.db.summary_info().title(), Some("Patch"));
    let mut tables = store.db.tables();
    assert_eq!(tables.remaining(), 2);
    assert_eq!(tables.next_table().unwrap().name(), "_Tables");
    assert_eq!(tables.next_table().unwrap().name(), "_Columns");
    assert!(tables.next_table().is_none());
}

#[test]
fn flush_without_changes_writes_nothing() {
    let mut store = Store::create(PackageType::Installer);
    let writes = store.db.flush().unwrap();
    assert!(writes.summary_info.is_none());
    assert!(writes.string_pool.is_none());
    assert!(writes.string_data.is_none());
}

#[test]
fn package_types_and_clsids() {
    for package_type in [PackageType::Installer, PackageType::Patch, PackageType::Transform] {
        assert_eq!(PackageType::from_clsid(&package_type.clsid()), Some(package_type));
    }
    assert_eq!(PackageType::from_clsid(&[0; 16]), None);
    assert_eq!(
        PackageType::Installer.clsid(),
        [0x00, 0x0c, 0x10, 0x84, 0, 0, 0, 0, 0xc0, 0, 0, 0, 0, 0, 0, 0x46]
    );
    assert_eq!(PackageType::Transform.default_title(), "Transform");
}

#[test]
fn open_with_unknown_clsid() {
    let store = Store::create(PackageType::Installer);
    let result =
        Database::open(&[0; 16], Some(&store.summary), Some(&store.pool), Some(&store.data), None, None);
    assert_eq!(result.err().unwrap().kind(), ErrorKind::InvalidData);
}

#[test]
fn open_without_summary_information() {
    let store = Store::create(PackageType::Installer);
    let clsid = PackageType::Installer.clsid();
    let result = Database::open(&clsid, None, Some(&store.pool), Some(&store.data), None, None);
    assert_eq!(result.err().unwrap().kind(), ErrorKind::NotFound);
    let result = Database::open(&clsid, Some(&store.summary), None, None, None, None);
    assert_eq!(result.err().unwrap().kind(), ErrorKind::NotFound);
}

#[test]
fn load_tables_rejects_unlisted_table() {
    let mut store = Store::create(PackageType::Installer);
    store.create_table("Numbers", numbers_columns()).unwrap();
    store.flush();
    let lsr = store.db.tables().next_table().unwrap().long_string_refs();
    assert_eq!(tables_table(lsr).name(), "_Tables");
    assert_eq!(columns_table(lsr).columns().len(), 4);
    // _Columns names a table that no _Tables stream lists.
    let pool_bytes = store.pool.clone();
    let data_bytes = store.data.clone();
    let pool = msi::stringpool::StringPoolBuilder::read_from_pool(&pool_bytes)
        .unwrap()
        .build_from_data(&data_bytes)
        .unwrap();
    let result = load_tables(&pool, None, store.stream("_Columns"));
    assert_eq!(result.err().unwrap().kind(), ErrorKind::InvalidData);
    let tables = load_tables(&pool, store.stream("_Tables"), store.stream("_Columns")).unwrap();
    assert_eq!(tables.len(), 3);
    assert_eq!(tables[2].name(), "Numbers");
    assert_eq!(tables[2].columns().len(), 2);
}

#[test]
fn load_tables_rejects_missing_columns() {
    let mut store = Store::create(PackageType::Installer);
    store.create_table("Numbers", numbers_columns()).unwrap();
    store.flush();
    let pool = msi::stringpool::StringPoolBuilder::read_from_pool(&store.pool)
        .unwrap()
        .build_from_data(&store.data)
        .unwrap();
    let result = load_tables(&pool, store.stream("_Tables"), None);
    assert_eq!(result.err().unwrap().kind(), ErrorKind::InvalidData);
}

#[test]
fn create_table_with_invalid_name() {
    let mut store = Store::create(PackageType::Installer);
    let columns = vec![Column::build("Foo").primary_key().int32()];
    let error = store.create_table("Foo & Bar", columns).unwrap_err();
    assert_eq!(error.kind(), ErrorKind::InvalidInput);
    assert_eq!(error.to_string(), "\"Foo & Bar\" is not a valid table name");
    assert!(!store.db.has_table("Foo & Bar"));
}

#[test]
fn create_table_with_invalid_column_name() {
    let mut store = Store::create(PackageType::Installer);
    let columns = vec![Column::build("Foo & Bar").primary_key().int32()];
    let error = store.create_table("FooBar", columns).unwrap_err();
    assert_eq!(error.kind(), ErrorKind::InvalidInput);
    assert_eq!(error.to_string(), "\"Foo & Bar\" is not a valid column name");
    assert!(!store.db.has_table("FooBar"));
}

#[test]
fn query_error_messages() {
    let mut store = mapping_store();
    let error = store.insert_rows(Insert::into("Mapping").row(vec![Value::Int(4)])).unwrap_err();
    assert_eq!(error.kind(), ErrorKind::InvalidInput);
    assert_eq!(error.to_string(), "Table \"Mapping\" has 2 columns, but a row with 1 values was provided");
    let error =
        store.insert_rows(Insert::into("Mapping").row(vec![Value::Str("x".to_string()), Value::Int(1)])).unwrap_err();
    assert_eq!(error.to_string(), "\"x\" is not a valid value for column \"Key\"");
    let error = store.update_rows(Update::table("Mapping").set("Missing", Value::Int(1))).unwrap_err();
    assert_eq!(error.to_string(), "Table \"Mapping\" has no column named \"Missing\"");
    let error =
        store.delete_rows(Delete::from("Mapping").with(Expr::col("Missing").eq(Expr::integer(1)))).unwrap_err();
    assert_eq!(error.to_string(), "Table \"Mapping\" has no column named \"Missing\"");
    let error = store.delete_rows(Delete::from("Nowhere")).unwrap_err();
    assert_eq!(error.kind(), ErrorKind::NotFound);
    assert_eq!(error.to_string(), "Table \"Nowhere\" does not exist");
    let error = store.select(Select::table("Mapping").columns(&["Missing"])).unwrap_err();
    assert_eq!(error.to_string(), "Table \"Mapping\" has no column named \"Missing\"");
}

#[test]
fn key_conflict_messages() {
    let mut store = mapping_store();
    let error = store.insert_rows(Insert::into("Mapping").row(vec![Value::Int(2), Value::Int(0)])).unwrap_err();
    assert_eq!(error.kind(), ErrorKind::AlreadyExists);
    assert_eq!(error.to_string(), "Table \"Mapping\" already contains a row with key [Int(2)]");
    let error = store
        .insert_rows(
            Insert::into("Mapping").row(vec![Value::Int(5), Value::Int(0)]).row(vec![Value::Int(5), Value::Int(1)]),
        )
        .unwrap_err();
    assert_eq!(error.kind(), ErrorKind::InvalidInput);
    assert_eq!(error.to_string(), "Cannot insert multiple rows with key [Int(5)]");
}
