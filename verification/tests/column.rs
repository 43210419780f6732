use msi::codepage::CodePage;
use msi::column::{Column, ColumnType};
use msi::stringpool::StringPool;
use msi::value::{Value, ValueRef};

#[test]
fn valid_column_name() {
    assert!(Column::is_valid_name("fooBar"));
    assert!(Column::is_valid_name("_Whatever"));
    assert!(Column::is_valid_name("Catch22"));
    assert!(Column::is_valid_name("Foo.Bar"));

    assert!(!Column::is_valid_name(""));
    assert!(!Column::is_valid_name("99Bottles"));
}

fn read(coltype: ColumnType, input: &[u8], long_string_refs: bool) -> ValueRef {
    coltype.read_value(input, 0, long_string_refs).unwrap().0
}

#[test]
fn read_column_value() {
    assert_eq!(read(ColumnType::Int16, b"\x00\x00", false), ValueRef::Null);
    assert_eq!(read(ColumnType::Int16, b"\x23\x81", false), ValueRef::Int(0x123));
    assert_eq!(read(ColumnType::Int16, b"\xff\x7f", false), ValueRef::Int(-1));
    assert_eq!(read(ColumnType::Int32, b"\x00\x00\x00\x00", false), ValueRef::Null);
    assert_eq!(read(ColumnType::Int32, b"\x67\x45\x23\x81", false), ValueRef::Int(0x1234567));
    assert_eq!(read(ColumnType::Int32, b"\xff\xff\xff\x7f", false), ValueRef::Int(-1));

    let mut string_pool = StringPool::new(CodePage::default());
    let string_ref = string_pool.incref("Hello, world!".to_string());
    assert_eq!(string_ref.number(), 1);

    assert_eq!(read(ColumnType::Str(24), b"\x00\x00", false), ValueRef::Null);
    assert_eq!(read(ColumnType::Str(24), b"\x01\x00", false), ValueRef::Str(string_ref));
    assert_eq!(read(ColumnType::Str(24), b"\x00\x00\x00", true), ValueRef::Null);
    assert_eq!(read(ColumnType::Str(24), b"\x01\x00\x00", true), ValueRef::Str(string_ref));
}

fn write(coltype: ColumnType, value_ref: ValueRef, long_string_refs: bool) -> Vec<u8> {
    let mut output = Vec::<u8>::new();
    coltype.write_value(&mut output, value_ref, long_string_refs).unwrap();
    output
}

#[test]
fn write_column_value() {
    assert_eq!(&write(ColumnType::Int16, ValueRef::Null, false) as &[u8], b"\x00\x00");
    assert_eq!(&write(ColumnType::Int16, ValueRef::Int(0x123), false) as &[u8], b"\x23\x81");
    assert_eq!(&write(ColumnType::Int16, ValueRef::Int(-1), false) as &[u8], b"\xff\x7f");
    assert_eq!(&write(ColumnType::Int32, ValueRef::Null, false) as &[u8], b"\x00\x00\x00\x00");
    assert_eq!(&write(ColumnType::Int32, ValueRef::Int(0x1234567), false) as &[u8], b"\x67\x45\x23\x81");
    assert_eq!(&write(ColumnType::Int32, ValueRef::Int(-1), false) as &[u8], b"\xff\xff\xff\x7f");

    let mut string_pool = StringPool::new(CodePage::default());
    let string_ref = string_pool.incref("Hello, world!".to_string());
    assert_eq!(string_ref.number(), 1);

    assert_eq!(&write(ColumnType::Str(9), ValueRef::Null, false) as &[u8], b"\x00\x00");
    assert_eq!(&write(ColumnType::Str(9), ValueRef::Str(string_ref), false) as &[u8], b"\x01\x00");
    assert_eq!(&write(ColumnType::Str(9), ValueRef::Null, true) as &[u8], b"\x00\x00\x00");
    assert_eq!(&write(ColumnType::Str(9), ValueRef::Str(string_ref), true) as &[u8], b"\x01\x00\x00");
}

#[test]
fn column_value_round_trip() {
    for value in [ValueRef::Null, ValueRef::Int(0), ValueRef::Int(-32767), ValueRef::Int(32767)] {
        let bytes = write(ColumnType::Int16, value, false);
        assert_eq!(read(ColumnType::Int16, &bytes, false), value);
    }
}

#[test]
fn read_column_value_too_short() {
    assert!(ColumnType::Int32.read_value(b"\x00\x00", 0, false).is_err());
    assert!(ColumnType::Str(0).read_value(b"\x00\x00", 0, true).is_err());
}

#[test]
fn valid_column_value() {
    let column = Column::build("Foo").nullable().int16();
    assert!(column.is_valid_value(&Value::Null));
    assert!(column.is_valid_value(&Value::Int(0x7fff)));
    assert!(!column.is_valid_value(&Value::Int(0x8000)));
    assert!(column.is_valid_value(&Value::Int(-0x7fff)));
    assert!(!column.is_valid_value(&Value::Int(-0x8000)));
    assert!(!column.is_valid_value(&Value::Str("1234".to_string())));

    let column = Column::build("Bar").int32();
    assert!(!column.is_valid_value(&Value::Null));
    assert!(column.is_valid_value(&Value::Int(0x7fff_ffff)));
    assert!(column.is_valid_value(&Value::Int(-0x7fff_ffff)));
    assert!(!column.is_valid_value(&Value::Int(-0x8000_0000)));
    assert!(!column.is_valid_value(&Value::Str("1234".to_string())));

    let column = Column::build("Bar").range(1, 32).int32();
    assert!(!column.is_valid_value(&Value::Int(0)));
    assert!(column.is_valid_value(&Value::Int(1)));
    assert!(column.is_valid_value(&Value::Int(7)));
    assert!(column.is_valid_value(&Value::Int(32)));
    assert!(!column.is_valid_value(&Value::Int(33)));

    let column = Column::build("Baz").string(8);
    assert!(!column.is_valid_value(&Value::Null));
    assert!(!column.is_valid_value(&Value::Int(0)));
    assert!(column.is_valid_value(&Value::Str("".to_string())));
    assert!(column.is_valid_value(&Value::Str("1234".to_string())));
    assert!(column.is_valid_value(&Value::Str("12345678".to_string())));
    assert!(!column.is_valid_value(&Value::Str("123456789".to_string())));

    let column = Column::build("Quux").string(0);
    assert!(column.is_valid_value(&Value::Str("".to_string())));
    assert!(column.is_valid_value(&Value::Str("123456789".to_string())));

    let column = Column::build("Foo").id_string(0);
    assert!(column.is_valid_value(&Value::Str("FooBar".to_string())));
    assert!(!column.is_valid_value(&Value::Str("".to_string())));
    assert!(!column.is_valid_value(&Value::Str("1234".to_string())));

    let column = Column::build("Bar").enum_values(&["Y", "N"]).string(1);
    assert!(column.is_valid_value(&Value::Str("Y".to_string())));
    assert!(column.is_valid_value(&Value::Str("N".to_string())));
    assert!(!column.is_valid_value(&Value::Str("X".to_string())));
}

#[test]
fn column_bitfield_round_trip() {
    let column = Column::build("Foo").primary_key().nullable().localizable().string(72);
    let bits = column.bitfield();
    let back = Column::build("Foo").with_bitfield(bits).unwrap();
    assert_eq!(back.coltype(), ColumnType::Str(72));
    assert!(back.is_primary_key());
    assert!(back.is_nullable());
    assert!(back.is_localizable());
    assert_eq!(ColumnType::from_bitfield(bits).unwrap(), ColumnType::Str(72));
}

#[test]
fn invalid_integer_field_size() {
    let error = ColumnType::from_bitfield(0x103).unwrap_err();
    assert_eq!(error.kind(), msi::error::ErrorKind::InvalidData);
}

#[test]
fn column_type_to_string() {
    assert_eq!(ColumnType::Int16.to_string(), "SMALLINT");
    assert_eq!(ColumnType::Int32.to_string(), "INTEGER");
    assert_eq!(ColumnType::Str(72).to_string(), "VARCHAR(72)");
}

#[test]
fn text_and_formatted_string_columns() {
    let text = Column::build("Text").text_string(32);
    assert_eq!(text.coltype(), ColumnType::Str(32));
    assert_eq!(text.category(), Some(msi::category::Category::Text));
    let formatted = Column::build("Formatted").formatted_string(64);
    assert_eq!(formatted.coltype(), ColumnType::Str(64));
    assert_eq!(formatted.category(), Some(msi::category::Category::Formatted));
}
