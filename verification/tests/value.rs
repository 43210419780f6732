use msi::codepage::CodePage;
use msi::stringpool::StringPool;
use msi::value::{Value, ValueRef};

#[test]
fn format_value() {
    assert_eq!(Value::Null.to_string(), "NULL".to_string());
    assert_eq!(Value::Int(42).to_string(), "42".to_string());
    assert_eq!(Value::Int(-137).to_string(), "-137".to_string());
    assert_eq!(Value::Str("Hello, world!".to_string()).to_string(), "\"Hello, world!\"".to_string());

    assert_eq!(format!("{:>6}", Value::Null.to_string()), "  NULL".to_string());
    assert_eq!(format!("[{:<4}]", Value::Int(42).to_string()), "[42  ]".to_string());
    assert_eq!(format!("foo{:~>8}", Value::Str("bar".to_string()).to_string()), "foo~~~\"bar\"".to_string());
}

#[test]
fn create_value_ref() {
    let mut string_pool = StringPool::new(CodePage::default());

    let value = Value::Null;
    let value_ref = ValueRef::create(value.clone(), &mut string_pool);
    assert_eq!(value_ref.to_value(&string_pool), value);

    let value = Value::Int(1234567);
    let value_ref = ValueRef::create(value.clone(), &mut string_pool);
    assert_eq!(value_ref.to_value(&string_pool), value);

    let value = Value::Str("Hello, world!".to_string());
    let value_ref = ValueRef::create(value.clone(), &mut string_pool);
    assert_eq!(value_ref.to_value(&string_pool), value);
}

#[test]
fn remove_value_ref() {
    let mut string_pool = StringPool::new(CodePage::default());
    let value_ref = ValueRef::create(Value::Str("Foo".to_string()), &mut string_pool);
    assert_eq!(string_pool.num_strings(), 1);
    value_ref.remove(&mut string_pool);
    assert_eq!(string_pool.refcount(msi::stringpool::StringRef::new(1)), 0);
}

#[test]
fn value_accessors() {
    assert!(Value::Null.is_null());
    assert!(Value::Int(3).is_int());
    assert_eq!(Value::Int(3).as_int(), Some(3));
    assert_eq!(Value::Null.as_int(), None);
    assert!(Value::Str("x".to_string()).is_str());
    assert_eq!(Value::Str("x".to_string()).as_str(), Some("x"));
    assert_eq!(Value::Int(3).as_str(), None);
    assert_eq!(Value::from_bool(true), Value::Int(1));
    assert_eq!(Value::from_bool(false), Value::Int(0));
    assert!(Value::Str("x".to_string()).to_bool());
    assert!(!Value::Str(String::new()).to_bool());
    assert!(!Value::Null.to_bool());
    assert_eq!(Value::string("abc"), Value::Str("abc".to_string()));
}

#[test]
fn value_order() {
    assert!(Value::Null.less_than(&Value::Int(-5)));
    assert!(Value::Int(-5).less_than(&Value::Int(3)));
    assert!(Value::Int(3).less_than(&Value::Str("a".to_string())));
    assert!(Value::Str("a".to_string()).less_than(&Value::Str("b".to_string())));
    assert!(!Value::Int(3).less_than(&Value::Int(3)));
    assert!(Value::Int(3).equals(&Value::Int(3)));
}
