use msi::category::Category;

#[test]
fn category_string_round_trip() {
    for category in Category::all() {
        assert_eq!(Category::from_name(category.to_string().as_str()).unwrap(), category);
    }
}

#[test]
fn category_names_parse_back() {
    assert_eq!(Category::from_name("Identifier"), Some(Category::Identifier));
    assert_eq!(Category::from_name("Guid"), Some(Category::Guid));
    assert_eq!(Category::from_name("NoSuchCategory"), None);
}

#[test]
fn validate_identifier_and_guid() {
    assert!(Category::Identifier.validate("_Foo.Bar9"));
    assert!(!Category::Identifier.validate("9Foo"));
    assert!(!Category::Identifier.validate(""));
    assert!(Category::Guid.validate("{34AB5C53-9B30-4E14-AEF0-2C1C7BA826C0}"));
    assert!(!Category::Guid.validate("{34ab5c53-9b30-4e14-aef0-2c1c7ba826c0}"));
    assert!(!Category::Guid.validate("34AB5C53-9B30-4E14-AEF0-2C1C7BA826C0"));
}
