use msi::streamname::{decode, encode, from_b64, is_valid, to_b64};

#[test]
fn to_from_b64() {
    for value in 0..64 {
        assert_eq!(to_b64(from_b64(value)), Some(value));
    }
}

#[test]
fn decode_stream_name() {
    assert_eq!(decode("\u{4840}\u{3b3f}\u{43f2}\u{4438}\u{45b1}"), ("_Columns".to_string(), true));
    assert_eq!(decode("\u{4840}\u{3f7f}\u{4164}\u{422f}\u{4836}"), ("_Tables".to_string(), true));
    assert_eq!(decode("\u{44ca}\u{47b3}\u{46e8}\u{4828}"), ("App.exe".to_string(), false));
}

#[test]
fn encode_stream_name() {
    assert_eq!(encode("_Columns", true), "\u{4840}\u{3b3f}\u{43f2}\u{4438}\u{45b1}");
    assert_eq!(encode("_Tables", true), "\u{4840}\u{3f7f}\u{4164}\u{422f}\u{4836}");
    assert_eq!(encode("App.exe", false), "\u{44ca}\u{47b3}\u{46e8}\u{4828}");
}

#[test]
fn is_valid_stream_name() {
    assert!(is_valid("Icon.AppIcon.ico", false));
    assert!(is_valid("_Columns", true));
    assert!(is_valid("¿Qué pasa?", false));

    assert!(!is_valid("", false));
    assert!(!is_valid("", true));
    assert!(!is_valid("\u{4840}Stream", false));
    assert!(!is_valid(
        "ThisStringIsWayTooLongToBeAStreamNameIMeanSeriouslyWhoWouldTryToUseANameThatIsThisLongItWouldBePrettySilly",
        false
    ));
}

#[test]
fn stream_name_round_trip() {
    for (name, is_table) in [("Foo", false), ("_Validation", true), ("Icon.App_Icon.ico", false), ("¿Qué?", true)] {
        assert_eq!(decode(&encode(name, is_table)), (name.to_string(), is_table));
    }
}

#[test]
fn b64_rejects_other_characters() {
    assert_eq!(to_b64('-'), None);
    assert_eq!(from_b64(63), '_');
    assert_eq!(from_b64(62), '.');
}

#[test]
fn table_marker_after_the_first_character_round_trips() {
    let name = "ab\u{4840}cd";
    assert_eq!(decode(&encode(name, false)), (name.to_string(), false));
    let table = "\u{4840}Foo";
    assert_eq!(decode(&encode(table, true)), (table.to_string(), true));
}
