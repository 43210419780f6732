use msi::language::{languages, LanguageId};
use std::collections::HashSet;

#[test]
fn lang_codes_are_unique() {
    let mut codes = HashSet::new();
    for (id, _) in languages() {
        assert!(codes.insert(id), "Language table repeats lang code {id:#02x}");
    }
}

#[test]
fn lang_tags_are_unique() {
    let mut tags = HashSet::new();
    for (_, tag) in languages() {
        assert!(tags.insert(tag), "Language table repeats language tag {tag:?}");
    }
}

#[test]
fn lang_codes_are_sorted() {
    let mut prev_code: u16 = 0;
    for (id, _) in languages() {
        assert!(id >= prev_code, "LANGUAGES table is not sorted, {id:#02x} is out of place");
        prev_code = id;
    }
}

#[test]
fn language_table_size() {
    assert_eq!(languages().len(), 454);
}

#[test]
fn new_language_id() {
    assert_eq!(LanguageId::new(0x0C, 0x03).tag(), "fr-CA");
    assert_eq!(LanguageId::new(0x09, 0x01).tag(), "en-US");
}

#[test]
fn language_from_id() {
    assert_eq!(LanguageId::from_id(9).id(), 9);
    assert_eq!(LanguageId::from_id(1033).id(), 1033);
    assert_eq!(LanguageId::from_id(3084).id(), 3084);
    assert_eq!(LanguageId::from_lcid(0x0001_0409).id(), 0x0409);
}

#[test]
fn language_from_tag() {
    assert_eq!(LanguageId::from_tag("en").tag(), "en");
    assert_eq!(LanguageId::from_tag("en-US").tag(), "en-US");
    assert_eq!(LanguageId::from_tag("fr-CA").tag(), "fr-CA");
    assert_eq!(LanguageId::from_tag("en").id(), 9);
    assert_eq!(LanguageId::from_tag("en-US").id(), 1033);
    assert_eq!(LanguageId::from_tag("fr-CA").id(), 3084);
    assert_eq!(LanguageId::from_tag("no-such-tag").id(), 0);
}

#[test]
fn language_parts() {
    assert_eq!(LanguageId::from_id(1033).primary_language_id(), 9);
    assert_eq!(LanguageId::from_id(1033).sub_language_id(), 1);
}

#[test]
fn language_tags() {
    assert_eq!(LanguageId::from_id(9).tag(), "en");
    assert_eq!(LanguageId::from_id(1033).tag(), "en-US");
    assert_eq!(LanguageId::from_id(3084).tag(), "fr-CA");
    assert_eq!(LanguageId::from_id(65535).tag(), "und");
}

#[test]
fn language_conversions() {
    assert_eq!(LanguageId::default().id(), 0);
    assert_eq!(LanguageId::from(1033u16), LanguageId::from_id(1033));
    assert_eq!(u16::from(LanguageId::from_id(3084)), 3084);
    assert_eq!(LanguageId::from_id(1033).to_string(), "1033");
}
