use msi::codepage::CodePage;
use msi::error::ErrorKind;
use msi::language::LanguageId;
use msi::summary::SummaryInfo;
use msi::time::UnixTime;
use std::time::{Duration, UNIX_EPOCH};
use msi::summary::Uuid;

#[test]
fn set_properties() {
    let languages = vec![
        LanguageId::from_tag("en-CA"),
        LanguageId::from_tag("fr-CA"),
        LanguageId::from_tag("en-US"),
        LanguageId::from_tag("es-MX"),
    ];
    let timestamp = UnixTime::from_system_time(UNIX_EPOCH + Duration::from_secs(1489862796));
    let uuid = Uuid::parse_str("0000002a-000c-0005-0c03-0938362b0809").unwrap();

    let mut summary_info = SummaryInfo::new();
    summary_info.set_arch("x64");
    summary_info.set_author("Jane Doe");
    summary_info.set_comments("This app is the greatest!");
    summary_info.set_creating_application("cargo-test");
    summary_info.set_creation_time(timestamp);
    summary_info.set_languages(&languages);
    summary_info.set_subject("My Great App");
    summary_info.set_title("Installation Package");
    summary_info.set_uuid(uuid);
    summary_info.set_word_count(2);

    assert_eq!(summary_info.arch(), Some("x64".to_string()));
    assert_eq!(summary_info.author(), Some("Jane Doe"));
    assert_eq!(summary_info.comments(), Some("This app is the greatest!"));
    assert_eq!(summary_info.creating_application(), Some("cargo-test"));
    assert_eq!(summary_info.creation_time(), Some(timestamp));
    assert_eq!(summary_info.languages(), languages);
    assert_eq!(summary_info.subject(), Some("My Great App"));
    assert_eq!(summary_info.title(), Some("Installation Package"));
    assert_eq!(summary_info.uuid(), Some(uuid));
    assert_eq!(summary_info.word_count(), Some(2));

    summary_info.clear_arch();
    assert_eq!(summary_info.arch(), None);
    summary_info.clear_author();
    assert_eq!(summary_info.author(), None);
    summary_info.clear_comments();
    assert_eq!(summary_info.comments(), None);
    summary_info.clear_creating_application();
    assert_eq!(summary_info.creating_application(), None);
    summary_info.clear_creation_time();
    assert_eq!(summary_info.creation_time(), None);
    summary_info.clear_languages();
    assert_eq!(summary_info.languages(), Vec::new());
    summary_info.clear_subject();
    assert_eq!(summary_info.subject(), None);
    summary_info.clear_title();
    assert_eq!(summary_info.title(), None);
    summary_info.clear_uuid();
    assert_eq!(summary_info.uuid(), None);
    summary_info.clear_word_count();
    assert_eq!(summary_info.word_count(), None);
}

#[test]
fn template_property() {
    // Set language before setting arch:
    let mut summary_info = SummaryInfo::new();
    assert_eq!(summary_info.arch(), None);
    summary_info.set_languages(&[LanguageId::from_tag("en")]);
    assert_eq!(summary_info.arch(), None);
    assert_eq!(summary_info.languages(), vec![LanguageId::from_tag("en")]);
    summary_info.set_arch("Intel");
    assert_eq!(summary_info.arch(), Some("Intel".to_string()));
    assert_eq!(summary_info.languages(), vec![LanguageId::from_tag("en")]);

    // Set arch before setting language:
    let mut summary_info = SummaryInfo::new();
    assert_eq!(summary_info.languages(), vec![]);
    assert_eq!(summary_info.arch(), None);
    summary_info.set_arch("Intel");
    assert_eq!(summary_info.languages(), vec![]);
    assert_eq!(summary_info.arch(), Some("Intel".to_string()));
    summary_info.set_languages(&[LanguageId::from_tag("en")]);
    assert_eq!(summary_info.languages(), vec![LanguageId::from_tag("en")]);
    assert_eq!(summary_info.arch(), Some("Intel".to_string()));
}

#[test]
fn uuid_is_written_in_braces() {
    let mut summary_info = SummaryInfo::new();
    let uuid = Uuid::parse_str("34ab5c53-9b30-4e14-aef0-2c1c7ba826c0").unwrap();
    summary_info.set_uuid(uuid);
    assert_eq!(summary_info.uuid_text(), Some("34AB5C53-9B30-4E14-AEF0-2C1C7BA826C0".to_string()));
    assert_eq!(summary_info.uuid(), Some(uuid));
}

#[test]
fn summary_round_trip() {
    let mut summary_info = SummaryInfo::new();
    summary_info.set_title("Installation Database");
    summary_info.set_author("Jane Doe");
    summary_info.set_word_count(2);
    let bytes = summary_info.write().unwrap();
    let parsed = SummaryInfo::read(&bytes).unwrap();
    assert_eq!(parsed.title(), Some("Installation Database"));
    assert_eq!(parsed.author(), Some("Jane Doe"));
    assert_eq!(parsed.word_count(), Some(2));
    assert_eq!(parsed.codepage(), CodePage::Utf8);
}

#[test]
fn summary_with_wrong_format_identifier() {
    let property_set = msi::propset::PropertySet::new(msi::propset::OperatingSystem::Win32, 10, [1; 16]);
    let bytes = property_set.write().unwrap();
    assert_eq!(SummaryInfo::read(&bytes).err().unwrap().kind(), ErrorKind::InvalidData);
}

#[test]
fn summary_codepage() {
    let mut summary_info = SummaryInfo::new();
    summary_info.set_codepage(CodePage::Windows1252);
    assert_eq!(summary_info.codepage(), CodePage::Windows1252);
    summary_info.set_author("Snowman=\u{2603}");
    let bytes = summary_info.write().unwrap();
    let parsed = SummaryInfo::read(&bytes).unwrap();
    assert_eq!(parsed.author(), Some("Snowman=?"));
}

#[test]
fn creation_time_to_now() {
    let mut summary_info = SummaryInfo::new();
    summary_info.set_creation_time_to_now();
    assert!(summary_info.creation_time().is_some());
    assert!(summary_info.creation_filetime().unwrap() > 116444736000000000);
}

#[test]
fn languages_skip_unparsable_codes() {
    let mut summary_info = SummaryInfo::new();
    summary_info.set_languages(&[LanguageId::from_id(1033), LanguageId::from_id(2107)]);
    assert_eq!(summary_info.languages(), vec![LanguageId::from_id(1033), LanguageId::from_id(2107)]);
}

#[test]
fn uuid_text_forms() {
    let uuid = Uuid::parse_str("34ab5c53-9b30-4e14-aef0-2c1c7ba826c0").unwrap();
    assert_eq!(uuid.as_bytes()[0], 0x34);
    assert_eq!(uuid.as_bytes()[15], 0xc0);
    assert_eq!(Uuid::parse_str("34AB5C539B304E14AEF02C1C7BA826C0"), Some(uuid));
    assert_eq!(Uuid::parse_str("{34ab5c53-9b30-4e14-aef0-2c1c7ba826c0}"), Some(uuid));
    assert_eq!(Uuid::parse_str("URN:uuid:34ab5c53-9b30-4e14-aef0-2c1c7ba826c0"), Some(uuid));
    assert_eq!(Uuid::parse_str("34ab5c53-9b30-4e14-aef0-2c1c7ba826cg"), None);
    assert_eq!(Uuid::parse_str("{34ab5c53-9b30-4e14-aef0-2c1c7ba826c0"), None);
    assert_eq!(Uuid::parse_str("34ab5c53-9b30-4e14-aef0-2c1c7ba826c"), None);
}
