use msi::codepage::CodePage;
use msi::error::ErrorKind;
use msi::propset::{OperatingSystem, PropertySet, PropertyValue};
use msi::time::{filetime_from_system_time, UnixTime};
use std::time::{Duration, UNIX_EPOCH};

fn read_value(input: &[u8]) -> PropertyValue {
    PropertyValue::read(input, 0, CodePage::Utf8).unwrap().0
}

fn write_value(value: &PropertyValue) -> Vec<u8> {
    let mut output = Vec::<u8>::new();
    value.write(&mut output, CodePage::Utf8).unwrap();
    output
}

fn sat_2017_mar_18_at_18_46_36_gmt() -> PropertyValue {
    PropertyValue::FileTime(filetime_from_system_time(UnixTime::from_system_time(UNIX_EPOCH + Duration::from_secs(1489862796))))
}

#[test]
fn read_property_value() {
    assert_eq!(read_value(&[0, 0, 0, 0]), PropertyValue::Empty);
    assert_eq!(read_value(&[1, 0, 0, 0]), PropertyValue::Null);
    assert_eq!(read_value(&[2, 0, 0, 0, 0x2e, 0xfb]), PropertyValue::I2(-1234));
    assert_eq!(read_value(&[3, 0, 0, 0, 0x15, 0xcd, 0x5b, 0x07]), PropertyValue::I4(123456789));
    assert_eq!(
        read_value(b"\x1e\x00\x00\x00\x0e\x00\x00\x00Hello, world!\x00"),
        PropertyValue::LpStr("Hello, world!".to_string())
    );
    assert_eq!(read_value(&[64, 0, 0, 0, 0, 206, 112, 248, 23, 160, 210, 1]), sat_2017_mar_18_at_18_46_36_gmt());
}

#[test]
fn write_property_value() {
    assert_eq!(&write_value(&PropertyValue::Empty) as &[u8], &[0, 0, 0, 0]);
    assert_eq!(&write_value(&PropertyValue::Null) as &[u8], &[1, 0, 0, 0]);
    assert_eq!(&write_value(&PropertyValue::I2(-1234)) as &[u8], &[2, 0, 0, 0, 0x2e, 0xfb, 0, 0]);
    assert_eq!(&write_value(&PropertyValue::I4(123456789)) as &[u8], &[3, 0, 0, 0, 0x15, 0xcd, 0x5b, 0x07]);
    assert_eq!(
        &write_value(&PropertyValue::LpStr("Hello, world!".to_string())) as &[u8],
        b"\x1e\x00\x00\x00\x0e\x00\x00\x00Hello, world!\x00\x00\x00"
    );
    assert_eq!(
        &write_value(&sat_2017_mar_18_at_18_46_36_gmt()) as &[u8],
        &[64, 0, 0, 0, 0, 206, 112, 248, 23, 160, 210, 1]
    );
}

#[test]
fn property_value_round_trip() {
    let values = &[
        PropertyValue::Empty,
        PropertyValue::Null,
        PropertyValue::I1(-123),
        PropertyValue::I1(123),
        PropertyValue::I2(-12345),
        PropertyValue::I2(12345),
        PropertyValue::I4(-123456789),
        PropertyValue::I4(123456789),
        PropertyValue::LpStr("".to_string()),
        PropertyValue::LpStr("foo".to_string()),
        PropertyValue::LpStr("foobar".to_string()),
        sat_2017_mar_18_at_18_46_36_gmt(),
    ];
    let codepage = CodePage::Utf8;
    for value in values.iter() {
        let mut output = Vec::<u8>::new();
        value.write(&mut output, codepage).unwrap();
        let parsed = PropertyValue::read(&output as &[u8], 0, codepage).unwrap().0;
        assert_eq!(parsed, *value);
        let expected_size = value.size_including_padding(codepage);
        assert_eq!(output.len() as u128, expected_size);
        assert_eq!(expected_size % 4, 0);
    }
}

fn example_set_bytes() -> Vec<u8> {
    vec![
        0xfe, 0xff, // Byte order mark
        1, 0, // Format version
        10, 0, 2, 0, // OS
        0, 0, 0, 0, 0, 0, 0, 0, 0, 0, 0, 0, 0, 0, 0, 0, // CLSID
        1, 0, 0, 0, // Reserved
        1, 2, 3, 4, 5, 6, 7, 8, 1, 2, 3, 4, 5, 6, 7, 8, // FMTID
        48, 0, 0, 0, // Section offset
        48, 0, 0, 0, // Section size
        2, 0, 0, 0, // Number of properties
        4, 0, 0, 0, // 1st property name
        24, 0, 0, 0, // 1st property offset
        37, 0, 0, 0, // 2nd property name
        40, 0, 0, 0, // 2nd property offset
        30, 0, 0, 0, // 1st property type (LPSTR)
        8, 0, 0, 0, // String length (including terminating null)
        b'F', b'o', b'o', b' ', b'B', b'a', b'r', 0, // String value
        16, 0, 0, 0, // 2nd property type (I1)
        253, 0, 0, 0, // Int value (and padding)
    ]
}

#[test]
fn read_property_set() {
    let input = example_set_bytes();
    let property_set = PropertySet::read(&input).unwrap();
    assert_eq!(property_set.format_identifier(), &[1, 2, 3, 4, 5, 6, 7, 8, 1, 2, 3, 4, 5, 6, 7, 8]);
    assert_eq!(property_set.get(4), Some(&PropertyValue::LpStr("Foo Bar".to_string())));
    assert_eq!(property_set.get(37), Some(&PropertyValue::I1(-3)));
}

#[test]
fn write_property_set() {
    let fmtid: [u8; 16] = [1, 2, 3, 4, 5, 6, 7, 8, 1, 2, 3, 4, 5, 6, 7, 8];
    let mut property_set = PropertySet::new(OperatingSystem::Win32, 10, fmtid);
    property_set.set(4, PropertyValue::LpStr("Foo Bar".to_string()));
    property_set.set(37, PropertyValue::I1(-3));
    let output = property_set.write().unwrap();
    let expected = example_set_bytes();
    assert_eq!(output, expected);
}

#[test]
fn property_set_round_trip() {
    let fmtid: [u8; 16] = [9; 16];
    let mut property_set = PropertySet::new(OperatingSystem::Win32, 10, fmtid);
    property_set.set(2, PropertyValue::LpStr("Title".to_string()));
    property_set.set(15, PropertyValue::I4(7));
    property_set.remove(2);
    let output = property_set.write().unwrap();
    let parsed = PropertySet::read(&output).unwrap();
    assert_eq!(parsed.format_identifier(), &fmtid);
    assert_eq!(parsed.get(2), None);
    assert_eq!(parsed.get(15), Some(&PropertyValue::I4(7)));
}

#[test]
fn property_set_codepage() {
    let mut property_set = PropertySet::new(OperatingSystem::Win32, 10, [0; 16]);
    assert_eq!(property_set.codepage(), CodePage::Utf8);
    property_set.set_codepage(CodePage::Windows1252);
    assert_eq!(property_set.codepage(), CodePage::Windows1252);
    assert_eq!(property_set.get(1), Some(&PropertyValue::I2(1252)));
}

#[test]
fn read_truncated_property_set() {
    let input = example_set_bytes();
    assert_eq!(PropertySet::read(&input[..20]).err().unwrap().kind(), ErrorKind::UnexpectedEof);
    let mut bad = input.clone();
    bad[0] = 0;
    assert_eq!(PropertySet::read(&bad).err().unwrap().kind(), ErrorKind::InvalidData);
}

#[test]
fn read_unknown_property_type() {
    let input: &[u8] = &[99, 0, 0, 0];
    let error = PropertyValue::read(input, 0, CodePage::Utf8).err().unwrap();
    assert_eq!(error.kind(), ErrorKind::InvalidData);
}

#[test]
fn property_kinds_and_versions() {
    assert_eq!(PropertyValue::I4(1).kind_name(), "I4");
    assert_eq!(PropertyValue::LpStr(String::new()).kind_name(), "LPSTR");
    assert_eq!(PropertyValue::I1(1).minimum_version(), msi::propset::PropertyFormatVersion::V1);
}

#[test]
fn size_counts_the_encoded_string() {
    let value = PropertyValue::LpStr("éé".to_string());
    let mut output = Vec::<u8>::new();
    value.write(&mut output, CodePage::Windows1252).unwrap();
    assert_eq!(output.len(), 12);
    assert_eq!(value.size_including_padding(CodePage::Windows1252), 12);
    assert_eq!(value.size_including_padding(CodePage::Utf8), 16);
}
