use msi::codepage::CodePage;

#[test]
fn id_round_trip() {
    let codepages = &[
        CodePage::Windows932,
        CodePage::Windows936,
        CodePage::Windows949,
        CodePage::Windows950,
        CodePage::Windows951,
        CodePage::Windows1250,
        CodePage::Windows1251,
        CodePage::Windows1252,
        CodePage::Windows1253,
        CodePage::Windows1254,
        CodePage::Windows1255,
        CodePage::Windows1256,
        CodePage::Windows1257,
        CodePage::Windows1258,
        CodePage::MacintoshRoman,
        CodePage::MacintoshCyrillic,
        CodePage::Iso88591,
        CodePage::Iso88592,
        CodePage::Iso88593,
        CodePage::Iso88594,
        CodePage::Iso88595,
        CodePage::Iso88596,
        CodePage::Iso88597,
        CodePage::Iso88598,
        CodePage::Utf8,
    ];
    for &codepage in codepages {
        assert_eq!(CodePage::from_id(codepage.id()), Some(codepage));
    }
}

#[test]
fn decode_string() {
    assert_eq!(&CodePage::Windows1252.decode(b"\xbfQu\xe9 pasa?"), "¿Qué pasa?");
    assert_eq!(&CodePage::MacintoshRoman.decode(b"\xc0Qu\x8e pasa?"), "¿Qué pasa?");
    assert_eq!(&CodePage::Utf8.decode(b"\xc2\xbfQu\xc3\xa9 pasa?"), "¿Qué pasa?");
}

#[test]
fn decoding_error() {
    assert_eq!(&CodePage::Utf8.decode(b"Qu\xee pasa?"), "Qu\u{fffd} pasa?");
}

#[test]
fn encode_string() {
    assert_eq!(&CodePage::Windows1252.encode("¿Qué pasa?") as &[u8], b"\xbfQu\xe9 pasa?");
    assert_eq!(&CodePage::MacintoshRoman.encode("¿Qué pasa?") as &[u8], b"\xc0Qu\x8e pasa?");
    assert_eq!(&CodePage::Utf8.encode("¿Qué pasa?") as &[u8], b"\xc2\xbfQu\xc3\xa9 pasa?");
}

#[test]
fn encoding_error() {
    assert_eq!(&CodePage::Windows1252.encode("Snowman=\u{2603}") as &[u8], b"Snowman=?");
    assert_eq!(&CodePage::UsAscii.encode("¿Qué pasa?") as &[u8], b"?Qu? pasa?");
}

#[test]
fn unknown_codepage_id() {
    assert_eq!(CodePage::from_id(12345), None);
    assert_eq!(CodePage::from_id(0), Some(CodePage::default()));
}

#[test]
fn codepage_names() {
    assert_eq!(CodePage::Utf8.name(), "UTF-8");
    assert_eq!(CodePage::Utf8.id(), 65001);
    assert_eq!(CodePage::Windows1252.id(), 1252);
}
