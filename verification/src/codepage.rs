//! Windows code pages: the character encodings used for the strings of a
//! package.

use crate::text::{chars_of, char_from_scalar, nat_text, string_from_chars};
use vstd::prelude::*;

verus! {

/// A Windows code page.
///
/// Code pages are a legacy Windows mechanism for representing character
/// encodings, but are still used within the MSI file format.
#[derive(Clone, Copy, Debug, Default, Eq, Hash, PartialEq, Structural)]
pub enum CodePage {
    /// Windows-932 (Japanese Shift JIS)
    Windows932,
    /// Windows-936 (Chinese (simplified) GBK)
    Windows936,
    /// Windows-949 (Korean Unified Hangul Code)
    Windows949,
    /// Windows-950 (Chinese (traditional) Big5)
    Windows950,
    /// Windows-951 (Chinese (traditional) Big5-HKSCS)
    Windows951,
    /// Windows-1250 (Latin 2)
    Windows1250,
    /// Windows-1251 (Cyrillic)
    Windows1251,
    /// Windows-1252 (Latin 1)
    Windows1252,
    /// Windows-1253 (Greek)
    Windows1253,
    /// Windows-1254 (Turkish)
    Windows1254,
    /// Windows-1255 (Hebrew)
    Windows1255,
    /// Windows-1256 (Arabic)
    Windows1256,
    /// Windows-1257 (Baltic)
    Windows1257,
    /// Windows-1258 (Vietnamese)
    Windows1258,
    /// Mac OS Roman
    MacintoshRoman,
    /// Macintosh Cyrillic
    MacintoshCyrillic,
    /// US-ASCII
    UsAscii,
    /// ISO-8859-1 (Latin 1)
    Iso88591,
    /// ISO-8859-2 (Latin 2)
    Iso88592,
    /// ISO-8859-3 (South European)
    Iso88593,
    /// ISO-8859-4 (North European)
    Iso88594,
    /// ISO-8859-5 (Cyrillic)
    Iso88595,
    /// ISO-8859-6 (Arabic)
    Iso88596,
    /// ISO-8859-7 (Greek)
    Iso88597,
    /// ISO-8859-8 (Hebrew)
    Iso88598,
    /// UTF-8
    #[default]
    Utf8,
}

/// The ID number used within Windows for a code page.
pub open spec fn codepage_id(c: CodePage) -> i32 {
    match c {
        CodePage::Windows932 => 932,
        CodePage::Windows936 => 936,
        CodePage::Windows949 => 949,
        CodePage::Windows950 => 950,
        CodePage::Windows951 => 951,
        CodePage::Windows1250 => 1250,
        CodePage::Windows1251 => 1251,
        CodePage::Windows1252 => 1252,
        CodePage::Windows1253 => 1253,
        CodePage::Windows1254 => 1254,
        CodePage::Windows1255 => 1255,
        CodePage::Windows1256 => 1256,
        CodePage::Windows1257 => 1257,
        CodePage::Windows1258 => 1258,
        CodePage::MacintoshRoman => 10000,
        CodePage::MacintoshCyrillic => 10007,
        CodePage::UsAscii => 20127,
        CodePage::Iso88591 => 28591,
        CodePage::Iso88592 => 28592,
        CodePage::Iso88593 => 28593,
        CodePage::Iso88594 => 28594,
        CodePage::Iso88595 => 28595,
        CodePage::Iso88596 => 28596,
        CodePage::Iso88597 => 28597,
        CodePage::Iso88598 => 28598,
        CodePage::Utf8 => 65001,
    }
}

/// The code page with an ID number: the number of one of the code pages,
/// or zero, which stands for the default (UTF-8).
pub open spec fn codepage_from_id(id: i32) -> Option<CodePage> {
    if id == 0 {
        Some(CodePage::Utf8)
    } else if exists|c: CodePage| codepage_id(c) == id {
        Some(choose|c: CodePage| codepage_id(c) == id)
    } else {
        None
    }
}

/// The label under which `encoding_rs` knows the encoding of a code page
/// (US-ASCII is handled by this library itself).
pub open spec fn codepage_label(c: CodePage) -> Seq<char> {
    match c {
        CodePage::Windows932 => "shift_jis"@,
        CodePage::Windows936 => "gbk"@,
        CodePage::Windows949 => "euc-kr"@,
        CodePage::Windows950 => "big5"@,
        CodePage::Windows951 => "big5"@,
        CodePage::Windows1250 => "windows-1250"@,
        CodePage::Windows1251 => "windows-1251"@,
        CodePage::Windows1252 => "windows-1252"@,
        CodePage::Windows1253 => "windows-1253"@,
        CodePage::Windows1254 => "windows-1254"@,
        CodePage::Windows1255 => "windows-1255"@,
        CodePage::Windows1256 => "windows-1256"@,
        CodePage::Windows1257 => "windows-1257"@,
        CodePage::Windows1258 => "windows-1258"@,
        CodePage::MacintoshRoman => "macintosh"@,
        CodePage::MacintoshCyrillic => "x-mac-cyrillic"@,
        CodePage::UsAscii => "us-ascii"@,
        CodePage::Iso88591 => "windows-1252"@,
        CodePage::Iso88592 => "iso-8859-2"@,
        CodePage::Iso88593 => "iso-8859-3"@,
        CodePage::Iso88594 => "iso-8859-4"@,
        CodePage::Iso88595 => "iso-8859-5"@,
        CodePage::Iso88596 => "iso-8859-6"@,
        CodePage::Iso88597 => "iso-8859-7"@,
        CodePage::Iso88598 => "iso-8859-8"@,
        CodePage::Utf8 => "utf-8"@,
    }
}

/// Whether a label is the label of one of the code pages that
/// `encoding_rs` handles for this library.
pub open spec fn is_encoding_label(label: Seq<char>) -> bool {
    exists|c: CodePage| c != CodePage::UsAscii && codepage_label(c) == label
}

/// What `encoding_rs` decodes bytes to with the encoding of a label
/// (`Encoding::decode`, which replaces malformed sequences with U+FFFD and
/// follows a byte order mark).
pub uninterp spec fn label_decoding(label: Seq<char>, bytes: Seq<u8>) -> Seq<char>;

/// The bytes that `encoding_rs` encodes one character to with the encoding
/// of a label, or `None` if the encoding cannot represent it.
pub uninterp spec fn label_char_encoding(label: Seq<char>, c: char) -> Option<Seq<u8>>;

/// Decodes bytes with `encoding_rs::Encoding::for_label(label)` and
/// `Encoding::decode`.  The contract claims only that the text depends on the
/// label and the bytes alone; `for_label` finds every label of
/// `codepage_label`.
#[verifier::external_body]
fn decode_with_label(label: &str, bytes: &[u8]) -> (r: String)
    requires
        is_encoding_label(label@),
    ensures
        r@ == label_decoding(label@, bytes@),
{
    encoding_rs::Encoding::for_label(label.as_bytes()).unwrap().decode(bytes).0.into_owned()
}

/// Encodes one character with a new encoder of
/// `encoding_rs::Encoding::for_label(label)`, by
/// `Encoder::encode_from_utf8_without_replacement`; `None` when the result is
/// not `InputEmpty` (the character is unmappable).  The contract claims only
/// that the result depends on the label and the character alone.
#[verifier::external_body]
fn encode_char_with_label(label: &str, c: char) -> (r: Option<Vec<u8>>)
    requires
        is_encoding_label(label@),
    ensures
        r is Some <==> label_char_encoding(label@, c) is Some,
        r matches Some(b) ==> label_char_encoding(label@, c) == Some(b@),
{
    let mut encoder = encoding_rs::Encoding::for_label(label.as_bytes()).unwrap().new_encoder();
    let mut src = [0u8; 4];
    let mut dst = [0u8; 16];
    match encoder.encode_from_utf8_without_replacement(c.encode_utf8(&mut src), &mut dst, true) {
        (encoding_rs::EncoderResult::InputEmpty, _, written) => Some(dst[..written].to_vec()),
        _ => None,
    }
}

/// US-ASCII decoding: ASCII bytes are kept, other bytes become U+FFFD.
pub open spec fn ascii_decoding(bytes: Seq<u8>) -> Seq<char> {
    Seq::new(
        bytes.len(),
        |i: int|
            if bytes[i] < 128 {
                (bytes[i] as u32) as char
            } else {
                '\u{FFFD}'
            },
    )
}

/// US-ASCII encoding: ASCII characters are kept, other characters become
/// `?`.
pub open spec fn ascii_encoding(s: Seq<char>) -> Seq<u8> {
    Seq::new(
        s.len(),
        |i: int|
            if (s[i] as u32) < 128 {
                s[i] as u8
            } else {
                63u8
            },
    )
}

/// Encoding with a label's encoding, character by character, with `?` for
/// the characters it cannot represent.
pub open spec fn label_encoding(label: Seq<char>, s: Seq<char>) -> Seq<u8>
    decreases s.len(),
{
    if s.len() == 0 {
        Seq::empty()
    } else {
        label_encoding(label, s.drop_last()) + match label_char_encoding(label, s.last()) {
            Some(b) => b,
            None => seq![63u8],
        }
    }
}

/// The text that bytes decode to in a code page.
pub open spec fn spec_decode(c: CodePage, bytes: Seq<u8>) -> Seq<char> {
    if c == CodePage::UsAscii {
        ascii_decoding(bytes)
    } else {
        label_decoding(codepage_label(c), bytes)
    }
}

/// The bytes that text encodes to in a code page.
pub open spec fn spec_encode(c: CodePage, s: Seq<char>) -> Seq<u8> {
    if c == CodePage::UsAscii {
        ascii_encoding(s)
    } else {
        label_encoding(codepage_label(c), s)
    }
}

/// Encodes a string as US-ASCII.
fn ascii_encode(string: &str) -> (r: Vec<u8>)
    ensures
        r@ == ascii_encoding(string@),
{
    let chars = chars_of(string);
    let mut bytes: Vec<u8> = Vec::new();
    let mut i: usize = 0;
    while i < chars.len()
        invariant
            i <= chars.len(),
            chars@ == string@,
            bytes@ == ascii_encoding(string@.take(i as int)),
        decreases chars.len() - i,
    {
        let ch = chars[i];
        if (ch as u32) < 128 {
            bytes.push(ch as u8);
        } else {
            bytes.push(63u8);
        }
        proof {
            assert(bytes@ =~= ascii_encoding(string@.take(i + 1)));
        }
        i = i + 1;
    }
    proof {
        assert(string@.take(string@.len() as int) =~= string@);
    }
    bytes
}

/// Decodes bytes as US-ASCII.
fn ascii_decode(bytes: &[u8]) -> (r: String)
    ensures
        r@ == ascii_decoding(bytes@),
{
    let mut chars: Vec<char> = Vec::new();
    let mut i: usize = 0;
    while i < bytes.len()
        invariant
            i <= bytes.len(),
            chars@ == ascii_decoding(bytes@.take(i as int)),
        decreases bytes.len() - i,
    {
        let b = bytes[i];
        if b < 128 {
            chars.push(char_from_scalar(b as u32));
        } else {
            chars.push('\u{FFFD}');
        }
        proof {
            assert(chars@ =~= ascii_decoding(bytes@.take(i + 1)));
        }
        i = i + 1;
    }
    proof {
        assert(bytes@.take(bytes@.len() as int) =~= bytes@);
    }
    string_from_chars(chars.as_slice())
}

impl CodePage {
    /// Returns the code page (if any) with the given ID number.
    pub fn from_id(id: i32) -> (r: Option<CodePage>)
        ensures
            r == codepage_from_id(id),
    {
        let r = match id {
            0 => Some(CodePage::Utf8),
            932 => Some(CodePage::Windows932),
            936 => Some(CodePage::Windows936),
            949 => Some(CodePage::Windows949),
            950 => Some(CodePage::Windows950),
            951 => Some(CodePage::Windows951),
            1250 => Some(CodePage::Windows1250),
            1251 => Some(CodePage::Windows1251),
            1252 => Some(CodePage::Windows1252),
            1253 => Some(CodePage::Windows1253),
            1254 => Some(CodePage::Windows1254),
            1255 => Some(CodePage::Windows1255),
            1256 => Some(CodePage::Windows1256),
            1257 => Some(CodePage::Windows1257),
            1258 => Some(CodePage::Windows1258),
            10000 => Some(CodePage::MacintoshRoman),
            10007 => Some(CodePage::MacintoshCyrillic),
            20127 => Some(CodePage::UsAscii),
            28591 => Some(CodePage::Iso88591),
            28592 => Some(CodePage::Iso88592),
            28593 => Some(CodePage::Iso88593),
            28594 => Some(CodePage::Iso88594),
            28595 => Some(CodePage::Iso88595),
            28596 => Some(CodePage::Iso88596),
            28597 => Some(CodePage::Iso88597),
            28598 => Some(CodePage::Iso88598),
            65001 => Some(CodePage::Utf8),
            _ => None,
        };
        proof {
            lemma_codepage_id_injective();
            match r {
                Some(c) => {
                    if id != 0 {
                        assert(codepage_id(c) == id);
                    }
                },
                None => {
                    assert forall|c: CodePage| codepage_id(c) != id by {
                        match c {
                            _ => {},
                        }
                    }
                },
            }
        }
        r
    }

    /// Returns the ID number used within Windows to represent this code page.
    pub fn id(&self) -> (r: i32)
        ensures
            r == codepage_id(*self),
    {
        match *self {
            CodePage::Windows932 => 932,
            CodePage::Windows936 => 936,
            CodePage::Windows949 => 949,
            CodePage::Windows950 => 950,
            CodePage::Windows951 => 951,
            CodePage::Windows1250 => 1250,
            CodePage::Windows1251 => 1251,
            CodePage::Windows1252 => 1252,
            CodePage::Windows1253 => 1253,
            CodePage::Windows1254 => 1254,
            CodePage::Windows1255 => 1255,
            CodePage::Windows1256 => 1256,
            CodePage::Windows1257 => 1257,
            CodePage::Windows1258 => 1258,
            CodePage::MacintoshRoman => 10000,
            CodePage::MacintoshCyrillic => 10007,
            CodePage::UsAscii => 20127,
            CodePage::Iso88591 => 28591,
            CodePage::Iso88592 => 28592,
            CodePage::Iso88593 => 28593,
            CodePage::Iso88594 => 28594,
            CodePage::Iso88595 => 28595,
            CodePage::Iso88596 => 28596,
            CodePage::Iso88597 => 28597,
            CodePage::Iso88598 => 28598,
            CodePage::Utf8 => 65001,
        }
    }

    /// Returns a human-readable name for this code page.
    pub fn name(&self) -> (r: &'static str)
        ensures
            r@ == codepage_name(*self),
    {
        match *self {
            CodePage::Windows932 => "Windows Japanese Shift JIS",
            CodePage::Windows936 => "Windows Chinese (simplified) GBK",
            CodePage::Windows949 => "Windows Korean Unified Hangul Code",
            CodePage::Windows950 => "Windows Chinese (traditional) Big5",
            CodePage::Windows951 => "Windows Chinese (traditional) Big5-HKSCS",
            CodePage::Windows1250 => "Windows Latin 2",
            CodePage::Windows1251 => "Windows Cyrillic",
            CodePage::Windows1252 => "Windows Latin 1",
            CodePage::Windows1253 => "Windows Greek",
            CodePage::Windows1254 => "Windows Turkish",
            CodePage::Windows1255 => "Windows Hebrew",
            CodePage::Windows1256 => "Windows Arabic",
            CodePage::Windows1257 => "Windows Baltic",
            CodePage::Windows1258 => "Windows Vietnamese",
            CodePage::MacintoshRoman => "Mac OS Roman",
            CodePage::MacintoshCyrillic => "Macintosh Cyrillic",
            CodePage::UsAscii => "US-ASCII",
            CodePage::Iso88591 => "ISO Latin 1",
            CodePage::Iso88592 => "ISO Latin 2",
            CodePage::Iso88593 => "ISO Latin 3",
            CodePage::Iso88594 => "ISO Latin 4",
            CodePage::Iso88595 => "ISO Latin/Cyrillic",
            CodePage::Iso88596 => "ISO Latin/Arabic",
            CodePage::Iso88597 => "ISO Latin/Greek",
            CodePage::Iso88598 => "ISO Latin/Hebrew",
            CodePage::Utf8 => "UTF-8",
        }
    }

    /// Returns the label of this code page's encoding (see
    /// `codepage_label`).
    fn label(self) -> (r: &'static str)
        ensures
            r@ == codepage_label(self),
    {
        match self {
            CodePage::Windows932 => "shift_jis",
            CodePage::Windows936 => "gbk",
            CodePage::Windows949 => "euc-kr",
            CodePage::Windows950 => "big5",
            CodePage::Windows951 => "big5",
            CodePage::Windows1250 => "windows-1250",
            CodePage::Windows1251 => "windows-1251",
            CodePage::Windows1252 => "windows-1252",
            CodePage::Windows1253 => "windows-1253",
            CodePage::Windows1254 => "windows-1254",
            CodePage::Windows1255 => "windows-1255",
            CodePage::Windows1256 => "windows-1256",
            CodePage::Windows1257 => "windows-1257",
            CodePage::Windows1258 => "windows-1258",
            CodePage::MacintoshRoman => "macintosh",
            CodePage::MacintoshCyrillic => "x-mac-cyrillic",
            CodePage::UsAscii => "us-ascii",
            CodePage::Iso88591 => "windows-1252",
            CodePage::Iso88592 => "iso-8859-2",
            CodePage::Iso88593 => "iso-8859-3",
            CodePage::Iso88594 => "iso-8859-4",
            CodePage::Iso88595 => "iso-8859-5",
            CodePage::Iso88596 => "iso-8859-6",
            CodePage::Iso88597 => "iso-8859-7",
            CodePage::Iso88598 => "iso-8859-8",
            CodePage::Utf8 => "utf-8",
        }
    }

    /// Decodes a byte array into a string, using this code page.  Invalid
    /// characters will be replaced with a Unicode replacement character
    /// (U+FFFD).
    pub fn decode(&self, bytes: &[u8]) -> (r: String)
        ensures
            r@ == spec_decode(*self, bytes@),
    {
        if *self == CodePage::UsAscii {
            ascii_decode(bytes)
        } else {
            decode_with_label(self.label(), bytes)
        }
    }

    /// Encodes a string into a byte array, using this code page.  For
    /// non-Unicode code pages, any characters that cannot be represented will
    /// be replaced with `'?'`.
    pub fn encode(&self, string: &str) -> (r: Vec<u8>)
        ensures
            r@ == spec_encode(*self, string@),
    {
        if *self == CodePage::UsAscii {
            ascii_encode(string)
        } else {
            let label = self.label();
            let chars = chars_of(string);
            let mut bytes: Vec<u8> = Vec::new();
            let mut i: usize = 0;
            while i < chars.len()
                invariant
                    i <= chars.len(),
                    chars@ == string@,
                    is_encoding_label(label@),
                    bytes@ == label_encoding(label@, string@.take(i as int)),
                decreases chars.len() - i,
            {
                let ghost before = bytes@;
                match encode_char_with_label(label, chars[i]) {
                    Some(encoded) => {
                        let mut j: usize = 0;
                        while j < encoded.len()
                            invariant
                                j <= encoded.len(),
                                bytes@ == before + encoded@.take(j as int),
                            decreases encoded.len() - j,
                        {
                            bytes.push(encoded[j]);
                            proof {
                                assert(encoded@.take(j + 1) =~= encoded@.take(j as int).push(
                                    encoded@[j as int],
                                ));
                            }
                            j = j + 1;
                        }
                        proof {
                            assert(encoded@.take(encoded@.len() as int) =~= encoded@);
                        }
                    },
                    None => {
                        bytes.push(63u8);
                    },
                }
                proof {
                    assert(string@.take(i + 1).drop_last() =~= string@.take(i as int));
                    assert(string@.take(i + 1).last() == chars@[i as int]);
                }
                i = i + 1;
            }
            proof {
                assert(string@.take(string@.len() as int) =~= string@);
            }
            bytes
        }
    }
}

/// A human-readable name for a code page.
pub open spec fn codepage_name(c: CodePage) -> Seq<char> {
    match c {
        CodePage::Windows932 => "Windows Japanese Shift JIS"@,
        CodePage::Windows936 => "Windows Chinese (simplified) GBK"@,
        CodePage::Windows949 => "Windows Korean Unified Hangul Code"@,
        CodePage::Windows950 => "Windows Chinese (traditional) Big5"@,
        CodePage::Windows951 => "Windows Chinese (traditional) Big5-HKSCS"@,
        CodePage::Windows1250 => "Windows Latin 2"@,
        CodePage::Windows1251 => "Windows Cyrillic"@,
        CodePage::Windows1252 => "Windows Latin 1"@,
        CodePage::Windows1253 => "Windows Greek"@,
        CodePage::Windows1254 => "Windows Turkish"@,
        CodePage::Windows1255 => "Windows Hebrew"@,
        CodePage::Windows1256 => "Windows Arabic"@,
        CodePage::Windows1257 => "Windows Baltic"@,
        CodePage::Windows1258 => "Windows Vietnamese"@,
        CodePage::MacintoshRoman => "Mac OS Roman"@,
        CodePage::MacintoshCyrillic => "Macintosh Cyrillic"@,
        CodePage::UsAscii => "US-ASCII"@,
        CodePage::Iso88591 => "ISO Latin 1"@,
        CodePage::Iso88592 => "ISO Latin 2"@,
        CodePage::Iso88593 => "ISO Latin 3"@,
        CodePage::Iso88594 => "ISO Latin 4"@,
        CodePage::Iso88595 => "ISO Latin/Cyrillic"@,
        CodePage::Iso88596 => "ISO Latin/Arabic"@,
        CodePage::Iso88597 => "ISO Latin/Greek"@,
        CodePage::Iso88598 => "ISO Latin/Hebrew"@,
        CodePage::Utf8 => "UTF-8"@,
    }
}

/// Different code pages have different ID numbers.
proof fn lemma_codepage_id_injective()
    ensures
        forall|a: CodePage, b: CodePage| codepage_id(a) == codepage_id(b) ==> a == b,
{
}

/// Looking up the ID number of a code page gives back the code page.
pub proof fn lemma_codepage_id_round_trip(c: CodePage)
    ensures
        codepage_from_id(codepage_id(c)) == Some(c),
{
    lemma_codepage_id_injective();
    assert(codepage_id(c) != 0);
}

/// A Windows code page from 1250 to 1258 decodes and encodes with the
/// encoding labelled `windows-` and its own number.
pub proof fn lemma_windows_label(c: CodePage)
    requires
        1250 <= codepage_id(c) <= 1258,
    ensures
        codepage_label(c) == "windows-"@ + nat_text(codepage_id(c) as nat),
{
    reveal_with_fuel(nat_text, 5);
    reveal_strlit("windows-");
    reveal_strlit("windows-1250");
    reveal_strlit("windows-1251");
    reveal_strlit("windows-1252");
    reveal_strlit("windows-1253");
    reveal_strlit("windows-1254");
    reveal_strlit("windows-1255");
    reveal_strlit("windows-1256");
    reveal_strlit("windows-1257");
    reveal_strlit("windows-1258");
    assert(codepage_label(c) =~= "windows-"@ + nat_text(codepage_id(c) as nat));
}

/// An ISO 8859 code page from part 2 to part 8 (28592 to 28598) decodes
/// and encodes with the encoding labelled `iso-8859-` and its part number.
pub proof fn lemma_iso_label(c: CodePage)
    requires
        28592 <= codepage_id(c) <= 28598,
    ensures
        codepage_label(c) == "iso-8859-"@ + nat_text((codepage_id(c) - 28590) as nat),
{
    reveal_with_fuel(nat_text, 2);
    reveal_strlit("iso-8859-");
    reveal_strlit("iso-8859-2");
    reveal_strlit("iso-8859-3");
    reveal_strlit("iso-8859-4");
    reveal_strlit("iso-8859-5");
    reveal_strlit("iso-8859-6");
    reveal_strlit("iso-8859-7");
    reveal_strlit("iso-8859-8");
    assert(codepage_label(c) =~= "iso-8859-"@ + nat_text((codepage_id(c) - 28590) as nat));
}

/// The length, first and last character of a code page's label.
spec fn label_shape(c: CodePage) -> (int, char, char) {
    match c {
        CodePage::Windows932 => (9, 's', 's'),
        CodePage::Windows936 => (3, 'g', 'k'),
        CodePage::Windows949 => (6, 'e', 'r'),
        CodePage::Windows950 => (4, 'b', '5'),
        CodePage::Windows951 => (4, 'b', '5'),
        CodePage::Windows1250 => (12, 'w', '0'),
        CodePage::Windows1251 => (12, 'w', '1'),
        CodePage::Windows1252 => (12, 'w', '2'),
        CodePage::Windows1253 => (12, 'w', '3'),
        CodePage::Windows1254 => (12, 'w', '4'),
        CodePage::Windows1255 => (12, 'w', '5'),
        CodePage::Windows1256 => (12, 'w', '6'),
        CodePage::Windows1257 => (12, 'w', '7'),
        CodePage::Windows1258 => (12, 'w', '8'),
        CodePage::MacintoshRoman => (9, 'm', 'h'),
        CodePage::MacintoshCyrillic => (14, 'x', 'c'),
        CodePage::UsAscii => (8, 'u', 'i'),
        CodePage::Iso88591 => (12, 'w', '2'),
        CodePage::Iso88592 => (10, 'i', '2'),
        CodePage::Iso88593 => (10, 'i', '3'),
        CodePage::Iso88594 => (10, 'i', '4'),
        CodePage::Iso88595 => (10, 'i', '5'),
        CodePage::Iso88596 => (10, 'i', '6'),
        CodePage::Iso88597 => (10, 'i', '7'),
        CodePage::Iso88598 => (10, 'i', '8'),
        CodePage::Utf8 => (5, 'u', '8'),
    }
}

/// A code page's label has the length, first and last character that
/// `label_shape` lists.
proof fn lemma_label_shape(c: CodePage)
    ensures
        codepage_label(c).len() == label_shape(c).0,
        codepage_label(c)[0] == label_shape(c).1,
        codepage_label(c)[codepage_label(c).len() - 1] == label_shape(c).2,
{
    reveal_strlit("big5");
    reveal_strlit("euc-kr");
    reveal_strlit("gbk");
    reveal_strlit("iso-8859-2");
    reveal_strlit("iso-8859-3");
    reveal_strlit("iso-8859-4");
    reveal_strlit("iso-8859-5");
    reveal_strlit("iso-8859-6");
    reveal_strlit("iso-8859-7");
    reveal_strlit("iso-8859-8");
    reveal_strlit("macintosh");
    reveal_strlit("shift_jis");
    reveal_strlit("us-ascii");
    reveal_strlit("utf-8");
    reveal_strlit("windows-1250");
    reveal_strlit("windows-1251");
    reveal_strlit("windows-1252");
    reveal_strlit("windows-1253");
    reveal_strlit("windows-1254");
    reveal_strlit("windows-1255");
    reveal_strlit("windows-1256");
    reveal_strlit("windows-1257");
    reveal_strlit("windows-1258");
    reveal_strlit("x-mac-cyrillic");
}

/// Different code pages use different encodings, except that 950 and 951
/// are both Big5, and ISO 8859-1 (28591) is read as Windows-1252, as
/// `encoding_rs` does.
pub proof fn lemma_labels_distinct(a: CodePage, b: CodePage)
    requires
        a != b,
        codepage_label(a) == codepage_label(b),
    ensures
        ((codepage_id(a) == 950 || codepage_id(a) == 951) && (codepage_id(b) == 950 || codepage_id(b) == 951)) || (
        (codepage_id(a) == 1252 || codepage_id(a) == 28591) && (codepage_id(b) == 1252 || codepage_id(b) == 28591)),
{
    lemma_label_shape(a);
    lemma_label_shape(b);
    assert(label_shape(a) == label_shape(b));
}

} // verus!
