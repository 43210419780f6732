//! The formats that string-typed database columns can require.

use crate::text::{
    all_digits, chars_of, digits_value, is_digit, parse_int, parsed_int, string_from_chars,
};
use vstd::prelude::*;

verus! {

/// Indicates the format of a string-typed database column.
///
/// This list of categories comes from the column data types listed in the
/// MSI docs.
#[derive(Clone, Copy, Debug, Eq, Hash, PartialEq, Structural)]
pub enum Category {
    /// An unrestricted text string.
    Text,
    /// A text string containing no lowercase letters.
    UpperCase,
    /// A text string containing no uppercase letters.
    LowerCase,
    /// A signed 16-bit integer.
    Integer,
    /// A signed 32-bit integer.
    DoubleInteger,
    /// A date and time.
    TimeDate,
    /// A string made of ASCII letters, digits, underscores and periods,
    /// starting with a letter or underscore.
    Identifier,
    /// An identifier, or `%` followed by an identifier.
    Property,
    /// The name of a file or directory.
    Filename,
    /// A filename that can contain shell glob wildcards.
    WildCardFilename,
    /// A string containing an absolute filepath.
    Path,
    /// A string containing a semicolon-separated list of absolute filepaths.
    Paths,
    /// A string containing an absolute or relative filepath.
    AnyPath,
    /// A string containing either a filename or an identifier.
    DefaultDir,
    /// A string containing a registry path.
    RegPath,
    /// A string containing special formatting escapes, such as environment
    /// variables.
    Formatted,
    /// A security descriptor definition language (SDDL) text string.
    FormattedSddlText,
    /// Like `Formatted`, but allows additional escapes.
    Template,
    /// A string represeting a boolean predicate.
    Condition,
    /// A hyphenated, uppercase GUID string, enclosed in curly braces.
    Guid,
    /// At most four period-separated numbers, each at most 65535.
    Version,
    /// A comma-separated list of decimal language ID numbers.
    Language,
    /// A string that refers to a binary data stream.
    Binary,
    /// A string that refers to a custom source.
    CustomSource,
    /// `#` followed by an identifier, or a short filename (at most eight
    /// characters, optionally a period and a three-character extension).
    Cabinet,
    /// A string that refers to a shortcut.
    Shortcut,
}

/// The value of a hexadecimal digit, either case; `None` for any other
/// character.
pub open spec fn hex_value(c: char) -> Option<int> {
    if '0' <= c <= '9' {
        Some(c as int - '0' as int)
    } else if 'a' <= c <= 'f' {
        Some(c as int - 'a' as int + 10)
    } else if 'A' <= c <= 'F' {
        Some(c as int - 'A' as int + 10)
    } else {
        None
    }
}

/// The sixteen bytes that 32 hexadecimal digits spell, two digits a byte,
/// the first of each pair the high half; `None` unless every character is
/// a digit.
pub open spec fn hex_bytes(h: Seq<char>) -> Option<Seq<u8>> {
    if h.len() == 32 && forall|i: int| 0 <= i < 32 ==> (#[trigger] hex_value(h[i])) is Some {
        Some(
            Seq::new(
                16,
                |j: int| (hex_value(h[2 * j]).unwrap() * 16 + hex_value(h[2 * j + 1]).unwrap()) as u8,
            ),
        )
    } else {
        None
    }
}

/// The bytes of a UUID written as 36 characters: 32 hexadecimal digits in
/// groups of 8, 4, 4, 4 and 12 with hyphens between them.
pub open spec fn hyphenated_bytes(s: Seq<char>) -> Option<Seq<u8>> {
    if s.len() == 36 && s[8] == '-' && s[13] == '-' && s[18] == '-' && s[23] == '-' {
        hex_bytes(
            s.subrange(0, 8) + s.subrange(9, 13) + s.subrange(14, 18) + s.subrange(19, 23) + s.subrange(
                24,
                36,
            ),
        )
    } else {
        None
    }
}

/// A character with an upper-case ASCII letter taken to lower case.
pub open spec fn ascii_lower(c: char) -> char {
    if 'A' <= c <= 'Z' {
        (c as u32 + 32) as char
    } else {
        c
    }
}

/// Whether nine characters spell `urn:uuid:`, in either case.
pub open spec fn is_urn_prefix(p: Seq<char>) -> bool {
    p.len() == 9 && forall|i: int| 0 <= i < 9 ==> ascii_lower(#[trigger] p[i]) == "urn:uuid:"@[i]
}

/// What `uuid::Uuid::parse_str` reads from a text: 32 hexadecimal digits;
/// or the hyphenated form, bare, in braces or after `urn:uuid:`; the
/// sixteen bytes they spell, or `None` for any other text.
pub open spec fn spec_parse_uuid(s: Seq<char>) -> Option<Seq<u8>> {
    if s.len() == 32 {
        hex_bytes(s)
    } else if s.len() == 36 {
        hyphenated_bytes(s)
    } else if s.len() == 38 && s[0] == '{' && s[37] == '}' {
        hyphenated_bytes(s.subrange(1, 37))
    } else if s.len() == 45 && is_urn_prefix(s.take(9)) {
        hyphenated_bytes(s.skip(9))
    } else {
        None
    }
}

/// Parses a UUID with `uuid::Uuid::parse_str`, giving its sixteen bytes.
/// The contract states the forms that the crate's parser accepts (its
/// `try_parse` and `decode_hex32`): a text with a character outside ASCII
/// fails in each of them, so the forms can be stated over characters.
#[verifier::external_body]
pub(crate) fn parse_uuid(s: &str) -> (r: Option<[u8; 16]>)
    ensures
        match spec_parse_uuid(s@) {
            Some(b) => r matches Some(a) && a@ == b,
            None => r is None,
        },
{
    match uuid::Uuid::parse_str(s) {
        Ok(u) => Some(u.into_bytes()),
        Err(_) => None,
    }
}

/// The name of a category, as stored in the `_Validation` table.
pub open spec fn category_name(c: Category) -> Seq<char> {
    match c {
        Category::AnyPath => "AnyPath"@,
        Category::Binary => "Binary"@,
        Category::Cabinet => "Cabinet"@,
        Category::Condition => "Condition"@,
        Category::CustomSource => "CustomSource"@,
        Category::DefaultDir => "DefaultDir"@,
        Category::DoubleInteger => "DoubleInteger"@,
        Category::Filename => "Filename"@,
        Category::Formatted => "Formatted"@,
        Category::FormattedSddlText => "FormattedSDDLText"@,
        Category::Guid => "GUID"@,
        Category::Identifier => "Identifier"@,
        Category::Integer => "Integer"@,
        Category::Language => "Language"@,
        Category::LowerCase => "LowerCase"@,
        Category::Path => "Path"@,
        Category::Paths => "Paths"@,
        Category::Property => "Property"@,
        Category::RegPath => "RegPath"@,
        Category::Shortcut => "Shortcut"@,
        Category::Template => "Template"@,
        Category::Text => "Text"@,
        Category::TimeDate => "TimeDate"@,
        Category::UpperCase => "UpperCase"@,
        Category::Version => "Version"@,
        Category::WildCardFilename => "WildCardFilename"@,
    }
}

/// The category a name stands for, if any (two categories also have a
/// second spelling).
pub open spec fn category_from_name(s: Seq<char>) -> Option<Category> {
    if s == "AnyPath"@ {
        Some(Category::AnyPath)
    } else if s == "Binary"@ {
        Some(Category::Binary)
    } else if s == "Cabinet"@ {
        Some(Category::Cabinet)
    } else if s == "Condition"@ {
        Some(Category::Condition)
    } else if s == "CustomSource"@ {
        Some(Category::CustomSource)
    } else if s == "DefaultDir"@ {
        Some(Category::DefaultDir)
    } else if s == "DoubleInteger"@ {
        Some(Category::DoubleInteger)
    } else if s == "Filename"@ {
        Some(Category::Filename)
    } else if s == "Formatted"@ {
        Some(Category::Formatted)
    } else if s == "FormattedSDDLText"@ {
        Some(Category::FormattedSddlText)
    } else if s == "FormattedSddlText"@ {
        Some(Category::FormattedSddlText)
    } else if s == "GUID"@ {
        Some(Category::Guid)
    } else if s == "Guid"@ {
        Some(Category::Guid)
    } else if s == "Identifier"@ {
        Some(Category::Identifier)
    } else if s == "Integer"@ {
        Some(Category::Integer)
    } else if s == "Language"@ {
        Some(Category::Language)
    } else if s == "LowerCase"@ {
        Some(Category::LowerCase)
    } else if s == "Path"@ {
        Some(Category::Path)
    } else if s == "Paths"@ {
        Some(Category::Paths)
    } else if s == "Property"@ {
        Some(Category::Property)
    } else if s == "RegPath"@ {
        Some(Category::RegPath)
    } else if s == "Shortcut"@ {
        Some(Category::Shortcut)
    } else if s == "Template"@ {
        Some(Category::Template)
    } else if s == "Text"@ {
        Some(Category::Text)
    } else if s == "TimeDate"@ {
        Some(Category::TimeDate)
    } else if s == "UpperCase"@ {
        Some(Category::UpperCase)
    } else if s == "Version"@ {
        Some(Category::Version)
    } else if s == "WildCardFilename"@ {
        Some(Category::WildCardFilename)
    } else {
        None
    }
}

/// Whether a character is an ASCII lowercase letter.
pub open spec fn is_lower(c: char) -> bool {
    97 <= c as u32 && c as u32 <= 122
}

/// Whether a character is an ASCII uppercase letter.
pub open spec fn is_upper(c: char) -> bool {
    65 <= c as u32 && c as u32 <= 90
}

/// Whether a character may appear in an identifier.
pub open spec fn is_identifier_char(c: char) -> bool {
    is_lower(c) || is_upper(c) || is_digit(c) || c == '_' || c == '.'
}

/// Whether a string is a valid identifier.
pub open spec fn is_identifier(s: Seq<char>) -> bool {
    &&& s.len() > 0
    &&& (is_lower(s[0]) || is_upper(s[0]) || s[0] == '_')
    &&& forall|i: int| 0 <= i < s.len() ==> is_identifier_char(#[trigger] s[i])
}

/// The pieces of `s` between occurrences of `sep` (as `str::split` gives
/// them: one more piece than there are separators).
pub open spec fn split_parts(s: Seq<char>, sep: char) -> Seq<Seq<char>>
    decreases s.len(),
{
    if s.len() == 0 {
        seq![Seq::empty()]
    } else {
        let parts = split_parts(s.drop_last(), sep);
        if s.last() == sep {
            parts.push(Seq::empty())
        } else {
            parts.update(parts.len() - 1, parts.last().push(s.last()))
        }
    }
}

/// Whether a piece of text parses as a `u16`.
pub open spec fn is_u16_text(s: Seq<char>) -> bool {
    parsed_int(s, 0, 65535, false) is Some
}

/// The number of bytes that a character takes in UTF-8.
pub open spec fn char_byte_len(c: char) -> nat {
    if (c as u32) < 0x80 {
        1
    } else if (c as u32) < 0x800 {
        2
    } else if (c as u32) < 0x10000 {
        3
    } else {
        4
    }
}

/// The number of bytes of the UTF-8 encoding of some text.
pub open spec fn byte_len(s: Seq<char>) -> nat
    decreases s.len(),
{
    if s.len() == 0 {
        0
    } else {
        byte_len(s.drop_last()) + char_byte_len(s.last())
    }
}

/// Whether the text is a short filename: at most eight bytes before the last
/// period (and at least one), and at most three after it.
pub open spec fn is_short_filename(s: Seq<char>) -> bool {
    let parts = split_parts(s, '.');
    if parts.len() <= 1 {
        s.len() > 0 && byte_len(s) <= 8
    } else {
        let ext = parts.last();
        let base = s.subrange(0, s.len() - ext.len() - 1);
        base.len() > 0 && byte_len(base) <= 8 && byte_len(ext) <= 3
    }
}

/// Whether a string is valid to store in a column with a category.
pub open spec fn spec_validate(c: Category, s: Seq<char>) -> bool {
    match c {
        Category::Text => true,
        Category::UpperCase => forall|i: int| 0 <= i < s.len() ==> !is_lower(#[trigger] s[i]),
        Category::LowerCase => forall|i: int| 0 <= i < s.len() ==> !is_upper(#[trigger] s[i]),
        Category::Integer => parsed_int(s, -32768, 32767, true) is Some,
        Category::DoubleInteger => parsed_int(s, -2147483648, 2147483647, true) is Some,
        Category::Identifier => is_identifier(s),
        Category::Property => if s.len() > 0 && s[0] == '%' {
            is_identifier(s.drop_first())
        } else {
            is_identifier(s)
        },
        Category::Guid => {
            &&& byte_len(s) == 38
            &&& s[0] == '{'
            &&& s.last() == '}'
            &&& forall|i: int| 0 <= i < s.len() ==> !is_lower(#[trigger] s[i])
            &&& spec_parse_uuid(s.subrange(1, s.len() - 1)) is Some
        },
        Category::Version => {
            let parts = split_parts(s, '.');
            parts.len() <= 4 && forall|i: int| 0 <= i < parts.len() ==> is_u16_text(#[trigger] parts[i])
        },
        Category::Language => {
            let parts = split_parts(s, ',');
            forall|i: int| 0 <= i < parts.len() ==> is_u16_text(#[trigger] parts[i])
        },
        Category::Cabinet => if s.len() > 0 && s[0] == '#' {
            is_identifier(s.drop_first())
        } else {
            is_short_filename(s)
        },
        _ => true,
    }
}

/// Whether every character of a string may appear in an identifier.
fn all_identifier_chars(s: &[char], start: usize) -> (r: bool)
    requires
        start <= s@.len(),
    ensures
        r == forall|i: int| start <= i < s@.len() ==> is_identifier_char(#[trigger] s@[i]),
{
    let mut i = start;
    while i < s.len()
        invariant
            start <= i <= s.len(),
            forall|j: int| start <= j < i ==> is_identifier_char(#[trigger] s@[j]),
        decreases s.len() - i,
    {
        let ch = s[i];
        let c = ch as u32;
        assert(ch == s@[i as int]);
        if !((97 <= c && c <= 122) || (65 <= c && c <= 90) || (48 <= c && c <= 57) || ch == '_'
            || ch == '.') {
            assert(!is_identifier_char(s@[i as int]));
            return false;
        }
        assert(is_identifier_char(s@[i as int]));
        i = i + 1;
    }
    true
}

/// Whether the characters from `start` on form an identifier.
fn is_identifier_from(s: &[char], start: usize) -> (r: bool)
    requires
        start <= s@.len(),
    ensures
        r == is_identifier(s@.skip(start as int)),
{
    if start >= s.len() {
        return false;
    }
    let ch = s[start];
    let c = ch as u32;
    let first_ok = (97 <= c && c <= 122) || (65 <= c && c <= 90) || ch == '_';
    let rest_ok = all_identifier_chars(s, start);
    proof {
        let t = s@.skip(start as int);
        assert(t[0] == s@[start as int]);
        if rest_ok {
            assert forall|i: int| 0 <= i < t.len() implies is_identifier_char(#[trigger] t[i]) by {
                assert(t[i] == s@[start + i]);
            }
        } else {
            let j = choose|j: int| start <= j < s@.len() && !is_identifier_char(#[trigger] s@[j]);
            assert(t[j - start] == s@[j]);
        }
    }
    first_ok && rest_ok
}

/// Whether no character satisfies an ASCII-letter-case test; `lower`
/// selects lowercase letters, otherwise uppercase ones.
fn has_no_letters_of_case(s: &[char], lower: bool) -> (r: bool)
    ensures
        lower ==> (r == forall|i: int| 0 <= i < s@.len() ==> !is_lower(#[trigger] s@[i])),
        !lower ==> (r == forall|i: int| 0 <= i < s@.len() ==> !is_upper(#[trigger] s@[i])),
{
    let mut i: usize = 0;
    while i < s.len()
        invariant
            i <= s.len(),
            lower ==> forall|j: int| 0 <= j < i ==> !is_lower(#[trigger] s@[j]),
            !lower ==> forall|j: int| 0 <= j < i ==> !is_upper(#[trigger] s@[j]),
        decreases s.len() - i,
    {
        let c = s[i] as u32;
        if lower && 97 <= c && c <= 122 {
            assert(is_lower(s@[i as int]));
            return false;
        }
        if !lower && 65 <= c && c <= 90 {
            assert(is_upper(s@[i as int]));
            return false;
        }
        i = i + 1;
    }
    true
}

/// Splits text into the pieces between occurrences of a separator.
pub fn split_on(s: &[char], sep: char) -> (parts: Vec<Vec<char>>)
    ensures
        parts@.len() == split_parts(s@, sep).len(),
        forall|i: int| 0 <= i < parts@.len() ==> (#[trigger] parts@[i])@ == split_parts(s@, sep)[i],
{
    let mut parts: Vec<Vec<char>> = Vec::new();
    parts.push(Vec::new());
    let mut i: usize = 0;
    proof {
        assert(s@.take(0) =~= Seq::<char>::empty());
    }
    while i < s.len()
        invariant
            i <= s.len(),
            parts@.len() == split_parts(s@.take(i as int), sep).len(),
            parts@.len() > 0,
            forall|j: int| 0 <= j < parts@.len() ==> (#[trigger] parts@[j])@ == split_parts(
                s@.take(i as int),
                sep,
            )[j],
        decreases s.len() - i,
    {
        let ghost before = split_parts(s@.take(i as int), sep);
        proof {
            assert(s@.take(i + 1).drop_last() =~= s@.take(i as int));
            assert(s@.take(i + 1).last() == s@[i as int]);
        }
        if s[i] == sep {
            parts.push(Vec::new());
        } else {
            let last = parts.len() - 1;
            let mut piece = parts.pop().unwrap();
            piece.push(s[i]);
            parts.push(piece);
            proof {
                assert(parts@[last as int]@ =~= before.last().push(s@[i as int]));
            }
        }
        i = i + 1;
    }
    proof {
        assert(s@.take(s@.len() as int) =~= s@);
    }
    parts
}

/// Whether every piece parses as a `u16`.
fn all_u16_texts(parts: &Vec<Vec<char>>) -> (r: bool)
    ensures
        r == forall|i: int| 0 <= i < parts@.len() ==> is_u16_text((#[trigger] parts@[i])@),
{
    let mut i: usize = 0;
    while i < parts.len()
        invariant
            i <= parts.len(),
            forall|j: int| 0 <= j < i ==> is_u16_text((#[trigger] parts@[j])@),
        decreases parts.len() - i,
    {
        if parse_int(parts[i].as_slice(), 0, 65535, false).is_none() {
            return false;
        }
        i = i + 1;
    }
    true
}

/// The number of bytes that some text takes in UTF-8, or 64 if that is
/// more.
fn utf8_len_of(s: &[char]) -> (n: usize)
    ensures
        n == if byte_len(s@) < 64 {
            byte_len(s@)
        } else {
            64
        },
{
    let mut n: usize = 0;
    let mut i: usize = 0;
    proof {
        assert(s@.take(0) =~= Seq::<char>::empty());
    }
    while i < s.len()
        invariant
            i <= s.len(),
            n == if byte_len(s@.take(i as int)) < 64 {
                byte_len(s@.take(i as int))
            } else {
                64
            },
        decreases s.len() - i,
    {
        let c = s[i] as u32;
        let w: usize = if c < 0x80 {
            1
        } else if c < 0x800 {
            2
        } else if c < 0x10000 {
            3
        } else {
            4
        };
        proof {
            assert(s@.take(i + 1).drop_last() =~= s@.take(i as int));
            assert(s@.take(i + 1).last() == s@[i as int]);
        }
        n = if n + w >= 64 {
            64
        } else {
            n + w
        };
        i = i + 1;
    }
    proof {
        assert(s@.take(s@.len() as int) =~= s@);
    }
    n
}

impl Category {
    /// Returns every category, in declaration order.
    pub fn all() -> (r: Vec<Category>)
        ensures
            r@.len() == 26,
            forall|c: Category| r@.contains(c),
    {
        let r = vec![
            Category::Text,
            Category::UpperCase,
            Category::LowerCase,
            Category::Integer,
            Category::DoubleInteger,
            Category::TimeDate,
            Category::Identifier,
            Category::Property,
            Category::Filename,
            Category::WildCardFilename,
            Category::Path,
            Category::Paths,
            Category::AnyPath,
            Category::DefaultDir,
            Category::RegPath,
            Category::Formatted,
            Category::FormattedSddlText,
            Category::Template,
            Category::Condition,
            Category::Guid,
            Category::Version,
            Category::Language,
            Category::Binary,
            Category::CustomSource,
            Category::Cabinet,
            Category::Shortcut,
        ];
        proof {
            assert forall|c: Category| r@.contains(c) by {
                match c {
                    Category::Text => assert(r@[0] == c),
                    Category::UpperCase => assert(r@[1] == c),
                    Category::LowerCase => assert(r@[2] == c),
                    Category::Integer => assert(r@[3] == c),
                    Category::DoubleInteger => assert(r@[4] == c),
                    Category::TimeDate => assert(r@[5] == c),
                    Category::Identifier => assert(r@[6] == c),
                    Category::Property => assert(r@[7] == c),
                    Category::Filename => assert(r@[8] == c),
                    Category::WildCardFilename => assert(r@[9] == c),
                    Category::Path => assert(r@[10] == c),
                    Category::Paths => assert(r@[11] == c),
                    Category::AnyPath => assert(r@[12] == c),
                    Category::DefaultDir => assert(r@[13] == c),
                    Category::RegPath => assert(r@[14] == c),
                    Category::Formatted => assert(r@[15] == c),
                    Category::FormattedSddlText => assert(r@[16] == c),
                    Category::Template => assert(r@[17] == c),
                    Category::Condition => assert(r@[18] == c),
                    Category::Guid => assert(r@[19] == c),
                    Category::Version => assert(r@[20] == c),
                    Category::Language => assert(r@[21] == c),
                    Category::Binary => assert(r@[22] == c),
                    Category::CustomSource => assert(r@[23] == c),
                    Category::Cabinet => assert(r@[24] == c),
                    Category::Shortcut => assert(r@[25] == c),
                }
            }
        }
        r
    }

    /// Returns the name of this category.
    pub fn as_str(&self) -> (r: &'static str)
        ensures
            r@ == category_name(*self),
    {
        match *self {
            Category::AnyPath => "AnyPath",
            Category::Binary => "Binary",
            Category::Cabinet => "Cabinet",
            Category::Condition => "Condition",
            Category::CustomSource => "CustomSource",
            Category::DefaultDir => "DefaultDir",
            Category::DoubleInteger => "DoubleInteger",
            Category::Filename => "Filename",
            Category::Formatted => "Formatted",
            Category::FormattedSddlText => "FormattedSDDLText",
            Category::Guid => "GUID",
            Category::Identifier => "Identifier",
            Category::Integer => "Integer",
            Category::Language => "Language",
            Category::LowerCase => "LowerCase",
            Category::Path => "Path",
            Category::Paths => "Paths",
            Category::Property => "Property",
            Category::RegPath => "RegPath",
            Category::Shortcut => "Shortcut",
            Category::Template => "Template",
            Category::Text => "Text",
            Category::TimeDate => "TimeDate",
            Category::UpperCase => "UpperCase",
            Category::Version => "Version",
            Category::WildCardFilename => "WildCardFilename",
        }
    }

    /// Returns the name of this category as a `String` (what `Display`
    /// writes for it).
    pub fn to_string(&self) -> (r: String)
        ensures
            r@ == category_name(*self),
    {
        self.as_str().to_owned()
    }

    /// Returns true if the given string is valid to store in a database column
    /// with this category.
    pub fn validate(&self, string: &str) -> (r: bool)
        ensures
            r == spec_validate(*self, string@),
    {
        let s = chars_of(string);
        match *self {
            Category::Text => true,
            Category::UpperCase => has_no_letters_of_case(s.as_slice(), true),
            Category::LowerCase => has_no_letters_of_case(s.as_slice(), false),
            Category::Integer => parse_int(s.as_slice(), -32768, 32767, true).is_some(),
            Category::DoubleInteger => parse_int(
                s.as_slice(),
                -2147483648,
                2147483647,
                true,
            ).is_some(),
            Category::Identifier => {
                proof {
                    assert(s@.skip(0) =~= s@);
                }
                is_identifier_from(s.as_slice(), 0)
            },
            Category::Property => {
                proof {
                    assert(s@.skip(0) =~= s@);
                    if s@.len() > 0 {
                        assert(s@.skip(1) =~= s@.drop_first());
                    }
                }
                if s.len() > 0 && s[0] == '%' {
                    is_identifier_from(s.as_slice(), 1)
                } else {
                    is_identifier_from(s.as_slice(), 0)
                }
            },
            Category::Guid => {
                if utf8_len_of(s.as_slice()) != 38 || s.len() < 2 || s[0] != '{' || s[s.len() - 1] != '}' {
                    return false;
                }
                if !has_no_letters_of_case(s.as_slice(), true) {
                    return false;
                }
                let mut middle: Vec<char> = Vec::new();
                let mut i: usize = 1;
                while i < s.len() - 1
                    invariant
                        1 <= i <= s@.len() - 1,
                        s@.len() >= 2,
                        middle@ == s@.subrange(1, i as int),
                    decreases s.len() - i,
                {
                    middle.push(s[i]);
                    proof {
                        assert(s@.subrange(1, i + 1) =~= s@.subrange(1, i as int).push(s@[i as int]));
                    }
                    i = i + 1;
                }
                let text = string_from_chars(middle.as_slice());
                parse_uuid(text.as_str()).is_some()
            },
            Category::Version => {
                let parts = split_on(s.as_slice(), '.');
                let ok = parts.len() <= 4 && all_u16_texts(&parts);
                proof {
                    let sp = split_parts(s@, '.');
                    if all_u16_texts_spec(parts@) {
                        assert forall|i: int| 0 <= i < sp.len() implies is_u16_text(#[trigger] sp[i]) by {
                            assert(parts@[i]@ == sp[i]);
                        }
                    }
                    if forall|i: int| 0 <= i < sp.len() ==> is_u16_text(#[trigger] sp[i]) {
                        assert forall|i: int| 0 <= i < parts@.len() implies is_u16_text((#[trigger] parts@[i])@) by {
                            assert(parts@[i]@ == sp[i]);
                        }
                    }
                }
                ok
            },
            Category::Language => {
                let parts = split_on(s.as_slice(), ',');
                let ok = all_u16_texts(&parts);
                proof {
                    let sp = split_parts(s@, ',');
                    if all_u16_texts_spec(parts@) {
                        assert forall|i: int| 0 <= i < sp.len() implies is_u16_text(#[trigger] sp[i]) by {
                            assert(parts@[i]@ == sp[i]);
                        }
                    }
                    if forall|i: int| 0 <= i < sp.len() ==> is_u16_text(#[trigger] sp[i]) {
                        assert forall|i: int| 0 <= i < parts@.len() implies is_u16_text((#[trigger] parts@[i])@) by {
                            assert(parts@[i]@ == sp[i]);
                        }
                    }
                }
                ok
            },
            Category::Cabinet => {
                if s.len() > 0 && s[0] == '#' {
                    proof {
                        assert(s@.skip(1) =~= s@.drop_first());
                    }
                    is_identifier_from(s.as_slice(), 1)
                } else {
                    let parts = split_on(s.as_slice(), '.');
                    if parts.len() <= 1 {
                        s.len() > 0 && utf8_len_of(s.as_slice()) <= 8
                    } else {
                        let ext = &parts[parts.len() - 1];
                        proof {
                            lemma_split_last_is_suffix(s@, '.');
                        }
                        let base_len = s.len() - ext.len() - 1;
                        let mut base: Vec<char> = Vec::new();
                        let mut i: usize = 0;
                        while i < base_len
                            invariant
                                i <= base_len,
                                base_len <= s@.len(),
                                base@ == s@.subrange(0, i as int),
                            decreases base_len - i,
                        {
                            base.push(s[i]);
                            proof {
                                assert(s@.subrange(0, i + 1) =~= s@.subrange(0, i as int).push(s@[i as int]));
                            }
                            i = i + 1;
                        }
                        base.len() > 0 && utf8_len_of(base.as_slice()) <= 8 && utf8_len_of(
                            ext.as_slice(),
                        ) <= 3
                    }
                }
            },
            _ => true,
        }
    }

    /// Returns the category with the given name, if any.
    pub fn from_name(string: &str) -> (r: Option<Category>)
        ensures
            r == category_from_name(string@),
    {
        if str_equal(string, "AnyPath") {
            Some(Category::AnyPath)
        } else if str_equal(string, "Binary") {
            Some(Category::Binary)
        } else if str_equal(string, "Cabinet") {
            Some(Category::Cabinet)
        } else if str_equal(string, "Condition") {
            Some(Category::Condition)
        } else if str_equal(string, "CustomSource") {
            Some(Category::CustomSource)
        } else if str_equal(string, "DefaultDir") {
            Some(Category::DefaultDir)
        } else if str_equal(string, "DoubleInteger") {
            Some(Category::DoubleInteger)
        } else if str_equal(string, "Filename") {
            Some(Category::Filename)
        } else if str_equal(string, "Formatted") {
            Some(Category::Formatted)
        } else if str_equal(string, "FormattedSDDLText") {
            Some(Category::FormattedSddlText)
        } else if str_equal(string, "FormattedSddlText") {
            Some(Category::FormattedSddlText)
        } else if str_equal(string, "GUID") {
            Some(Category::Guid)
        } else if str_equal(string, "Guid") {
            Some(Category::Guid)
        } else if str_equal(string, "Identifier") {
            Some(Category::Identifier)
        } else if str_equal(string, "Integer") {
            Some(Category::Integer)
        } else if str_equal(string, "Language") {
            Some(Category::Language)
        } else if str_equal(string, "LowerCase") {
            Some(Category::LowerCase)
        } else if str_equal(string, "Path") {
            Some(Category::Path)
        } else if str_equal(string, "Paths") {
            Some(Category::Paths)
        } else if str_equal(string, "Property") {
            Some(Category::Property)
        } else if str_equal(string, "RegPath") {
            Some(Category::RegPath)
        } else if str_equal(string, "Shortcut") {
            Some(Category::Shortcut)
        } else if str_equal(string, "Template") {
            Some(Category::Template)
        } else if str_equal(string, "Text") {
            Some(Category::Text)
        } else if str_equal(string, "TimeDate") {
            Some(Category::TimeDate)
        } else if str_equal(string, "UpperCase") {
            Some(Category::UpperCase)
        } else if str_equal(string, "Version") {
            Some(Category::Version)
        } else if str_equal(string, "WildCardFilename") {
            Some(Category::WildCardFilename)
        } else {
            None
        }
    }
}

/// Spec form of the test that every piece parses as a `u16`.
pub open spec fn all_u16_texts_spec(parts: Seq<Vec<char>>) -> bool {
    forall|i: int| 0 <= i < parts.len() ==> is_u16_text((#[trigger] parts[i])@)
}

/// The last piece of a split is what follows the last separator, so the
/// text is the text before it, the separator, and the piece.
proof fn lemma_split_last_is_suffix(s: Seq<char>, sep: char)
    ensures
        split_parts(s, sep).len() >= 1,
        split_parts(s, sep).last().len() <= s.len(),
        split_parts(s, sep).len() > 1 ==> split_parts(s, sep).last().len() < s.len(),
        split_parts(s, sep).last() == s.subrange(
            s.len() - split_parts(s, sep).last().len(),
            s.len() as int,
        ),
    decreases s.len(),
{
    if s.len() == 0 {
        assert(split_parts(s, sep).last() =~= s.subrange(0, 0));
    } else {
        lemma_split_last_is_suffix(s.drop_last(), sep);
        let parts = split_parts(s.drop_last(), sep);
        if s.last() == sep {
            assert(split_parts(s, sep).last() =~= s.subrange(s.len() as int, s.len() as int));
        } else {
            let p = parts.last();
            assert(split_parts(s, sep).last() =~= p.push(s.last()));
            assert(s.subrange(s.len() - p.len() - 1, s.len() as int) =~= s.drop_last().subrange(
                s.len() - 1 - p.len(),
                s.len() - 1,
            ).push(s.last()));
        }
    }
}

/// Whether two strings hold the same characters.
pub fn str_equal(a: &str, b: &str) -> (r: bool)
    ensures
        r == (a@ == b@),
{
    let x = chars_of(a);
    let y = chars_of(b);
    if x.len() != y.len() {
        return false;
    }
    let mut i: usize = 0;
    while i < x.len()
        invariant
            i <= x.len(),
            x@ == a@,
            y@ == b@,
            x@.len() == y@.len(),
            forall|j: int| 0 <= j < i ==> x@[j] == y@[j],
        decreases x.len() - i,
    {
        if x[i] != y[i] {
            assert(a@[i as int] != b@[i as int]);
            return false;
        }
        i = i + 1;
    }
    proof {
        assert(x@ =~= y@);
    }
    true
}

/// Reading back the name of a category gives the category.
pub proof fn lemma_category_name_round_trip(c: Category)
    ensures
        category_from_name(category_name(c)) == Some(c),
{
    reveal_strlit("AnyPath");
    reveal_strlit("Binary");
    reveal_strlit("Cabinet");
    reveal_strlit("Condition");
    reveal_strlit("CustomSource");
    reveal_strlit("DefaultDir");
    reveal_strlit("DoubleInteger");
    reveal_strlit("Filename");
    reveal_strlit("Formatted");
    reveal_strlit("FormattedSDDLText");
    reveal_strlit("FormattedSddlText");
    reveal_strlit("GUID");
    reveal_strlit("Guid");
    reveal_strlit("Identifier");
    reveal_strlit("Integer");
    reveal_strlit("Language");
    reveal_strlit("LowerCase");
    reveal_strlit("Path");
    reveal_strlit("Paths");
    reveal_strlit("Property");
    reveal_strlit("RegPath");
    reveal_strlit("Shortcut");
    reveal_strlit("Template");
    reveal_strlit("Text");
    reveal_strlit("TimeDate");
    reveal_strlit("UpperCase");
    reveal_strlit("Version");
    reveal_strlit("WildCardFilename");
    let s = category_name(c);
    assert(s.len() > 0);
    if s[0] != 'A' { assert(s != "AnyPath"@); }
    if s[0] != 'B' { assert(s != "Binary"@); }
    if s[0] != 'C' { assert(s != "Cabinet"@ && s != "Condition"@ && s != "CustomSource"@); }
    if s[0] != 'D' { assert(s != "DefaultDir"@ && s != "DoubleInteger"@); }
    if s[0] != 'F' { assert(s != "Filename"@ && s != "Formatted"@ && s != "FormattedSDDLText"@ && s != "FormattedSddlText"@); }
    if s[0] != 'G' { assert(s != "GUID"@ && s != "Guid"@); }
    if s[0] != 'I' { assert(s != "Identifier"@ && s != "Integer"@); }
    if s[0] != 'L' { assert(s != "Language"@ && s != "LowerCase"@); }
    if s[0] != 'P' { assert(s != "Path"@ && s != "Paths"@ && s != "Property"@); }
    if s[0] != 'R' { assert(s != "RegPath"@); }
    if s[0] != 'S' { assert(s != "Shortcut"@); }
    if s[0] != 'T' { assert(s != "Template"@ && s != "Text"@ && s != "TimeDate"@); }
    if s[0] != 'U' { assert(s != "UpperCase"@); }
    if s[0] != 'V' { assert(s != "Version"@); }
    if s[0] != 'W' { assert(s != "WildCardFilename"@); }
    if s.len() > 1 {
        if s[1] != 'o' { assert(s != "Condition"@ && s != "DoubleInteger"@ && s != "LowerCase"@); }
        if s[1] != 'a' { assert(s != "Cabinet"@ && s != "Language"@ && s != "Path"@ && s != "Paths"@); }
        if s[1] != 'e' { assert(s != "DefaultDir"@ && s != "Template"@ && s != "Text"@); }
        if s[1] != 'n' { assert(s != "Integer"@); }
        if s[1] != 'd' { assert(s != "Identifier"@); }
        if s[1] != 'u' { assert(s != "CustomSource"@); }
        if s[1] != 'r' { assert(s != "Property"@); }
        if s[1] != 'i' { assert(s != "Filename"@ && s != "TimeDate"@); }
        if s[1] != 'U' { assert(s != "GUID"@); }
        if s[1] != 'u' { assert(s != "Guid"@); }
    }
}

/// The UpperCase category accepts exactly the strings with no ASCII
/// lowercase letter (`a` to `z`), and the LowerCase category exactly those
/// with no ASCII uppercase letter (`A` to `Z`); every other character is
/// allowed.
pub proof fn lemma_case_categories(s: Seq<char>)
    ensures
        spec_validate(Category::UpperCase, s) <==> !(exists|i: int|
            0 <= i < s.len() && 'a' as u32 <= (#[trigger] s[i]) as u32 <= 'z' as u32),
        spec_validate(Category::LowerCase, s) <==> !(exists|i: int|
            0 <= i < s.len() && 'A' as u32 <= (#[trigger] s[i]) as u32 <= 'Z' as u32),
{
    assert('a' as u32 == 97 && 'z' as u32 == 122 && 'A' as u32 == 65 && 'Z' as u32 == 90);
}

/// The Integer category accepts the decimal text of exactly the numbers
/// from -32768 to 32767, and the DoubleInteger category that of exactly the
/// 32-bit signed numbers.
pub proof fn lemma_integer_categories(n: int)
    ensures
        spec_validate(Category::Integer, crate::text::int_text(n)) <==> -32768 <= n <= 32767,
        spec_validate(Category::DoubleInteger, crate::text::int_text(n)) <==> -2147483648 <= n <= 2147483647,
{
    let s = crate::text::int_text(n);
    if n < 0 {
        let t = crate::text::nat_text((-n) as nat);
        crate::text::lemma_nat_text_digits((-n) as nat);
        assert(s == seq!['-'] + t);
        assert(s.drop_first() =~= t);
        assert(s[0] == '-');
    } else {
        let t = crate::text::nat_text(n as nat);
        crate::text::lemma_nat_text_digits(n as nat);
        assert(crate::text::is_digit(t[0]));
        assert(s == t);
    }
}

/// Whether a character is an ASCII letter, `a` to `z` or `A` to `Z`.
pub open spec fn ascii_letter(c: char) -> bool {
    ('a' as u32 <= c as u32 <= 'z' as u32) || ('A' as u32 <= c as u32 <= 'Z' as u32)
}

/// The Identifier category accepts exactly the nonempty strings that start
/// with an ASCII letter or `_` and hold only ASCII letters, digits, `_` and
/// `.`; the Property category accepts an identifier, or `%` followed by an
/// identifier, and nothing else.
pub proof fn lemma_identifier_categories(s: Seq<char>)
    ensures
        spec_validate(Category::Identifier, s) <==> {
            &&& s.len() > 0
            &&& ascii_letter(s[0]) || s[0] == '_'
            &&& forall|i: int|
                0 <= i < s.len() ==> ascii_letter(#[trigger] s[i]) || ('0' as u32 <= s[i] as u32 <= '9' as u32)
                    || s[i] == '_' || s[i] == '.'
        },
        spec_validate(Category::Property, s) <==> spec_validate(Category::Identifier, s) || (s.len() > 0 && s[0]
            == '%' && spec_validate(Category::Identifier, s.drop_first())),
{
    assert('a' as u32 == 97 && 'z' as u32 == 122 && 'A' as u32 == 65 && 'Z' as u32 == 90);
    assert('0' as u32 == 48 && '9' as u32 == 57);
}

/// The decimal texts of some numbers, separated by `sep`.
pub open spec fn joined_numbers(ns: Seq<nat>, sep: char) -> Seq<char>
    decreases ns.len(),
{
    if ns.len() <= 1 {
        if ns.len() == 0 {
            Seq::empty()
        } else {
            crate::text::nat_text(ns[0])
        }
    } else {
        joined_numbers(ns.drop_last(), sep) + seq![sep] + crate::text::nat_text(ns.last())
    }
}

/// A piece with no separator in it splits into itself alone.
proof fn lemma_split_single(y: Seq<char>, sep: char)
    requires
        !y.contains(sep),
    ensures
        split_parts(y, sep) == seq![y],
    decreases y.len(),
{
    if y.len() > 0 {
        let d = y.drop_last();
        assert(!d.contains(sep)) by {
            if d.contains(sep) {
                let i = choose|i: int| 0 <= i < d.len() && d[i] == sep;
                assert(y[i] == sep);
            }
        }
        lemma_split_single(d, sep);
        assert(y.last() != sep) by {
            assert(y[y.len() - 1] == y.last());
        }
        let p = split_parts(d, sep);
        assert(p == seq![d]);
        assert(split_parts(y, sep) == p.update(p.len() - 1, p.last().push(y.last())));
        assert(d.push(y.last()) =~= y);
        assert(p.update(p.len() - 1, p.last().push(y.last())) =~= seq![y]);
    } else {
        assert(y =~= Seq::<char>::empty());
    }
}

/// Splitting text, a separator and a piece with no separator in it gives
/// the pieces of the text followed by that piece.
proof fn lemma_split_append(x: Seq<char>, y: Seq<char>, sep: char)
    requires
        !y.contains(sep),
    ensures
        split_parts(x + seq![sep] + y, sep) == split_parts(x, sep).push(y),
    decreases y.len(),
{
    let s = x + seq![sep] + y;
    if y.len() == 0 {
        assert(s.drop_last() =~= x);
        assert(s.last() == sep);
        assert(split_parts(s, sep) == split_parts(s.drop_last(), sep).push(Seq::empty()));
        assert(y =~= Seq::<char>::empty());
    } else {
        let d = y.drop_last();
        assert(!d.contains(sep)) by {
            if d.contains(sep) {
                let i = choose|i: int| 0 <= i < d.len() && d[i] == sep;
                assert(y[i] == sep);
            }
        }
        lemma_split_append(x, d, sep);
        assert(s.drop_last() =~= x + seq![sep] + d);
        assert(s.last() == y.last());
        assert(y.last() != sep) by {
            assert(y[y.len() - 1] == y.last());
        }
        let before = split_parts(x, sep).push(d);
        assert(split_parts(s.drop_last(), sep) == before);
        assert(split_parts(s, sep) == before.update(before.len() - 1, before.last().push(y.last())));
        assert(before.last() == d);
        assert(d.push(y.last()) =~= y);
        assert(before.update(before.len() - 1, before.last().push(y.last())) =~= split_parts(x, sep).push(y));
    }
}

/// Decimal text holds no character but digits.
proof fn lemma_nat_text_no_sep(n: nat, sep: char)
    requires
        !crate::text::is_digit(sep),
    ensures
        !crate::text::nat_text(n).contains(sep),
{
    crate::text::lemma_nat_text_digits(n);
    if crate::text::nat_text(n).contains(sep) {
        let i = choose|i: int| 0 <= i < crate::text::nat_text(n).len() && crate::text::nat_text(n)[i] == sep;
        assert(crate::text::is_digit(crate::text::nat_text(n)[i]));
    }
}

/// Numbers joined by a separator that is not a digit split back into their
/// decimal texts.
proof fn lemma_split_joined(ns: Seq<nat>, sep: char)
    requires
        ns.len() >= 1,
        !crate::text::is_digit(sep),
    ensures
        split_parts(joined_numbers(ns, sep), sep) == ns.map_values(|n: nat| crate::text::nat_text(n)),
    decreases ns.len(),
{
    lemma_nat_text_no_sep(ns.last(), sep);
    if ns.len() == 1 {
        lemma_split_single(crate::text::nat_text(ns[0]), sep);
        assert(ns.map_values(|n: nat| crate::text::nat_text(n)) =~= seq![crate::text::nat_text(ns[0])]);
    } else {
        lemma_split_joined(ns.drop_last(), sep);
        lemma_split_append(joined_numbers(ns.drop_last(), sep), crate::text::nat_text(ns.last()), sep);
        assert(ns.drop_last().map_values(|n: nat| crate::text::nat_text(n)).push(crate::text::nat_text(ns.last()))
            =~= ns.map_values(|n: nat| crate::text::nat_text(n)));
    }
}

/// The decimal text of a number is a `u16` exactly when the number is at
/// most 65535.
proof fn lemma_u16_text(n: nat)
    ensures
        is_u16_text(crate::text::nat_text(n)) <==> n <= 65535,
{
    crate::text::lemma_nat_text_digits(n);
    let t = crate::text::nat_text(n);
    assert(crate::text::is_digit(t[0]));
}

/// The Version category accepts one to four numbers separated by periods
/// exactly when none is above 65535 and there are at most four; the
/// Language category accepts numbers separated by commas, however many,
/// exactly when none is above 65535.
pub proof fn lemma_version_language_categories(ns: Seq<nat>)
    requires
        ns.len() >= 1,
    ensures
        spec_validate(Category::Version, joined_numbers(ns, '.')) <==> ns.len() <= 4 && forall|i: int|
            0 <= i < ns.len() ==> #[trigger] ns[i] <= 65535,
        spec_validate(Category::Language, joined_numbers(ns, ',')) <==> forall|i: int|
            0 <= i < ns.len() ==> #[trigger] ns[i] <= 65535,
{
    assert('.' as u32 == 46 && ',' as u32 == 44);
    lemma_split_joined(ns, '.');
    lemma_split_joined(ns, ',');
    let texts = ns.map_values(|n: nat| crate::text::nat_text(n));
    assert(split_parts(joined_numbers(ns, '.'), '.') == texts);
    assert(split_parts(joined_numbers(ns, ','), ',') == texts);
    assert forall|i: int| 0 <= i < ns.len() implies is_u16_text(#[trigger] texts[i]) <==> ns[i] <= 65535 by {
        lemma_u16_text(ns[i]);
    }
    if forall|i: int| 0 <= i < ns.len() ==> #[trigger] ns[i] <= 65535 {
        assert forall|i: int| 0 <= i < texts.len() implies is_u16_text(#[trigger] texts[i]) by {
            assert(ns[i] <= 65535);
        }
    } else {
        let i = choose|i: int| 0 <= i < ns.len() && !(#[trigger] ns[i] <= 65535);
        assert(!is_u16_text(texts[i]));
    }
}

} // verus!
