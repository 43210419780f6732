//! Summary information (e.g. title, author) about an MSI package, kept in a
//! property set.

use crate::category::{parse_uuid, spec_parse_uuid, split_on, split_parts};
use crate::codepage::{codepage_id, CodePage};
use crate::error::{Error, ErrorKind};
use crate::language::LanguageId;
use crate::propset::{
    lookup, names_increasing, remove_named, set_named, spec_read_set, spec_set_bytes, can_write_set, OperatingSystem,
    PropertySet, PropertySetView, PropertyValue, PropertyValueView, PROPERTY_CODEPAGE,
};
use crate::text::{
    all_digits, chars_of, digit_char, digits_value, is_digit, nat_text, nat_to_string, parse_int, parsed_int,
    string_from_chars,
};
use crate::time::{filetime_from_system_time, spec_filetime, spec_time_of_filetime, system_time_from_filetime, UnixTime};
use std::time::SystemTime;
use vstd::prelude::*;

verus! {

/// The name of the title property.
pub const PROPERTY_TITLE: u32 = 2;
/// The name of the subject property.
pub const PROPERTY_SUBJECT: u32 = 3;
/// The name of the author property.
pub const PROPERTY_AUTHOR: u32 = 4;
/// The name of the comments property.
pub const PROPERTY_COMMENTS: u32 = 6;
/// The name of the template property: the architecture, a semicolon, and
/// the language codes separated by commas.
pub const PROPERTY_TEMPLATE: u32 = 7;
/// The name of the UUID property.
pub const PROPERTY_UUID: u32 = 9;
/// The name of the creation time property.
pub const PROPERTY_CREATION_TIME: u32 = 12;
/// The name of the word count property.
pub const PROPERTY_WORD_COUNT: u32 = 15;
/// The name of the creating application property.
pub const PROPERTY_CREATING_APP: u32 = 18;

/// The format identifier of summary information: the UUID
/// F29F85E0-4FF9-1068-AB91-08002B27B3D9, with its first three fields
/// little-endian, as Windows encodes UUIDs.
pub open spec fn spec_fmtid() -> Seq<u8> {
    seq![
        0xe0u8, 0x85u8, 0x9fu8, 0xf2u8, 0xf9u8, 0x4fu8, 0x68u8, 0x10u8, 0xabu8, 0x91u8, 0x08u8, 0x00u8,
        0x2bu8, 0x27u8, 0xb3u8, 0xd9u8
    ]
}

/// Returns the format identifier of summary information.
pub fn fmtid() -> (r: [u8; 16])
    ensures
        r@ == spec_fmtid(),
{
    let r: [u8; 16] = [
        0xe0, 0x85, 0x9f, 0xf2, 0xf9, 0x4f, 0x68, 0x10, 0xab, 0x91, 0x08, 0x00, 0x2b, 0x27, 0xb3, 0xd9,
    ];
    assert(r@ =~= spec_fmtid());
    r
}

/// The string value of a property, if it has one.
pub open spec fn string_property(p: PropertySetView, name: u32) -> Option<Seq<char>> {
    match lookup(p.properties, name) {
        Some(PropertyValueView::LpStr(s)) => Some(s),
        _ => None,
    }
}

/// Whether `i` is the index of the first occurrence of a character.
pub open spec fn is_first_of(s: Seq<char>, c: char, i: int) -> bool {
    &&& 0 <= i < s.len()
    &&& s[i] == c
    &&& forall|k: int| 0 <= k < i ==> s[k] != c
}

/// The index of the first occurrence of a character, if any.
pub open spec fn first_index_of(s: Seq<char>, c: char) -> Option<int> {
    if exists|i: int| 0 <= i < s.len() && s[i] == c {
        Some(choose|i: int| is_first_of(s, c, i))
    } else {
        None
    }
}

/// The architecture part of a template: the text before the first
/// semicolon, or all of it.
pub open spec fn arch_part(t: Seq<char>) -> Seq<char> {
    match first_index_of(t, ';') {
        Some(i) => t.take(i),
        None => t,
    }
}

/// The languages part of a template: the text after the first semicolon,
/// if there is one.
pub open spec fn languages_part(t: Seq<char>) -> Option<Seq<char>> {
    match first_index_of(t, ';') {
        Some(i) => Some(t.skip(i + 1)),
        None => None,
    }
}

/// The language codes among the first `n` parts, skipping the parts that
/// are not 16-bit numbers.
pub open spec fn parsed_codes(parts: Seq<Seq<char>>, n: int) -> Seq<u16>
    decreases n,
{
    if n <= 0 {
        Seq::empty()
    } else {
        let before = parsed_codes(parts, n - 1);
        match parsed_int(parts[n - 1], 0, 65535, false) {
            Some(v) => before.push(v as u16),
            None => before,
        }
    }
}

/// The language codes of a template.
pub open spec fn template_languages(t: Seq<char>) -> Seq<u16> {
    match languages_part(t) {
        Some(l) => parsed_codes(split_parts(l, ','), split_parts(l, ',').len() as int),
        None => Seq::empty(),
    }
}

/// The first `n` codes in decimal, separated by commas.
pub open spec fn codes_text(codes: Seq<u16>, n: int) -> Seq<char>
    decreases n,
{
    if n <= 0 {
        Seq::empty()
    } else if n == 1 {
        nat_text(codes[0] as nat)
    } else {
        codes_text(codes, n - 1) + ","@ + nat_text(codes[n - 1] as nat)
    }
}

/// Splitting text never gives no parts.
proof fn lemma_split_parts_len(s: Seq<char>, sep: char)
    ensures
        split_parts(s, sep).len() >= 1,
    decreases s.len(),
{
    if s.len() > 0 {
        lemma_split_parts_len(s.drop_last(), sep);
    }
}

/// Text without the separator, appended, extends the last part.
proof fn lemma_split_parts_extend(x: Seq<char>, y: Seq<char>, sep: char)
    requires
        forall|i: int| 0 <= i < y.len() ==> y[i] != sep,
    ensures
        split_parts(x + y, sep) == split_parts(x, sep).update(
            split_parts(x, sep).len() - 1,
            split_parts(x, sep).last() + y,
        ),
    decreases y.len(),
{
    lemma_split_parts_len(x, sep);
    if y.len() == 0 {
        assert(x + y =~= x);
        assert(split_parts(x, sep).last() + y =~= split_parts(x, sep).last());
        assert(split_parts(x, sep).update(split_parts(x, sep).len() - 1, split_parts(x, sep).last())
            =~= split_parts(x, sep));
    } else {
        let y0 = y.drop_last();
        lemma_split_parts_extend(x, y0, sep);
        assert((x + y).drop_last() =~= x + y0);
        assert((x + y).last() == y.last());
        let parts = split_parts(x, sep);
        let parts2 = split_parts(x + y0, sep);
        assert(parts2 == parts.update(parts.len() - 1, parts.last() + y0));
        assert(parts2.len() == parts.len());
        assert(parts2.last() == parts.last() + y0);
        assert(y.last() != sep);
        assert(split_parts(x + y, sep) == parts2.update(parts2.len() - 1, parts2.last().push(y.last())));
        assert(parts.last() + y0 + seq![y.last()] =~= parts.last() + y);
        assert((parts.last() + y0).push(y.last()) =~= parts.last() + y);
        assert(split_parts(x + y, sep) =~= parts.update(parts.len() - 1, parts.last() + y));
    }
}

/// The parts of decimal codes joined by commas are the codes' texts.
proof fn lemma_codes_text_parts(codes: Seq<u16>, n: int)
    requires
        1 <= n <= codes.len(),
    ensures
        split_parts(codes_text(codes, n), ',') == Seq::new(n as nat, |i: int| nat_text(codes[i] as nat)),
    decreases n,
{
    let t = nat_text(codes[n - 1] as nat);
    crate::text::lemma_nat_text_digits(codes[n - 1] as nat);
    assert forall|i: int| 0 <= i < t.len() implies t[i] != ',' by {
        assert(is_digit(t[i]));
    }
    if n == 1 {
        lemma_split_parts_extend(Seq::<char>::empty(), t, ',');
        assert(Seq::<char>::empty() + t =~= t);
        assert(split_parts(Seq::<char>::empty(), ',') =~= seq![Seq::<char>::empty()]);
        assert(Seq::<char>::empty() + t =~= t);
        assert(split_parts(t, ',') =~= Seq::new(1, |i: int| nat_text(codes[i] as nat)));
    } else {
        lemma_codes_text_parts(codes, n - 1);
        let x = codes_text(codes, n - 1) + ","@;
        reveal_strlit(",");
        assert(x.drop_last() =~= codes_text(codes, n - 1));
        assert(x.last() == ',');
        lemma_split_parts_extend(x, t, ',');
        assert(codes_text(codes, n) == x + t);
        lemma_split_parts_len(x, ',');
        let px = split_parts(x, ',');
        assert(px.last() + t =~= t);
        assert(split_parts(codes_text(codes, n), ',') =~= Seq::new(n as nat, |i: int| nat_text(codes[i] as nat)));
    }
}

/// Parsing the texts of the first `n` codes gives those codes.
proof fn lemma_parse_code_texts(codes: Seq<u16>, n: int)
    requires
        0 <= n <= codes.len(),
    ensures
        parsed_codes(Seq::new(codes.len(), |i: int| nat_text(codes[i] as nat)), n) == codes.take(n),
    decreases n,
{
    let parts = Seq::new(codes.len(), |i: int| nat_text(codes[i] as nat));
    if n == 0 {
        assert(codes.take(0) =~= Seq::<u16>::empty());
    } else {
        lemma_parse_code_texts(codes, n - 1);
        let t = parts[n - 1];
        crate::text::lemma_nat_text_digits(codes[n - 1] as nat);
        assert(is_digit(t[0]));
        assert(parsed_int(t, 0, 65535, false) == Some(codes[n - 1] as int));
        assert(codes.take(n - 1).push(codes[n - 1]) =~= codes.take(n));
    }
}

/// The languages of a template are the codes written after its first
/// semicolon.
proof fn lemma_template_languages(arch: Seq<char>, codes: Seq<u16>)
    requires
        forall|i: int| 0 <= i < arch.len() ==> arch[i] != ';',
    ensures
        ({
            let t = arch + ";"@ + codes_text(codes, codes.len() as int);
            &&& arch_part(t) == arch
            &&& template_languages(t) == codes
        }),
{
    let rest = codes_text(codes, codes.len() as int);
    let t = arch + ";"@ + rest;
    reveal_strlit(";");
    lemma_first_semicolon(arch, rest);
    assert(t.take(arch.len() as int) =~= arch);
    assert(t.skip(arch.len() as int + 1) =~= rest);
    if codes.len() == 0 {
        assert(rest =~= Seq::<char>::empty());
        assert(split_parts(rest, ',') =~= seq![Seq::<char>::empty()]);
        assert(parsed_int(Seq::<char>::empty(), 0, 65535, false) is None);
        assert(languages_part(t) == Some(rest));
        let parts = split_parts(rest, ',');
        assert(parsed_codes(parts, 0) =~= Seq::<u16>::empty());
        assert(parsed_codes(parts, 1) =~= Seq::<u16>::empty());
        assert(template_languages(t) =~= codes);
    } else {
        lemma_codes_text_parts(codes, codes.len() as int);
        lemma_parse_code_texts(codes, codes.len() as int);
        assert(codes.take(codes.len() as int) =~= codes);
        assert(Seq::new(codes.len(), |i: int| nat_text(codes[i] as nat)) =~= Seq::new(
            codes.len() as nat,
            |i: int| nat_text(codes[i] as nat),
        ));
    }
}

/// In text without a semicolon followed by one, the first semicolon is
/// that one.
proof fn lemma_first_semicolon(arch: Seq<char>, rest: Seq<char>)
    requires
        forall|i: int| 0 <= i < arch.len() ==> arch[i] != ';',
    ensures
        first_index_of(arch + ";"@ + rest, ';') == Some(arch.len() as int),
{
    let t = arch + ";"@ + rest;
    reveal_strlit(";");
    assert(t[arch.len() as int] == ';');
    assert(is_first_of(t, ';', arch.len() as int));
    let c = choose|i: int| is_first_of(t, ';', i);
    if c < arch.len() {
        assert(t[c] == arch[c]);
    } else if c > arch.len() {
        assert(t[arch.len() as int] != ';');
    }
}

/// The architecture part of a template holds no semicolon.
proof fn lemma_arch_part_plain(t: Seq<char>)
    ensures
        forall|i: int| 0 <= i < arch_part(t).len() ==> arch_part(t)[i] != ';',
{
    if exists|i: int| 0 <= i < t.len() && t[i] == ';' {
        let k = choose|i: int| 0 <= i < t.len() && t[i] == ';';
        lemma_first_exists(t, ';', k);
        let c = choose|i: int| is_first_of(t, ';', i);
        assert(is_first_of(t, ';', c));
    }
}

/// A template whose languages part is empty has no languages.
proof fn lemma_no_languages(t: Seq<char>)
    requires
        languages_part(t) == Some(Seq::<char>::empty()),
    ensures
        template_languages(t) == Seq::<u16>::empty(),
{
    let parts = split_parts(Seq::<char>::empty(), ',');
    assert(parts =~= seq![Seq::<char>::empty()]);
    assert(parsed_int(Seq::<char>::empty(), 0, 65535, false) is None);
    assert(parsed_codes(parts, 0) =~= Seq::<u16>::empty());
    assert(parsed_codes(parts, 1) =~= Seq::<u16>::empty());
}

/// A character that occurs has a first occurrence.
proof fn lemma_first_exists(s: Seq<char>, c: char, k: int)
    requires
        0 <= k < s.len(),
        s[k] == c,
    ensures
        exists|i: int| is_first_of(s, c, i),
    decreases k,
{
    if exists|j: int| 0 <= j < k && s[j] == c {
        let j = choose|j: int| 0 <= j < k && s[j] == c;
        lemma_first_exists(s, c, j);
    } else {
        assert(is_first_of(s, c, k));
    }
}

/// The text with every leading `{` and every trailing `}` removed.
pub open spec fn trim_braces(s: Seq<char>) -> Seq<char>
    decreases s.len(),
{
    if s.len() > 0 && s[0] == '{' {
        trim_braces(s.drop_first())
    } else if s.len() > 0 && s.last() == '}' {
        trim_braces(s.drop_last())
    } else {
        s
    }
}

/// A universally unique identifier: sixteen bytes.
#[derive(Clone, Copy, Debug, Eq, Hash, PartialEq)]
pub struct Uuid(pub [u8; 16]);

impl Uuid {
    /// Creates a UUID from its sixteen bytes.
    pub fn from_bytes(bytes: [u8; 16]) -> (r: Uuid)
        ensures
            r.0 == bytes,
    {
        Uuid(bytes)
    }

    /// Returns the sixteen bytes of the UUID.
    pub fn as_bytes(&self) -> (r: [u8; 16])
        ensures
            r == self.0,
    {
        self.0
    }

    /// Parses a UUID from 32 hexadecimal digits, or from its hyphenated
    /// form, bare, in braces or after `urn:uuid:`.
    pub fn parse_str(text: &str) -> (r: Option<Uuid>)
        ensures
            match spec_parse_uuid(text@) {
                Some(b) => r matches Some(u) && u.0@ == b,
                None => r is None,
            },
    {
        match parse_uuid(text) {
            Some(bytes) => Some(Uuid(bytes)),
            None => None,
        }
    }
}

/// The upper-case hexadecimal digit of a number below sixteen.
pub open spec fn upper_hex_digit(n: int) -> char {
    if n < 10 {
        ('0' as int + n) as char
    } else {
        ('A' as int + n - 10) as char
    }
}

/// Bytes as upper-case hexadecimal digits, two a byte, high half first.
pub open spec fn upper_hex(b: Seq<u8>) -> Seq<char> {
    Seq::new(
        2 * b.len(),
        |i: int|
            if i % 2 == 0 {
                upper_hex_digit(b[i / 2] as int / 16)
            } else {
                upper_hex_digit(b[i / 2] as int % 16)
            },
    )
}

/// The sixteen bytes of a UUID as 32 upper-case hexadecimal digits in
/// groups of 8, 4, 4, 4 and 12 separated by hyphens.
pub open spec fn upper_hyphenated(b: Seq<u8>) -> Seq<char> {
    let h = upper_hex(b);
    h.subrange(0, 8) + "-"@ + h.subrange(8, 12) + "-"@ + h.subrange(12, 16) + "-"@ + h.subrange(16, 20) + "-"@
        + h.subrange(20, 32)
}

/// Formats a UUID with `uuid::fmt::Hyphenated`'s `UpperHex`: 32 upper-case
/// hexadecimal digits, two a byte with the high half first, in groups of
/// 8, 4, 4, 4 and 12 separated by hyphens (the crate's `format_simple` and
/// `format_hyphenated`).
#[verifier::external_body]
fn uuid_upper_hyphenated(bytes: [u8; 16]) -> (r: String)
    ensures
        r@ == upper_hyphenated(bytes@),
{
    format!("{:X}", uuid::Uuid::from_bytes(bytes).hyphenated())
}

/// The current system time (`SystemTime::now`).
#[verifier::external_body]
fn now() -> (r: SystemTime) {
    SystemTime::now()
}

/// Summary information (e.g. title, author) about an MSI package.
pub struct SummaryInfo {
    properties: PropertySet,
}

impl View for SummaryInfo {
    type V = PropertySetView;

    closed spec fn view(&self) -> PropertySetView {
        self.properties@
    }
}

/// Finds the first occurrence of a character.
fn find_char(s: &Vec<char>, c: char) -> (r: Option<usize>)
    ensures
        match first_index_of(s@, c) {
            Some(i) => r == Some(i as usize),
            None => r is None,
        },
        r matches Some(i) ==> is_first_of(s@, c, i as int),
{
    let mut i: usize = 0;
    while i < s.len()
        invariant
            i <= s@.len(),
            forall|k: int| 0 <= k < i ==> s@[k] != c,
        decreases s@.len() - i,
    {
        if s[i] == c {
            proof {
                assert(is_first_of(s@, c, i as int));
                let k = choose|k: int| is_first_of(s@, c, k);
                if k < i {
                    assert(s@[k] != c);
                } else if k > i {
                    assert(s@[i as int] != c);
                }
            }
            return Some(i);
        }
        i = i + 1;
    }
    None
}

/// Copies the characters from `start` up to `end`.
fn char_range(s: &Vec<char>, start: usize, end: usize) -> (r: Vec<char>)
    requires
        start <= end <= s@.len(),
    ensures
        r@ == s@.subrange(start as int, end as int),
{
    let mut out: Vec<char> = Vec::new();
    let mut i: usize = start;
    while i < end
        invariant
            start <= i <= end,
            end <= s@.len(),
            out@ == s@.subrange(start as int, i as int),
        decreases end - i,
    {
        out.push(s[i]);
        assert(out@ =~= s@.subrange(start as int, i + 1));
        i = i + 1;
    }
    out
}

impl SummaryInfo {
    /// Creates an empty `SummaryInfo` with no properties set but the code
    /// page, UTF-8.
    pub fn new() -> (r: SummaryInfo)
        ensures
            r@.os == OperatingSystem::Win32,
            r@.os_version == 10,
            r@.fmtid == spec_fmtid(),
            r@.clsid == Seq::new(16, |i: int| 0u8),
            r@.codepage == CodePage::Utf8,
            r@.properties == set_named(
                Seq::<(u32, PropertyValueView)>::empty(),
                PROPERTY_CODEPAGE,
                PropertyValueView::I2(codepage_id(CodePage::Utf8) as i16),
            ),
            names_increasing(r@.properties),
    {
        let properties = PropertySet::new(OperatingSystem::Win32, 10, fmtid());
        let mut summary = SummaryInfo { properties };
        summary.set_codepage(CodePage::Utf8);
        summary
    }

    /// Parses summary information.  Fails as parsing a property set does,
    /// and with `InvalidData` when the set has the wrong format identifier.
    pub fn read(data: &[u8]) -> (r: Result<SummaryInfo, Error>)
        ensures
            match spec_read_set(data@) {
                Ok(p) => if p.fmtid == spec_fmtid() {
                    r matches Ok(s) && s@ == p
                } else {
                    r matches Err(e) && e.kind == ErrorKind::InvalidData
                },
                Err(kind) => r matches Err(e) && e.kind == kind,
            },
            r matches Ok(s) ==> names_increasing(s@.properties),
    {
        let properties = match PropertySet::read(data) {
            Ok(p) => p,
            Err(e) => {
                return Err(e);
            },
        };
        let id = properties.format_identifier();
        let expected = fmtid();
        let mut i: usize = 0;
        while i < 16
            invariant
                i <= 16,
                id@.len() == 16,
                id@ == properties@.fmtid,
                spec_read_set(data@) == Ok::<PropertySetView, ErrorKind>(properties@),
                expected@ == spec_fmtid(),
                forall|k: int| 0 <= k < i ==> id@[k] == expected@[k],
            decreases 16 - i,
        {
            if id[i] != expected[i] {
                return Err(Error::with_text(ErrorKind::InvalidData, "Property set has wrong format identifier"));
            }
            i = i + 1;
        }
        assert(id@ =~= spec_fmtid());
        Ok(SummaryInfo { properties })
    }

    /// Serializes the summary information.  Fails with `InvalidInput` when
    /// the property set cannot be written.
    pub fn write(&self) -> (r: Result<Vec<u8>, Error>)
        ensures
            r is Ok <==> can_write_set(self@),
            r matches Ok(b) ==> b@ == spec_set_bytes(self@),
            r matches Err(e) ==> e.kind == ErrorKind::InvalidInput,
    {
        self.properties.write()
    }

    /// Gets a string property, if it is set to a string.
    fn string_property(&self, name: u32) -> (r: Option<&str>)
        ensures
            match string_property(self@, name) {
                Some(s) => r matches Some(x) && x@ == s,
                None => r is None,
            },
    {
        match self.properties.get(name) {
            Some(PropertyValue::LpStr(s)) => Some(s.as_str()),
            _ => None,
        }
    }

    /// Gets the architecture string from the "template" property, if one is
    /// set.  This indicates the hardware architecture that this package is
    /// intended for (e.g. `"x64"`).
    pub fn arch(&self) -> (r: Option<String>)
        ensures
            match string_property(self@, PROPERTY_TEMPLATE) {
                Some(t) => if arch_part(t).len() == 0 {
                    r is None
                } else {
                    r matches Some(a) && a@ == arch_part(t)
                },
                None => r is None,
            },
    {
        match self.string_property(PROPERTY_TEMPLATE) {
            Some(template) => {
                let chars = chars_of(template);
                let arch = match find_char(&chars, ';') {
                    Some(i) => char_range(&chars, 0, i),
                    None => chars,
                };
                assert(chars@.subrange(0, arch@.len() as int) =~= chars@.take(arch@.len() as int));
                if arch.len() == 0 {
                    None
                } else {
                    Some(string_from_chars(arch.as_slice()))
                }
            },
            None => None,
        }
    }

    /// Sets the architecture string in the "template" property, keeping its
    /// languages.
    pub fn set_arch(&mut self, arch: &str)
        ensures
            final(self)@.properties == set_named(
                old(self)@.properties,
                PROPERTY_TEMPLATE,
                PropertyValueView::LpStr(
                    arch@ + ";"@ + match string_property(old(self)@, PROPERTY_TEMPLATE) {
                        Some(t) => match languages_part(t) {
                            Some(l) => l,
                            None => Seq::empty(),
                        },
                        None => Seq::empty(),
                    },
                ),
            ),
            final(self)@.codepage == old(self)@.codepage,
            final(self)@.fmtid == old(self)@.fmtid,
            final(self)@.os == old(self)@.os,
            final(self)@.os_version == old(self)@.os_version,
            final(self)@.clsid == old(self)@.clsid,
            names_increasing(old(self)@.properties),
            names_increasing(final(self)@.properties),
            (forall|i: int| 0 <= i < arch@.len() ==> arch@[i] != ';') ==> (string_property(
                final(self)@,
                PROPERTY_TEMPLATE,
            ) matches Some(t) && arch_part(t) == arch@ && template_languages(t) == match string_property(
                old(self)@,
                PROPERTY_TEMPLATE,
            ) {
                Some(o) => template_languages(o),
                None => Seq::empty(),
            }),
    {
        let langs: Vec<char> = match self.string_property(PROPERTY_TEMPLATE) {
            Some(template) => {
                let chars = chars_of(template);
                match find_char(&chars, ';') {
                    Some(i) => {
                        assert(is_first_of(chars@, ';', i as int));
                        let n = chars.len();
                        let rest = char_range(&chars, i + 1, n);
                        assert(rest@ =~= chars@.skip(i + 1));
                        rest
                    },
                    None => Vec::new(),
                }
            },
            None => Vec::new(),
        };
        let mut template = chars_of(arch);
        template.push(';');
        crate::text::append_chars(&mut template, &langs);
        proof {
            reveal_strlit(";");
        }
        let text = string_from_chars(template.as_slice());
        assert(text@ =~= arch@ + ";"@ + langs@);
        proof {
            if forall|i: int| 0 <= i < arch@.len() ==> arch@[i] != ';' {
                lemma_first_semicolon(arch@, langs@);
                let t = text@;
                assert(t.take(arch@.len() as int) =~= arch@);
                assert(t.skip(arch@.len() as int + 1) =~= langs@);
                assert(languages_part(t) == Some(langs@));
                if langs@.len() == 0 {
                    assert(langs@ =~= Seq::<char>::empty());
                    lemma_no_languages(t);
                    if let Some(o) = string_property(self@, PROPERTY_TEMPLATE) {
                        if let Some(l) = languages_part(o) {
                            assert(l == langs@);
                            lemma_no_languages(o);
                        }
                    }
                }
            }
        }
        self.properties.set(PROPERTY_TEMPLATE, PropertyValue::LpStr(text));
    }

    /// Clears the architecture string in the "template" property.
    pub fn clear_arch(&mut self)
        ensures
            final(self)@.properties == set_named(
                old(self)@.properties,
                PROPERTY_TEMPLATE,
                PropertyValueView::LpStr(
                    ";"@ + match string_property(old(self)@, PROPERTY_TEMPLATE) {
                        Some(t) => match languages_part(t) {
                            Some(l) => l,
                            None => Seq::empty(),
                        },
                        None => Seq::empty(),
                    },
                ),
            ),
            final(self)@.codepage == old(self)@.codepage,
            final(self)@.fmtid == old(self)@.fmtid,
            final(self)@.os == old(self)@.os,
            final(self)@.os_version == old(self)@.os_version,
            final(self)@.clsid == old(self)@.clsid,
            names_increasing(old(self)@.properties),
            names_increasing(final(self)@.properties),
    {
        proof {
            reveal_strlit("");
        }
        self.set_arch("");
        assert(""@ + ";"@ =~= ";"@);
    }

    /// Gets the "author" property, if one is set.  This indicates the name of
    /// the person or company that created the package.
    pub fn author(&self) -> (r: Option<&str>)
        ensures
            match string_property(self@, PROPERTY_AUTHOR) {
                Some(s) => r matches Some(x) && x@ == s,
                None => r is None,
            },
    {
        self.string_property(PROPERTY_AUTHOR)
    }

    /// Sets the "author" property.
    pub fn set_author(&mut self, author: &str)
        ensures
            final(self)@.properties == set_named(
                old(self)@.properties,
                PROPERTY_AUTHOR,
                PropertyValueView::LpStr(author@),
            ),
            final(self)@.codepage == old(self)@.codepage,
            final(self)@.fmtid == old(self)@.fmtid,
            final(self)@.os == old(self)@.os,
            final(self)@.os_version == old(self)@.os_version,
            final(self)@.clsid == old(self)@.clsid,
            names_increasing(old(self)@.properties),
            names_increasing(final(self)@.properties),
    {
        self.properties.set(PROPERTY_AUTHOR, PropertyValue::LpStr(author.to_owned()));
    }

    /// Clears the "author" property.
    pub fn clear_author(&mut self)
        ensures
            final(self)@.properties == remove_named(old(self)@.properties, PROPERTY_AUTHOR),
            final(self)@.codepage == old(self)@.codepage,
            final(self)@.fmtid == old(self)@.fmtid,
            final(self)@.os == old(self)@.os,
            final(self)@.os_version == old(self)@.os_version,
            final(self)@.clsid == old(self)@.clsid,
            names_increasing(old(self)@.properties),
            names_increasing(final(self)@.properties),
    {
        self.properties.remove(PROPERTY_AUTHOR);
    }

    /// Gets the code page used for serializing this summary info.
    pub fn codepage(&self) -> (r: CodePage)
        ensures
            r == self@.codepage,
    {
        self.properties.codepage()
    }

    /// Sets the code page used for serializing this summary info.
    pub fn set_codepage(&mut self, codepage: CodePage)
        ensures
            final(self)@.codepage == codepage,
            final(self)@.properties == set_named(
                old(self)@.properties,
                PROPERTY_CODEPAGE,
                PropertyValueView::I2(codepage_id(codepage) as i16),
            ),
            final(self)@.fmtid == old(self)@.fmtid,
            final(self)@.os == old(self)@.os,
            final(self)@.os_version == old(self)@.os_version,
            final(self)@.clsid == old(self)@.clsid,
            names_increasing(old(self)@.properties),
            names_increasing(final(self)@.properties),
    {
        self.properties.set_codepage(codepage);
    }

    /// Gets the "comments" property, if one is set.  This typically gives a
    /// brief description of the application/software that will be installed
    /// by the package.
    pub fn comments(&self) -> (r: Option<&str>)
        ensures
            match string_property(self@, PROPERTY_COMMENTS) {
                Some(s) => r matches Some(x) && x@ == s,
                None => r is None,
            },
    {
        self.string_property(PROPERTY_COMMENTS)
    }

    /// Sets the "comments" property.
    pub fn set_comments(&mut self, comments: &str)
        ensures
            final(self)@.properties == set_named(
                old(self)@.properties,
                PROPERTY_COMMENTS,
                PropertyValueView::LpStr(comments@),
            ),
            final(self)@.codepage == old(self)@.codepage,
            final(self)@.fmtid == old(self)@.fmtid,
            final(self)@.os == old(self)@.os,
            final(self)@.os_version == old(self)@.os_version,
            final(self)@.clsid == old(self)@.clsid,
            names_increasing(old(self)@.properties),
            names_increasing(final(self)@.properties),
    {
        self.properties.set(PROPERTY_COMMENTS, PropertyValue::LpStr(comments.to_owned()));
    }

    /// Clears the "comments" property.
    pub fn clear_comments(&mut self)
        ensures
            final(self)@.properties == remove_named(old(self)@.properties, PROPERTY_COMMENTS),
            final(self)@.codepage == old(self)@.codepage,
            final(self)@.fmtid == old(self)@.fmtid,
            final(self)@.os == old(self)@.os,
            final(self)@.os_version == old(self)@.os_version,
            final(self)@.clsid == old(self)@.clsid,
            names_increasing(old(self)@.properties),
            names_increasing(final(self)@.properties),
    {
        self.properties.remove(PROPERTY_COMMENTS);
    }

    /// Gets the "creating application" property, if one is set.  This
    /// indicates the name of the software application/tool that was used to
    /// create the package.
    pub fn creating_application(&self) -> (r: Option<&str>)
        ensures
            match string_property(self@, PROPERTY_CREATING_APP) {
                Some(s) => r matches Some(x) && x@ == s,
                None => r is None,
            },
    {
        self.string_property(PROPERTY_CREATING_APP)
    }

    /// Sets the "creating application" property.
    pub fn set_creating_application(&mut self, app_name: &str)
        ensures
            final(self)@.properties == set_named(
                old(self)@.properties,
                PROPERTY_CREATING_APP,
                PropertyValueView::LpStr(app_name@),
            ),
            final(self)@.codepage == old(self)@.codepage,
            final(self)@.fmtid == old(self)@.fmtid,
            final(self)@.os == old(self)@.os,
            final(self)@.os_version == old(self)@.os_version,
            final(self)@.clsid == old(self)@.clsid,
            names_increasing(old(self)@.properties),
            names_increasing(final(self)@.properties),
    {
        self.properties.set(PROPERTY_CREATING_APP, PropertyValue::LpStr(app_name.to_owned()));
    }

    /// Clears the "creating application" property.
    pub fn clear_creating_application(&mut self)
        ensures
            final(self)@.properties == remove_named(old(self)@.properties, PROPERTY_CREATING_APP),
            final(self)@.codepage == old(self)@.codepage,
            final(self)@.fmtid == old(self)@.fmtid,
            final(self)@.os == old(self)@.os,
            final(self)@.os_version == old(self)@.os_version,
            final(self)@.clsid == old(self)@.clsid,
            names_increasing(old(self)@.properties),
            names_increasing(final(self)@.properties),
    {
        self.properties.remove(PROPERTY_CREATING_APP);
    }

    /// Gets the "creation time" property as a Windows `FILETIME`, if one is
    /// set.
    pub fn creation_filetime(&self) -> (r: Option<u64>)
        ensures
            match lookup(self@.properties, PROPERTY_CREATION_TIME) {
                Some(PropertyValueView::FileTime(t)) => r == Some(t),
                _ => r is None,
            },
    {
        match self.properties.get(PROPERTY_CREATION_TIME) {
            Some(PropertyValue::FileTime(timestamp)) => Some(*timestamp),
            _ => None,
        }
    }

    /// Gets the "creation time" property, if one is set.  This indicates the
    /// date/time when the package was created.
    pub fn creation_time(&self) -> (r: Option<UnixTime>)
        ensures
            match lookup(self@.properties, PROPERTY_CREATION_TIME) {
                Some(PropertyValueView::FileTime(t)) => r == Some(spec_time_of_filetime(t)),
                _ => r is None,
            },
    {
        match self.creation_filetime() {
            Some(timestamp) => Some(system_time_from_filetime(timestamp)),
            None => None,
        }
    }

    /// Sets the "creation time" property, as a Windows `FILETIME`.
    pub fn set_creation_filetime(&mut self, timestamp: u64)
        ensures
            final(self)@.properties == set_named(
                old(self)@.properties,
                PROPERTY_CREATION_TIME,
                PropertyValueView::FileTime(timestamp),
            ),
            final(self)@.codepage == old(self)@.codepage,
            final(self)@.fmtid == old(self)@.fmtid,
            final(self)@.os == old(self)@.os,
            final(self)@.os_version == old(self)@.os_version,
            final(self)@.clsid == old(self)@.clsid,
            names_increasing(old(self)@.properties),
            names_increasing(final(self)@.properties),
    {
        self.properties.set(PROPERTY_CREATION_TIME, PropertyValue::FileTime(timestamp));
    }

    /// Sets the "creation time" property.
    pub fn set_creation_time(&mut self, timestamp: UnixTime)
        ensures
            final(self)@.properties == set_named(
                old(self)@.properties,
                PROPERTY_CREATION_TIME,
                PropertyValueView::FileTime(spec_filetime(timestamp.after, timestamp.secs, timestamp.nanos) as u64),
            ),
            final(self)@.codepage == old(self)@.codepage,
            final(self)@.fmtid == old(self)@.fmtid,
            final(self)@.os == old(self)@.os,
            final(self)@.os_version == old(self)@.os_version,
            final(self)@.clsid == old(self)@.clsid,
            names_increasing(old(self)@.properties),
            names_increasing(final(self)@.properties),
    {
        self.set_creation_filetime(filetime_from_system_time(timestamp));
    }

    /// Sets the "creation time" property to the current time.
    pub fn set_creation_time_to_now(&mut self)
        ensures
            exists|t: UnixTime|
                t.nanos < 1_000_000_000 && final(self)@.properties == set_named(
                    old(self)@.properties,
                    PROPERTY_CREATION_TIME,
                    PropertyValueView::FileTime(spec_filetime(t.after, t.secs, t.nanos) as u64),
                ),
            final(self)@.codepage == old(self)@.codepage,
            final(self)@.fmtid == old(self)@.fmtid,
            final(self)@.os == old(self)@.os,
            final(self)@.os_version == old(self)@.os_version,
            final(self)@.clsid == old(self)@.clsid,
            names_increasing(old(self)@.properties),
            names_increasing(final(self)@.properties),
    {
        self.set_creation_time(UnixTime::from_system_time(now()));
    }

    /// Clears the "creation time" property.
    pub fn clear_creation_time(&mut self)
        ensures
            final(self)@.properties == remove_named(old(self)@.properties, PROPERTY_CREATION_TIME),
            final(self)@.codepage == old(self)@.codepage,
            final(self)@.fmtid == old(self)@.fmtid,
            final(self)@.os == old(self)@.os,
            final(self)@.os_version == old(self)@.os_version,
            final(self)@.clsid == old(self)@.clsid,
            names_increasing(old(self)@.properties),
            names_increasing(final(self)@.properties),
    {
        self.properties.remove(PROPERTY_CREATION_TIME);
    }

    /// Gets the list of languages from the "template" property, if one is
    /// set.  This indicates the languages that this package supports.
    pub fn languages(&self) -> (r: Vec<LanguageId>)
        ensures
            r@.map_values(|l: LanguageId| l@) == match string_property(self@, PROPERTY_TEMPLATE) {
                Some(t) => template_languages(t),
                None => Seq::empty(),
            },
    {
        let mut result: Vec<LanguageId> = Vec::new();
        match self.string_property(PROPERTY_TEMPLATE) {
            Some(template) => {
                let chars = chars_of(template);
                match find_char(&chars, ';') {
                    Some(i) => {
                        assert(is_first_of(chars@, ';', i as int));
                        let n = chars.len();
                        let rest = char_range(&chars, i + 1, n);
                        assert(rest@ =~= chars@.skip(i + 1));
                        let parts = split_on(rest.as_slice(), ',');
                        let ghost sp = split_parts(rest@, ',');
                        let mut k: usize = 0;
                        while k < parts.len()
                            invariant
                                k <= parts@.len(),
                                parts@.len() == sp.len(),
                                forall|m: int| 0 <= m < parts@.len() ==> (#[trigger] parts@[m])@ == sp[m],
                                result@.map_values(|l: LanguageId| l@) == parsed_codes(sp, k as int),
                            decreases parts@.len() - k,
                        {
                            let ghost before = result@;
                            match parse_int(parts[k].as_slice(), 0, 65535, false) {
                                Some(code) => {
                                    let language = LanguageId::from_id(code as u16);
                                    result.push(language);
                                    assert(result@.map_values(|l: LanguageId| l@) =~= before.map_values(
                                        |l: LanguageId| l@,
                                    ).push(code as u16));
                                },
                                None => {},
                            }
                            k = k + 1;
                        }
                        result
                    },
                    None => {
                        assert(result@.map_values(|l: LanguageId| l@) =~= Seq::<u16>::empty());
                        result
                    },
                }
            },
            None => {
                assert(result@.map_values(|l: LanguageId| l@) =~= Seq::<u16>::empty());
                result
            },
        }
    }

    /// Sets the list of languages in the "template" property, keeping its
    /// architecture.
    pub fn set_languages(&mut self, languages: &[LanguageId])
        ensures
            final(self)@.properties == set_named(
                old(self)@.properties,
                PROPERTY_TEMPLATE,
                PropertyValueView::LpStr(
                    match string_property(old(self)@, PROPERTY_TEMPLATE) {
                        Some(t) => arch_part(t),
                        None => Seq::empty(),
                    } + ";"@ + codes_text(
                        languages@.map_values(|l: LanguageId| l@),
                        languages@.len() as int,
                    ),
                ),
            ),
            final(self)@.codepage == old(self)@.codepage,
            final(self)@.fmtid == old(self)@.fmtid,
            final(self)@.os == old(self)@.os,
            final(self)@.os_version == old(self)@.os_version,
            final(self)@.clsid == old(self)@.clsid,
            names_increasing(old(self)@.properties),
            names_increasing(final(self)@.properties),
            string_property(final(self)@, PROPERTY_TEMPLATE) matches Some(t) && template_languages(t)
                == languages@.map_values(|l: LanguageId| l@) && arch_part(t) == match string_property(
                old(self)@,
                PROPERTY_TEMPLATE,
            ) {
                Some(o) => arch_part(o),
                None => Seq::empty(),
            },
    {
        let ghost codes = languages@.map_values(|l: LanguageId| l@);
        let mut template: Vec<char> = match self.string_property(PROPERTY_TEMPLATE) {
            Some(template) => {
                let chars = chars_of(template);
                match find_char(&chars, ';') {
                    Some(i) => {
                        assert(is_first_of(chars@, ';', i as int));
                        let arch = char_range(&chars, 0, i);
                        assert(arch@ =~= chars@.take(i as int));
                        arch
                    },
                    None => chars,
                }
            },
            None => Vec::new(),
        };
        assert(template@ == match string_property(self@, PROPERTY_TEMPLATE) {
            Some(t) => arch_part(t),
            None => Seq::<char>::empty(),
        });
        template.push(';');
        let ghost prefix = template@;
        proof {
            reveal_strlit(";");
        }
        let mut k: usize = 0;
        while k < languages.len()
            invariant
                k <= languages@.len(),
                codes == languages@.map_values(|l: LanguageId| l@),
                template@ == prefix + codes_text(codes, k as int),
            decreases languages@.len() - k,
        {
            if k > 0 {
                template.push(',');
            }
            let digits = chars_of(languages[k].to_string().as_str());
            crate::text::append_chars(&mut template, &digits);
            proof {
                reveal_strlit(",");
            }
            assert(template@ =~= prefix + codes_text(codes, k + 1));
            k = k + 1;
        }
        proof {
            reveal_strlit(";");
        }
        let text = string_from_chars(template.as_slice());
        assert(text@ == prefix + codes_text(codes, languages@.len() as int));
        assert(prefix == match string_property(self@, PROPERTY_TEMPLATE) {
            Some(t) => arch_part(t),
            None => Seq::<char>::empty(),
        } + ";"@);
        proof {
            let old_arch = match string_property(self@, PROPERTY_TEMPLATE) {
                Some(t) => arch_part(t),
                None => Seq::<char>::empty(),
            };
            if let Some(t) = string_property(self@, PROPERTY_TEMPLATE) {
                lemma_arch_part_plain(t);
            }
            lemma_template_languages(old_arch, codes);
            assert(codes.len() == languages@.len());
        }
        self.properties.set(PROPERTY_TEMPLATE, PropertyValue::LpStr(text));
    }

    /// Clears the list of languages in the "template" property.
    pub fn clear_languages(&mut self)
        ensures
            final(self)@.properties == set_named(
                old(self)@.properties,
                PROPERTY_TEMPLATE,
                PropertyValueView::LpStr(
                    match string_property(old(self)@, PROPERTY_TEMPLATE) {
                        Some(t) => arch_part(t),
                        None => Seq::empty(),
                    } + ";"@,
                ),
            ),
            final(self)@.codepage == old(self)@.codepage,
            final(self)@.fmtid == old(self)@.fmtid,
            final(self)@.os == old(self)@.os,
            final(self)@.os_version == old(self)@.os_version,
            final(self)@.clsid == old(self)@.clsid,
            names_increasing(old(self)@.properties),
            names_increasing(final(self)@.properties),
            string_property(final(self)@, PROPERTY_TEMPLATE) matches Some(t) && template_languages(t)
                == Seq::<u16>::empty() && arch_part(t) == match string_property(old(self)@, PROPERTY_TEMPLATE) {
                Some(o) => arch_part(o),
                None => Seq::empty(),
            },
    {
        let none: Vec<LanguageId> = Vec::new();
        self.set_languages(none.as_slice());
        assert(codes_text(Seq::<u16>::empty(), 0) =~= Seq::<char>::empty());
        assert(none@.map_values(|l: LanguageId| l@) =~= Seq::<u16>::empty());
    }

    /// Gets the "subject" property, if one is set.  This typically indicates
    /// the name of the application/software that will be installed by the
    /// package.
    pub fn subject(&self) -> (r: Option<&str>)
        ensures
            match string_property(self@, PROPERTY_SUBJECT) {
                Some(s) => r matches Some(x) && x@ == s,
                None => r is None,
            },
    {
        self.string_property(PROPERTY_SUBJECT)
    }

    /// Sets the "subject" property.
    pub fn set_subject(&mut self, subject: &str)
        ensures
            final(self)@.properties == set_named(
                old(self)@.properties,
                PROPERTY_SUBJECT,
                PropertyValueView::LpStr(subject@),
            ),
            final(self)@.codepage == old(self)@.codepage,
            final(self)@.fmtid == old(self)@.fmtid,
            final(self)@.os == old(self)@.os,
            final(self)@.os_version == old(self)@.os_version,
            final(self)@.clsid == old(self)@.clsid,
            names_increasing(old(self)@.properties),
            names_increasing(final(self)@.properties),
    {
        self.properties.set(PROPERTY_SUBJECT, PropertyValue::LpStr(subject.to_owned()));
    }

    /// Clears the "subject" property.
    pub fn clear_subject(&mut self)
        ensures
            final(self)@.properties == remove_named(old(self)@.properties, PROPERTY_SUBJECT),
            final(self)@.codepage == old(self)@.codepage,
            final(self)@.fmtid == old(self)@.fmtid,
            final(self)@.os == old(self)@.os,
            final(self)@.os_version == old(self)@.os_version,
            final(self)@.clsid == old(self)@.clsid,
            names_increasing(old(self)@.properties),
            names_increasing(final(self)@.properties),
    {
        self.properties.remove(PROPERTY_SUBJECT);
    }

    /// Gets the "title" property, if one is set.  This indicates the type of
    /// the installer package (e.g. "Installation Database" or "Patch").
    pub fn title(&self) -> (r: Option<&str>)
        ensures
            match string_property(self@, PROPERTY_TITLE) {
                Some(s) => r matches Some(x) && x@ == s,
                None => r is None,
            },
    {
        self.string_property(PROPERTY_TITLE)
    }

    /// Sets the "title" property.
    pub fn set_title(&mut self, title: &str)
        ensures
            final(self)@.properties == set_named(
                old(self)@.properties,
                PROPERTY_TITLE,
                PropertyValueView::LpStr(title@),
            ),
            final(self)@.codepage == old(self)@.codepage,
            final(self)@.fmtid == old(self)@.fmtid,
            final(self)@.os == old(self)@.os,
            final(self)@.os_version == old(self)@.os_version,
            final(self)@.clsid == old(self)@.clsid,
            names_increasing(old(self)@.properties),
            names_increasing(final(self)@.properties),
    {
        self.properties.set(PROPERTY_TITLE, PropertyValue::LpStr(title.to_owned()));
    }

    /// Clears the "title" property.
    pub fn clear_title(&mut self)
        ensures
            final(self)@.properties == remove_named(old(self)@.properties, PROPERTY_TITLE),
            final(self)@.codepage == old(self)@.codepage,
            final(self)@.fmtid == old(self)@.fmtid,
            final(self)@.os == old(self)@.os,
            final(self)@.os_version == old(self)@.os_version,
            final(self)@.clsid == old(self)@.clsid,
            names_increasing(old(self)@.properties),
            names_increasing(final(self)@.properties),
    {
        self.properties.remove(PROPERTY_TITLE);
    }

    /// Gets the text of the "UUID" property without its braces, if the
    /// property is set to a string.
    pub fn uuid_text(&self) -> (r: Option<String>)
        ensures
            match string_property(self@, PROPERTY_UUID) {
                Some(s) => r matches Some(x) && x@ == trim_braces(s),
                None => r is None,
            },
    {
        match self.string_property(PROPERTY_UUID) {
            Some(string) => {
                let chars = chars_of(string);
                let mut start: usize = 0;
                let mut end: usize = chars.len();
                proof {
                    assert(chars@.subrange(0, chars@.len() as int) =~= chars@);
                }
                while start < end && chars[start] == '{'
                    invariant
                        start <= end <= chars@.len(),
                        end == chars@.len(),
                        trim_braces(chars@.subrange(start as int, end as int)) == trim_braces(chars@),
                    decreases end - start,
                {
                    assert(chars@.subrange(start as int, end as int).drop_first() =~= chars@.subrange(
                        start + 1,
                        end as int,
                    ));
                    start = start + 1;
                }
                while start < end && chars[end - 1] == '}'
                    invariant
                        start <= end <= chars@.len(),
                        start == end || chars@[start as int] != '{',
                        trim_braces(chars@.subrange(start as int, end as int)) == trim_braces(chars@),
                    decreases end - start,
                {
                    assert(chars@.subrange(start as int, end as int).drop_last() =~= chars@.subrange(
                        start as int,
                        end - 1,
                    ));
                    end = end - 1;
                }
                let trimmed = char_range(&chars, start, end);
                Some(string_from_chars(trimmed.as_slice()))
            },
            None => None,
        }
    }

    /// Gets the "UUID" property, if it is set to the text of a UUID
    /// (braces around it are ignored).
    pub fn uuid(&self) -> (r: Option<Uuid>)
        ensures
            match string_property(self@, PROPERTY_UUID) {
                Some(s) => match spec_parse_uuid(trim_braces(s)) {
                    Some(b) => r matches Some(u) && u.0@ == b,
                    None => r is None,
                },
                None => r is None,
            },
    {
        match self.uuid_text() {
            Some(text) => Uuid::parse_str(text.as_str()),
            None => None,
        }
    }

    /// Sets the "UUID" property: the UUID in upper case, in braces.
    pub fn set_uuid(&mut self, uuid: Uuid)
        ensures
            final(self)@.properties == set_named(
                old(self)@.properties,
                PROPERTY_UUID,
                PropertyValueView::LpStr("{"@ + upper_hyphenated(uuid.0@) + "}"@),
            ),
            final(self)@.codepage == old(self)@.codepage,
            final(self)@.fmtid == old(self)@.fmtid,
            final(self)@.os == old(self)@.os,
            final(self)@.os_version == old(self)@.os_version,
            final(self)@.clsid == old(self)@.clsid,
            names_increasing(old(self)@.properties),
            names_increasing(final(self)@.properties),
    {
        let text = uuid_upper_hyphenated(uuid.0);
        let braced = crate::text::concat3("{", text.as_str(), "}");
        self.properties.set(PROPERTY_UUID, PropertyValue::LpStr(braced));
    }

    /// Clears the "UUID" property.
    pub fn clear_uuid(&mut self)
        ensures
            final(self)@.properties == remove_named(old(self)@.properties, PROPERTY_UUID),
            final(self)@.codepage == old(self)@.codepage,
            final(self)@.fmtid == old(self)@.fmtid,
            final(self)@.os == old(self)@.os,
            final(self)@.os_version == old(self)@.os_version,
            final(self)@.clsid == old(self)@.clsid,
            names_increasing(old(self)@.properties),
            names_increasing(final(self)@.properties),
    {
        self.properties.remove(PROPERTY_UUID);
    }

    /// Gets the "Word Count" property, if one is set.
    pub fn word_count(&self) -> (r: Option<i32>)
        ensures
            match lookup(self@.properties, PROPERTY_WORD_COUNT) {
                Some(PropertyValueView::I4(n)) => r == Some(n),
                _ => r is None,
            },
    {
        match self.properties.get(PROPERTY_WORD_COUNT) {
            Some(PropertyValue::I4(word_count)) => Some(*word_count),
            _ => None,
        }
    }

    /// Sets the "Word Count" property.
    pub fn set_word_count(&mut self, word_count: i32)
        ensures
            final(self)@.properties == set_named(
                old(self)@.properties,
                PROPERTY_WORD_COUNT,
                PropertyValueView::I4(word_count),
            ),
            final(self)@.codepage == old(self)@.codepage,
            final(self)@.fmtid == old(self)@.fmtid,
            final(self)@.os == old(self)@.os,
            final(self)@.os_version == old(self)@.os_version,
            final(self)@.clsid == old(self)@.clsid,
            names_increasing(old(self)@.properties),
            names_increasing(final(self)@.properties),
    {
        self.properties.set(PROPERTY_WORD_COUNT, PropertyValue::I4(word_count));
    }

    /// Clears the "Word Count" property.
    pub fn clear_word_count(&mut self)
        ensures
            final(self)@.properties == remove_named(old(self)@.properties, PROPERTY_WORD_COUNT),
            final(self)@.codepage == old(self)@.codepage,
            final(self)@.fmtid == old(self)@.fmtid,
            final(self)@.os == old(self)@.os,
            final(self)@.os_version == old(self)@.os_version,
            final(self)@.clsid == old(self)@.clsid,
            names_increasing(old(self)@.properties),
            names_increasing(final(self)@.properties),
    {
        self.properties.remove(PROPERTY_WORD_COUNT);
    }
}

/// An upper-case hexadecimal digit reads back as the number it stands for.
proof fn lemma_upper_hex_digit(n: int)
    requires
        0 <= n < 16,
    ensures
        crate::category::hex_value(upper_hex_digit(n)) == Some(n),
        !crate::category::is_lower(upper_hex_digit(n)),
        crate::category::char_byte_len(upper_hex_digit(n)) == 1,
{
    if n < 10 {
        assert(upper_hex_digit(n) as int == 48 + n);
    } else {
        assert(upper_hex_digit(n) as int == 65 + n - 10);
    }
}

/// The text of a UUID in upper case, hyphenated, reads back as the UUID:
/// parsing it gives its sixteen bytes, and in braces it is a valid `Guid`.
pub proof fn lemma_uuid_text_round_trip(b: Seq<u8>)
    requires
        b.len() == 16,
    ensures
        spec_parse_uuid(upper_hyphenated(b)) == Some(b),
        crate::category::spec_validate(
            crate::category::Category::Guid,
            "{"@ + upper_hyphenated(b) + "}"@,
        ),
{
    reveal_strlit("-");
    reveal_strlit("{");
    reveal_strlit("}");
    let h = upper_hex(b);
    let s = upper_hyphenated(b);
    assert(s.len() == 36);
    assert forall|i: int| 0 <= i < 32 implies (#[trigger] crate::category::hex_value(h[i])) is Some by {
        if i % 2 == 0 {
            lemma_upper_hex_digit(b[i / 2] as int / 16);
        } else {
            lemma_upper_hex_digit(b[i / 2] as int % 16);
        }
    }
    let d = s.subrange(0, 8) + s.subrange(9, 13) + s.subrange(14, 18) + s.subrange(19, 23) + s.subrange(24, 36);
    assert(d =~= h);
    let bytes = Seq::new(
        16,
        |j: int| (crate::category::hex_value(h[2 * j]).unwrap() * 16 + crate::category::hex_value(
            h[2 * j + 1],
        ).unwrap()) as u8,
    );
    assert forall|j: int| 0 <= j < 16 implies bytes[j] == b[j] by {
        lemma_upper_hex_digit(b[j] as int / 16);
        lemma_upper_hex_digit(b[j] as int % 16);
        assert((2 * j) / 2 == j);
        assert((2 * j + 1) / 2 == j);
        assert((2 * j) % 2 == 0);
        assert((2 * j + 1) % 2 == 1);
        assert((b[j] as int / 16) * 16 + b[j] as int % 16 == b[j] as int);
    }
    assert(bytes =~= b);
    let g = "{"@ + s + "}"@;
    assert(g.subrange(1, g.len() - 1) =~= s);
    assert forall|i: int| 0 <= i < g.len() implies !crate::category::is_lower(#[trigger] g[i])
        && crate::category::char_byte_len(g[i]) == 1 by {
        if 1 <= i < 37 {
            let k = i - 1;
            assert(g[i] == s[k]);
            if k == 8 || k == 13 || k == 18 || k == 23 {
            } else {
                let hi = if k < 8 { k } else if k < 13 { k - 1 } else if k < 18 { k - 2 } else if k < 23 { k - 3 } else { k - 4 };
                assert(s[k] == h[hi]);
                if hi % 2 == 0 {
                    lemma_upper_hex_digit(b[hi / 2] as int / 16);
                } else {
                    lemma_upper_hex_digit(b[hi / 2] as int % 16);
                }
            }
        }
    }
    lemma_ascii_byte_len(g);
    assert(g[0] == '{');
    assert(g.last() == '}');
}

/// Text of characters that take one byte each takes as many bytes as it
/// has characters.
proof fn lemma_ascii_byte_len(s: Seq<char>)
    requires
        forall|i: int| 0 <= i < s.len() ==> crate::category::char_byte_len(#[trigger] s[i]) == 1,
    ensures
        crate::category::byte_len(s) == s.len(),
    decreases s.len(),
{
    if s.len() > 0 {
        assert forall|i: int| 0 <= i < s.drop_last().len() implies crate::category::char_byte_len(
            #[trigger] s.drop_last()[i],
        ) == 1 by {
            assert(s.drop_last()[i] == s[i]);
        }
        lemma_ascii_byte_len(s.drop_last());
        assert(crate::category::char_byte_len(s[s.len() - 1]) == 1);
    }
}

} // verus!
