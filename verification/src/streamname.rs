//! Encoding of stream names inside the compound file.  Characters that are
//! ASCII letters, digits, `.` or `_` are packed two to a character in the
//! range U+3800..U+4800 (or one to a character in U+4800..U+4840), and
//! table streams are marked by a leading U+4840.

use crate::text::{char_from_scalar, chars_of, string_from_chars};
use vstd::prelude::*;

verus! {

/// Name of the stream that holds a package's digital signature.
pub const DIGITAL_SIGNATURE_STREAM_NAME: &'static str = "\u{5}DigitalSignature";

/// Name of the stream that holds a package's extended digital signature.
pub const MSI_DIGITAL_SIGNATURE_EX_STREAM_NAME: &'static str = "\u{5}MsiDigitalSignatureEx";

/// Name of the stream that holds a package's summary information.
pub const SUMMARY_INFO_STREAM_NAME: &'static str = "\u{5}SummaryInformation";

/// Name of the stream that holds a package's document summary information.
pub const DOCUMENT_SUMMARY_INFO_STREAM_NAME: &'static str = "\u{5}DocumentSummaryInformation";

/// The scalar value of the character that marks a table stream.
pub open spec fn table_prefix() -> u32 {
    0x4840
}

/// The character for a 6-bit value in the stream-name alphabet.
pub open spec fn b64_char(v: u32) -> char {
    if v < 10 {
        (v + 48) as char
    } else if v < 36 {
        (v - 10 + 65) as char
    } else if v < 62 {
        (v - 36 + 97) as char
    } else if v == 62 {
        '.'
    } else {
        '_'
    }
}

/// The 6-bit value of a character of the stream-name alphabet, if it is one.
pub open spec fn b64_value(c: char) -> Option<u32> {
    let v = c as u32;
    if 48 <= v && v <= 57 {
        Some((v - 48) as u32)
    } else if 65 <= v && v <= 90 {
        Some((v - 65 + 10) as u32)
    } else if 97 <= v && v <= 122 {
        Some((v - 97 + 36) as u32)
    } else if v == 46 {
        Some(62)
    } else if v == 95 {
        Some(63)
    } else {
        None
    }
}

/// What one character of an encoded name decodes to.
pub open spec fn decoded_char(c: char) -> Seq<char> {
    let v = c as u32;
    if 0x3800 <= v && v < 0x4800 {
        seq![b64_char(((v - 0x3800) % 64) as u32), b64_char(((v - 0x3800) / 64) as u32)]
    } else if 0x4800 <= v && v < 0x4840 {
        seq![b64_char((v - 0x4800) as u32)]
    } else {
        seq![c]
    }
}

/// Decodes the characters of an encoded name, one character at a time.
pub open spec fn decoded_chars(s: Seq<char>) -> Seq<char>
    decreases s.len(),
{
    if s.len() == 0 {
        Seq::empty()
    } else {
        decoded_char(s[0]) + decoded_chars(s.drop_first())
    }
}

/// The decoded name and whether the encoded name was a table stream's.
pub open spec fn spec_decode(name: Seq<char>) -> (Seq<char>, bool) {
    if name.len() > 0 && name[0] as u32 == table_prefix() {
        (decoded_chars(name.drop_first()), true)
    } else {
        (decoded_chars(name), false)
    }
}

/// Encodes the characters of a name: a pair of alphabet characters becomes
/// one character, a lone alphabet character becomes one character, and any
/// other character is kept.
pub open spec fn encoded_chars(s: Seq<char>) -> Seq<char>
    decreases s.len(),
{
    if s.len() == 0 {
        Seq::empty()
    } else {
        match b64_value(s[0]) {
            Some(v1) => {
                if s.len() > 1 && b64_value(s[1]) is Some {
                    let v2 = b64_value(s[1])->0;
                    seq![(0x3800 + v2 * 64 + v1) as char] + encoded_chars(s.skip(2))
                } else {
                    seq![(0x4800 + v1) as char] + encoded_chars(s.drop_first())
                }
            },
            None => seq![s[0]] + encoded_chars(s.drop_first()),
        }
    }
}

/// The encoded name of a stream.
pub open spec fn spec_encode(name: Seq<char>, is_table: bool) -> Seq<char> {
    if is_table {
        seq![table_prefix() as char] + encoded_chars(name)
    } else {
        encoded_chars(name)
    }
}

/// The number of UTF-16 code units needed for the characters of `s`.
pub open spec fn utf16_len(s: Seq<char>) -> nat
    decreases s.len(),
{
    if s.len() == 0 {
        0
    } else {
        (if s[0] as u32 >= 0x10000 {
            2nat
        } else {
            1nat
        }) + utf16_len(s.drop_first())
    }
}

/// Whether a name works as a stream name once encoded.
pub open spec fn spec_is_valid(name: Seq<char>, is_table: bool) -> bool {
    &&& name.len() > 0
    &&& (is_table || name[0] as u32 != table_prefix())
    &&& utf16_len(spec_encode(name, is_table)) <= 31
}

/// Characters that an encoded name can hold only as encodings of other
/// characters.
pub open spec fn is_reserved(c: char) -> bool {
    0x3800 <= c as u32 && (c as u32) < 0x4840
}

/// Returns the character for a 6-bit value of the stream-name alphabet.
pub fn from_b64(value: u32) -> (c: char)
    requires
        value < 64,
    ensures
        c == b64_char(value),
{
    if value < 10 {
        char_from_scalar(value + 48)
    } else if value < 36 {
        char_from_scalar(value - 10 + 65)
    } else if value < 62 {
        char_from_scalar(value - 36 + 97)
    } else if value == 62 {
        '.'
    } else {
        '_'
    }
}

/// Returns the 6-bit value of a character of the stream-name alphabet.
pub fn to_b64(ch: char) -> (r: Option<u32>)
    ensures
        r == b64_value(ch),
        r matches Some(v) ==> v < 64,
{
    let v = ch as u32;
    if 48 <= v && v <= 57 {
        Some(v - 48)
    } else if 65 <= v && v <= 90 {
        Some(10 + v - 65)
    } else if 97 <= v && v <= 122 {
        Some(36 + v - 97)
    } else if v == 46 {
        Some(62)
    } else if v == 95 {
        Some(63)
    } else {
        None
    }
}

/// Decodes a stream name, and returns the decoded name and whether the stream
/// was a table.
pub fn decode(name: &str) -> (r: (String, bool))
    ensures
        (r.0@, r.1) == spec_decode(name@),
{
    let chars = chars_of(name);
    let mut output: Vec<char> = Vec::new();
    let mut is_table = false;
    let mut i: usize = 0;
    if chars.len() > 0 && chars[0] as u32 == 0x4840 {
        is_table = true;
        i = 1;
    }
    let ghost body = chars@.skip(i as int);
    proof {
        assert(chars@.skip(0) =~= chars@);
    }
    while i < chars.len()
        invariant
            i <= chars.len(),
            decoded_chars(body) == output@ + decoded_chars(chars@.skip(i as int)),
        decreases chars.len() - i,
    {
        let chr = chars[i];
        let value = chr as u32;
        let ghost before = output@;
        proof {
            assert(chars@.skip(i as int).drop_first() =~= chars@.skip(i + 1));
        }
        if 0x3800 <= value && value < 0x4800 {
            let value = value - 0x3800;
            let a = from_b64(value % 64);
            let b = from_b64(value / 64);
            output.push(a);
            output.push(b);
        } else if 0x4800 <= value && value < 0x4840 {
            let a = from_b64(value - 0x4800);
            output.push(a);
        } else {
            output.push(chr);
        }
        proof {
            assert(output@ =~= before + decoded_char(chr));
        }
        i = i + 1;
    }
    proof {
        assert(chars@.skip(chars@.len() as int) =~= Seq::<char>::empty());
        assert(output@ =~= decoded_chars(body));
    }
    (string_from_chars(&output), is_table)
}

/// Encodes a stream name.
pub fn encode(name: &str, is_table: bool) -> (r: String)
    ensures
        r@ == spec_encode(name@, is_table),
{
    let chars = chars_of(name);
    let mut output: Vec<char> = Vec::new();
    if is_table {
        output.push(char_from_scalar(0x4840));
    }
    let mut i: usize = 0;
    proof {
        assert(chars@.skip(0) =~= chars@);
        assert(spec_encode(name@, is_table) =~= output@ + encoded_chars(chars@));
    }
    while i < chars.len()
        invariant
            i <= chars.len(),
            chars@ == name@,
            spec_encode(name@, is_table) == output@ + encoded_chars(chars@.skip(i as int)),
        decreases chars.len() - i,
    {
        let ghost rest = chars@.skip(i as int);
        let ghost before = output@;
        let ch1 = chars[i];
        proof {
            assert(rest[0] == ch1);
            assert(rest.drop_first() =~= chars@.skip(i + 1));
        }
        match to_b64(ch1) {
            Some(value1) => {
                let mut paired = false;
                if i + 1 < chars.len() {
                    match to_b64(chars[i + 1]) {
                        Some(value2) => {
                            let encoded = 0x3800 + value2 * 64 + value1;
                            output.push(char_from_scalar(encoded));
                            proof {
                                assert(rest[1] == chars@[i + 1]);
                                assert(rest.skip(2) =~= chars@.skip(i + 2));
                                assert(output@ =~= before + seq![(0x3800 + value2 * 64 + value1) as char]);
                            }
                            i = i + 2;
                            paired = true;
                        },
                        None => {},
                    }
                }
                if !paired {
                    let encoded = 0x4800 + value1;
                    output.push(char_from_scalar(encoded));
                    proof {
                        assert(output@ =~= before + seq![(0x4800 + value1) as char]);
                    }
                    i = i + 1;
                }
            },
            None => {
                output.push(ch1);
                i = i + 1;
            },
        }
    }
    proof {
        assert(chars@.skip(i as int) =~= Seq::<char>::empty());
        assert(output@ =~= spec_encode(name@, is_table));
    }
    string_from_chars(&output)
}

/// Counts the UTF-16 code units needed for a sequence of characters.
fn utf16_count(chars: &Vec<char>) -> (n: usize)
    requires
        chars@.len() <= usize::MAX / 2,
    ensures
        n == utf16_len(chars@),
{
    let mut n: usize = 0;
    let mut i: usize = chars.len();
    proof {
        assert(chars@.skip(i as int) =~= Seq::<char>::empty());
    }
    while i > 0
        invariant
            i <= chars.len(),
            chars@.len() <= usize::MAX / 2,
            n == utf16_len(chars@.skip(i as int)),
            n <= 2 * (chars@.len() - i),
        decreases i,
    {
        i = i - 1;
        proof {
            assert(chars@.skip(i as int).drop_first() =~= chars@.skip(i + 1));
        }
        if chars[i] as u32 >= 0x10000 {
            n = n + 2;
        } else {
            n = n + 1;
        }
    }
    proof {
        assert(chars@.skip(0) =~= chars@);
    }
    n
}

/// Determines if a name will work as CFB stream name once encoded.
pub fn is_valid(name: &str, is_table: bool) -> (r: bool)
    ensures
        r == spec_is_valid(name@, is_table),
{
    let chars = chars_of(name);
    if chars.len() == 0 || (!is_table && chars[0] as u32 == 0x4840) {
        false
    } else {
        let encoded = chars_of(encode(name, is_table).as_str());
        if encoded.len() > 64 {
            proof {
                lemma_utf16_len_at_least_len(encoded@);
            }
            false
        } else {
            utf16_count(&encoded) <= 31
        }
    }
}

/// Every character needs at least one UTF-16 code unit.
proof fn lemma_utf16_len_at_least_len(s: Seq<char>)
    ensures
        utf16_len(s) >= s.len(),
    decreases s.len(),
{
    if s.len() > 0 {
        lemma_utf16_len_at_least_len(s.drop_first());
    }
}

/// Decoding distributes over concatenation.
proof fn lemma_decoded_chars_concat(a: Seq<char>, b: Seq<char>)
    ensures
        decoded_chars(a + b) == decoded_chars(a) + decoded_chars(b),
    decreases a.len(),
{
    if a.len() == 0 {
        assert(a + b =~= b);
        assert(decoded_chars(a) + decoded_chars(b) =~= decoded_chars(b));
    } else {
        lemma_decoded_chars_concat(a.drop_first(), b);
        assert((a + b).drop_first() =~= a.drop_first() + b);
        assert(decoded_chars(a + b) =~= decoded_char(a[0]) + (decoded_chars(a.drop_first())
            + decoded_chars(b)));
    }
}

/// Every 6-bit value is the value of its own character.
pub proof fn lemma_b64_value_of_char(v: u32)
    requires
        v < 64,
    ensures
        b64_value(b64_char(v)) == Some(v),
{
}

/// An alphabet character is the character of its own value.
proof fn lemma_b64_round_trip(c: char)
    requires
        b64_value(c) is Some,
    ensures
        b64_char(b64_value(c)->0) == c,
        b64_value(c)->0 < 64,
{
}

/// Decoding undoes encoding on names that hold no reserved character.
proof fn lemma_decode_encoded_chars(s: Seq<char>)
    requires
        forall|i: int| 0 <= i < s.len() ==> !is_reserved(#[trigger] s[i]),
    ensures
        decoded_chars(encoded_chars(s)) == s,
        encoded_chars(s).len() > 0 && encoded_chars(s)[0] as u32 == table_prefix() ==> s[0] as u32
            == table_prefix(),
    decreases s.len(),
{
    if s.len() > 0 {
        match b64_value(s[0]) {
            Some(v1) => {
                lemma_b64_round_trip(s[0]);
                if s.len() > 1 && b64_value(s[1]) is Some {
                    let v2 = b64_value(s[1])->0;
                    lemma_b64_round_trip(s[1]);
                    let x: u32 = (0x3800 + v2 * 64 + v1) as u32;
                    assert((x - 0x3800) % 64 == v1 && (x - 0x3800) / 64 == v2) by (nonlinear_arith)
                        requires
                            x == 0x3800 + v2 * 64 + v1,
                            v1 < 64,
                            v2 < 64,
                    ;
                    let rest = s.skip(2);
                    assert forall|i: int| 0 <= i < rest.len() implies !is_reserved(#[trigger] rest[i]) by {
                        assert(rest[i] == s[i + 2]);
                    }
                    lemma_decode_encoded_chars(rest);
                    lemma_decoded_chars_concat(seq![x as char], encoded_chars(rest));
                    assert(seq![x as char].drop_first() =~= Seq::<char>::empty());
                    assert(decoded_char(x as char) =~= seq![s[0], s[1]]);
                    assert(decoded_chars(Seq::<char>::empty()) =~= Seq::<char>::empty());
                    assert(decoded_chars(seq![x as char]) =~= decoded_char(x as char));
                    assert(encoded_chars(s) == seq![x as char] + encoded_chars(rest));
                    assert(s =~= seq![s[0], s[1]] + rest);
                } else {
                    let x: u32 = (0x4800 + v1) as u32;
                    let rest = s.drop_first();
                    assert forall|i: int| 0 <= i < rest.len() implies !is_reserved(#[trigger] rest[i]) by {
                        assert(rest[i] == s[i + 1]);
                    }
                    lemma_decode_encoded_chars(rest);
                    lemma_decoded_chars_concat(seq![x as char], encoded_chars(rest));
                    assert(seq![x as char].drop_first() =~= Seq::<char>::empty());
                    assert(decoded_char(x as char) =~= seq![s[0]]);
                    assert(decoded_chars(Seq::<char>::empty()) =~= Seq::<char>::empty());
                    assert(decoded_chars(seq![x as char]) =~= decoded_char(x as char));
                    assert(encoded_chars(s) == seq![x as char] + encoded_chars(rest));
                    assert(s =~= seq![s[0]] + rest);
                }
            },
            None => {
                let rest = s.drop_first();
                assert(!is_reserved(s[0]));
                assert forall|i: int| 0 <= i < rest.len() implies !is_reserved(#[trigger] rest[i]) by {
                    assert(rest[i] == s[i + 1]);
                }
                lemma_decode_encoded_chars(rest);
                lemma_decoded_chars_concat(seq![s[0]], encoded_chars(rest));
                assert(seq![s[0]].drop_first() =~= Seq::<char>::empty());
                assert(decoded_char(s[0]) =~= seq![s[0]]);
                assert(decoded_chars(Seq::<char>::empty()) =~= Seq::<char>::empty());
                assert(decoded_chars(seq![s[0]]) =~= decoded_char(s[0]));
                assert(encoded_chars(s) == seq![s[0]] + encoded_chars(rest));
                assert(s =~= seq![s[0]] + rest);
            },
        }
    }
}

/// Decoding an encoded stream name gives back the name and whether it was a
/// table's, for every name that holds no character of the range
/// U+3800..=U+483F (those stand for encoded characters) and, unless it is a
/// table's, does not start with U+4840 (which marks a table).
pub proof fn lemma_decode_encode(name: Seq<char>, is_table: bool)
    requires
        forall|i: int| 0 <= i < name.len() ==> !is_reserved(#[trigger] name[i]),
        is_table || name.len() == 0 || name[0] as u32 != table_prefix(),
    ensures
        spec_decode(spec_encode(name, is_table)) == (name, is_table),
{
    lemma_decode_encoded_chars(name);
    if is_table {
        let e = spec_encode(name, is_table);
        assert(e.drop_first() =~= encoded_chars(name));
    }
}


/// Whether a stream is one that a package keeps for itself: its digital
/// signatures and its summary information.
pub open spec fn is_special_stream(name: Seq<char>) -> bool {
    ||| name == DIGITAL_SIGNATURE_STREAM_NAME@
    ||| name == MSI_DIGITAL_SIGNATURE_EX_STREAM_NAME@
    ||| name == SUMMARY_INFO_STREAM_NAME@
    ||| name == DOCUMENT_SUMMARY_INFO_STREAM_NAME@
}

/// The name under which a stream of the compound file is listed among a
/// package's binary streams: its decoded name, unless it is a special
/// stream or a table's stream.
pub fn listed_stream_name(entry_name: &str) -> (r: Option<String>)
    ensures
        match r {
            Some(n) => !is_special_stream(entry_name@) && !spec_decode(entry_name@).1 && n@ == spec_decode(
                entry_name@,
            ).0,
            None => is_special_stream(entry_name@) || spec_decode(entry_name@).1,
        },
{
    if crate::category::str_equal(entry_name, DIGITAL_SIGNATURE_STREAM_NAME) || crate::category::str_equal(
        entry_name,
        MSI_DIGITAL_SIGNATURE_EX_STREAM_NAME,
    ) || crate::category::str_equal(entry_name, SUMMARY_INFO_STREAM_NAME) || crate::category::str_equal(
        entry_name,
        DOCUMENT_SUMMARY_INFO_STREAM_NAME,
    ) {
        return None;
    }
    let (name, is_table) = decode(entry_name);
    if is_table {
        None
    } else {
        Some(name)
    }
}

} // verus!
