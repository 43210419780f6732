//! Windows property sets: the serialized form of the summary information
//! stream.

use crate::bytes::{
    le16, le16_bytes, le32, le32_bytes, le64, le64_bytes, lemma_le16_at, lemma_le16_round_trip, lemma_le32_at,
    lemma_le32_round_trip, lemma_le64_round_trip, read_u16, read_u32, read_u64, read_u8, write_u16, write_u32,
    write_u64,
};
use crate::codepage::{spec_decode, spec_encode, CodePage};
use crate::error::{Error, ErrorKind};
use vstd::prelude::*;

verus! {

/// The byte order mark that starts a property set.
pub const BYTE_ORDER_MARK: u16 = 0xfffe;

/// The name of the property that holds the code page of the strings.
pub const PROPERTY_CODEPAGE: u32 = 1;

/// The version of the property set format.
#[derive(Clone, Copy, Debug, Eq, PartialEq, Structural)]
pub enum PropertyFormatVersion {
    /// The first version of the format.
    V0,
    /// The format that added one-byte integers.
    V1,
}

impl PropertyFormatVersion {
    /// Returns the number that the header stores for this version.
    pub fn version_number(self) -> (r: u16)
        ensures
            r == (if self == PropertyFormatVersion::V1 {
                1u16
            } else {
                0u16
            }),
    {
        match self {
            PropertyFormatVersion::V0 => 0,
            PropertyFormatVersion::V1 => 1,
        }
    }
}

/// The operating system that wrote a property set.
#[derive(Clone, Copy, Debug, Eq, PartialEq, Structural)]
pub enum OperatingSystem {
    /// 16-bit Windows.
    Win16,
    /// Mac OS.
    Macintosh,
    /// 32-bit Windows.
    Win32,
}

/// The number that the header stores for an operating system.
pub open spec fn os_number(os: OperatingSystem) -> u16 {
    match os {
        OperatingSystem::Win16 => 0,
        OperatingSystem::Macintosh => 1,
        OperatingSystem::Win32 => 2,
    }
}

/// A property value.  A time is held as a Windows `FILETIME`: the number
/// of 100-nanosecond intervals since January 1, 1601 UTC.
#[derive(Clone, Debug, Eq, PartialEq)]
pub enum PropertyValue {
    /// No value.
    Empty,
    /// A null value.
    Null,
    /// A one-byte integer.
    I1(i8),
    /// A two-byte integer.
    I2(i16),
    /// A four-byte integer.
    I4(i32),
    /// A string.
    LpStr(String),
    /// A time.
    FileTime(u64),
}

/// The mathematical model of a [`PropertyValue`].
pub enum PropertyValueView {
    /// No value.
    Empty,
    /// A null value.
    Null,
    /// A one-byte integer.
    I1(i8),
    /// A two-byte integer.
    I2(i16),
    /// A four-byte integer.
    I4(i32),
    /// A string, by its characters.
    LpStr(Seq<char>),
    /// A time.
    FileTime(u64),
}

impl View for PropertyValue {
    type V = PropertyValueView;

    open spec fn view(&self) -> PropertyValueView {
        match self {
            PropertyValue::Empty => PropertyValueView::Empty,
            PropertyValue::Null => PropertyValueView::Null,
            PropertyValue::I1(x) => PropertyValueView::I1(*x),
            PropertyValue::I2(x) => PropertyValueView::I2(*x),
            PropertyValue::I4(x) => PropertyValueView::I4(*x),
            PropertyValue::LpStr(s) => PropertyValueView::LpStr(s@),
            PropertyValue::FileTime(t) => PropertyValueView::FileTime(*t),
        }
    }
}

/// The number of zero bytes that pad `len` bytes to a multiple of four.
pub open spec fn padding(len: int) -> int {
    ((len + 3) / 4) * 4 - len
}

/// The bytes that hold a property value: its type number, then its data.
/// A string is stored as its length (terminating null included), its
/// encoded bytes, the null, and zeros up to a multiple of four bytes.
pub open spec fn spec_value_bytes(v: PropertyValueView, codepage: CodePage) -> Seq<u8> {
    match v {
        PropertyValueView::Empty => le32_bytes(0),
        PropertyValueView::Null => le32_bytes(1),
        PropertyValueView::I1(x) => le32_bytes(16) + seq![x as u8, 0u8, 0u8, 0u8],
        PropertyValueView::I2(x) => le32_bytes(2) + le16_bytes((x as u16) as int) + le16_bytes(0),
        PropertyValueView::I4(x) => le32_bytes(3) + le32_bytes((x as u32) as int),
        PropertyValueView::LpStr(s) => {
            let bytes = spec_encode(codepage, s);
            let length = bytes.len() + 1int;
            le32_bytes(30) + le32_bytes(length) + bytes + seq![0u8] + Seq::new(
                padding(length) as nat,
                |i: int| 0u8,
            )
        },
        PropertyValueView::FileTime(t) => le32_bytes(64) + le64_bytes(t as int),
    }
}

/// Whether a value can be written: a string's encoded form must leave room
/// in a 32-bit length for the terminating null and the padding.
pub open spec fn can_write_value(v: PropertyValueView, codepage: CodePage) -> bool {
    v matches PropertyValueView::LpStr(s) ==> spec_encode(codepage, s).len() + 4 <= u32::MAX
}

/// What reading a property value at `pos` gives, with the position after
/// it, or the kind of error: `UnexpectedEof` when the data ends first, and
/// `InvalidData` for a string without its terminating null or an unknown
/// type.
pub open spec fn spec_read_value(data: Seq<u8>, pos: int, codepage: CodePage) -> Result<
    (PropertyValueView, int),
    ErrorKind,
> {
    if pos + 4 > data.len() {
        Err(ErrorKind::UnexpectedEof)
    } else {
        let t = le32(data, pos);
        if t == 0 {
            Ok((PropertyValueView::Empty, pos + 4))
        } else if t == 1 {
            Ok((PropertyValueView::Null, pos + 4))
        } else if t == 2 {
            if pos + 6 > data.len() {
                Err(ErrorKind::UnexpectedEof)
            } else {
                Ok((PropertyValueView::I2(le16(data, pos + 4) as i16), pos + 6))
            }
        } else if t == 3 {
            if pos + 8 > data.len() {
                Err(ErrorKind::UnexpectedEof)
            } else {
                Ok((PropertyValueView::I4(le32(data, pos + 4) as i32), pos + 8))
            }
        } else if t == 16 {
            if pos + 5 > data.len() {
                Err(ErrorKind::UnexpectedEof)
            } else {
                Ok((PropertyValueView::I1(data[pos + 4] as i8), pos + 5))
            }
        } else if t == 30 {
            if pos + 8 > data.len() {
                Err(ErrorKind::UnexpectedEof)
            } else {
                let n = le32(data, pos + 4);
                let m = if n == 0 {
                    0
                } else {
                    n - 1
                };
                if pos + 8 + m + 1 > data.len() {
                    Err(ErrorKind::UnexpectedEof)
                } else if data[pos + 8 + m] != 0 {
                    Err(ErrorKind::InvalidData)
                } else {
                    Ok(
                        (
                            PropertyValueView::LpStr(spec_decode(codepage, data.subrange(pos + 8, pos + 8 + m))),
                            pos + 8 + m + 1,
                        ),
                    )
                }
            }
        } else if t == 64 {
            if pos + 12 > data.len() {
                Err(ErrorKind::UnexpectedEof)
            } else {
                Ok((PropertyValueView::FileTime(le64(data, pos + 4) as u64), pos + 12))
            }
        } else {
            Err(ErrorKind::InvalidData)
        }
    }
}

/// The number of bytes, padding included, that writing a value in a code
/// page gives (a string by the length of its encoded form).
pub open spec fn spec_size(v: PropertyValueView, codepage: CodePage) -> int {
    match v {
        PropertyValueView::Empty | PropertyValueView::Null => 4,
        PropertyValueView::I1(_) | PropertyValueView::I2(_) | PropertyValueView::I4(_) => 8,
        PropertyValueView::LpStr(s) => ((12 + spec_encode(codepage, s).len()) / 4) * 4int,
        PropertyValueView::FileTime(_) => 12,
    }
}

/// The lowest format version that can hold a value.
pub open spec fn spec_minimum_version(v: PropertyValueView) -> PropertyFormatVersion {
    match v {
        PropertyValueView::I1(_) => PropertyFormatVersion::V1,
        _ => PropertyFormatVersion::V0,
    }
}

impl PropertyValue {
    /// Reads a property value at `pos`, returning it and the position after
    /// it.
    pub fn read(data: &[u8], pos: usize, codepage: CodePage) -> (r: Result<(PropertyValue, usize), Error>)
        ensures
            match spec_read_value(data@, pos as int, codepage) {
                Ok((v, next)) => r matches Ok((rv, rn)) && rv@ == v && rn == next,
                Err(kind) => r matches Err(e) && e.kind == kind,
            },
    {
        let type_number = match read_u32(data, pos) {
            Some(t) => t,
            None => {
                return Err(eof());
            },
        };
        let at = pos + 4;
        if type_number == 0 {
            Ok((PropertyValue::Empty, at))
        } else if type_number == 1 {
            Ok((PropertyValue::Null, at))
        } else if type_number == 2 {
            match read_u16(data, at) {
                Some(v) => Ok((PropertyValue::I2(v as i16), at + 2)),
                None => Err(eof()),
            }
        } else if type_number == 3 {
            match read_u32(data, at) {
                Some(v) => Ok((PropertyValue::I4(v as i32), at + 4)),
                None => Err(eof()),
            }
        } else if type_number == 16 {
            match read_u8(data, at) {
                Some(v) => Ok((PropertyValue::I1(v as i8), at + 1)),
                None => Err(eof()),
            }
        } else if type_number == 30 {
            let length = match read_u32(data, at) {
                Some(v) => v,
                None => {
                    return Err(eof());
                },
            };
            let length: u32 = if length == 0 {
                0
            } else {
                length - 1
            };
            let start = at + 4;
            if ((data.len() - start) as u64) < length as u64 + 1 {
                return Err(eof());
            }
            let end = start + length as usize;
            if data[end] != 0 {
                return Err(Error::with_text(ErrorKind::InvalidData, "Property set string not null-terminated"));
            }
            let bytes = slice_of(data, start, end);
            Ok((PropertyValue::LpStr(codepage.decode(bytes.as_slice())), end + 1))
        } else if type_number == 64 {
            match read_u64(data, at) {
                Some(v) => Ok((PropertyValue::FileTime(v), at + 8)),
                None => Err(eof()),
            }
        } else {
            let message = crate::text::concat3(
                "Unknown property set value type (",
                crate::text::nat_to_string(type_number as u64).as_str(),
                ")",
            );
            Err(Error::new(ErrorKind::InvalidData, message))
        }
    }

    /// Appends the bytes of this value.  Fails with `InvalidInput` (writing
    /// nothing) when a string is too long for its length to be stored.
    pub fn write(&self, out: &mut Vec<u8>, codepage: CodePage) -> (r: Result<(), Error>)
        ensures
            r is Ok <==> can_write_value(self@, codepage),
            r is Ok ==> final(out)@ == old(out)@ + spec_value_bytes(self@, codepage),
            r matches Err(e) ==> e.kind == ErrorKind::InvalidInput && final(out)@ == old(out)@,
    {
        let ghost before = out@;
        match self {
            PropertyValue::Empty => {
                write_u32(out, 0);
            },
            PropertyValue::Null => {
                write_u32(out, 1);
            },
            PropertyValue::I1(value) => {
                write_u32(out, 16);
                out.push(*value as u8);
                out.push(0);
                write_u16(out, 0);
                assert(le16_bytes(0) =~= seq![0u8, 0u8]);
            },
            PropertyValue::I2(value) => {
                write_u32(out, 2);
                write_u16(out, *value as u16);
                write_u16(out, 0);
            },
            PropertyValue::I4(value) => {
                write_u32(out, 3);
                write_u32(out, *value as u32);
            },
            PropertyValue::LpStr(string) => {
                let bytes = codepage.encode(string.as_str());
                if bytes.len() > 0xffff_fffb {
                    return Err(Error::with_text(ErrorKind::InvalidInput, "Property set string is too long"));
                }
                let length = (bytes.len() + 1) as u32;
                write_u32(out, 30);
                write_u32(out, length);
                let mut i: usize = 0;
                let ghost mid = out@;
                while i < bytes.len()
                    invariant
                        i <= bytes@.len(),
                        out@ == mid + bytes@.take(i as int),
                    decreases bytes@.len() - i,
                {
                    out.push(bytes[i]);
                    assert(bytes@.take(i + 1) =~= bytes@.take(i as int).push(bytes@[i as int]));
                    i = i + 1;
                }
                assert(bytes@.take(i as int) =~= bytes@);
                out.push(0);
                let rounded = ((length + 3) / 4) * 4;
                assert(length <= rounded <= length + 3) by (nonlinear_arith)
                    requires
                        rounded == ((length + 3) / 4) * 4,
                ;
                let pad = rounded - length;
                assert(pad == padding(length as int));
                let ghost padded = out@;
                let mut k: u32 = 0;
                while k < pad
                    invariant
                        k <= pad,
                        out@ == padded + Seq::new(k as nat, |i: int| 0u8),
                    decreases pad - k,
                {
                    out.push(0);
                    assert(out@ =~= padded + Seq::new((k + 1) as nat, |i: int| 0u8));
                    k = k + 1;
                }
            },
            PropertyValue::FileTime(timestamp) => {
                write_u32(out, 64);
                write_u64(out, *timestamp);
            },
        }
        assert(out@ =~= before + spec_value_bytes(self@, codepage));
        Ok(())
    }

    /// Returns the number of bytes, including any padding bytes, that will
    /// be written by the `write()` method in the given code page.  Always a
    /// multiple of four.
    pub fn size_including_padding(&self, codepage: CodePage) -> (r: u128)
        ensures
            r == spec_size(self@, codepage),
            r % 4 == 0,
    {
        match self {
            PropertyValue::Empty => 4,
            PropertyValue::Null => 4,
            PropertyValue::I1(_) => 8,
            PropertyValue::I2(_) => 8,
            PropertyValue::I4(_) => 8,
            PropertyValue::LpStr(string) => {
                let n = codepage.encode(string.as_str()).len() as u128;
                let r = ((12 + n) / 4) * 4;
                assert(r % 4 == 0) by (nonlinear_arith)
                    requires
                        r == ((12 + n) / 4) * 4,
                ;
                r
            },
            PropertyValue::FileTime(_) => 12,
        }
    }

    /// Returns the minimum format version at which this value type is
    /// supported.
    pub fn minimum_version(&self) -> (r: PropertyFormatVersion)
        ensures
            r == spec_minimum_version(self@),
    {
        match self {
            PropertyValue::I1(_) => PropertyFormatVersion::V1,
            _ => PropertyFormatVersion::V0,
        }
    }

    /// Returns a human-readable name for this value's data type.
    pub fn kind_name(&self) -> (r: &'static str)
        ensures
            r@ == match self@ {
                PropertyValueView::Empty => "EMPTY"@,
                PropertyValueView::Null => "NULL"@,
                PropertyValueView::I1(_) => "I1"@,
                PropertyValueView::I2(_) => "I2"@,
                PropertyValueView::I4(_) => "I4"@,
                PropertyValueView::LpStr(_) => "LPSTR"@,
                PropertyValueView::FileTime(_) => "FILETIME"@,
            },
    {
        match self {
            PropertyValue::Empty => "EMPTY",
            PropertyValue::Null => "NULL",
            PropertyValue::I1(_) => "I1",
            PropertyValue::I2(_) => "I2",
            PropertyValue::I4(_) => "I4",
            PropertyValue::LpStr(_) => "LPSTR",
            PropertyValue::FileTime(_) => "FILETIME",
        }
    }

    /// Returns a copy of this value.
    pub fn duplicate(&self) -> (r: PropertyValue)
        ensures
            r@ == self@,
    {
        match self {
            PropertyValue::Empty => PropertyValue::Empty,
            PropertyValue::Null => PropertyValue::Null,
            PropertyValue::I1(x) => PropertyValue::I1(*x),
            PropertyValue::I2(x) => PropertyValue::I2(*x),
            PropertyValue::I4(x) => PropertyValue::I4(*x),
            PropertyValue::LpStr(s) => PropertyValue::LpStr(s.clone()),
            PropertyValue::FileTime(t) => PropertyValue::FileTime(*t),
        }
    }
}

/// The error for data that ends before an item is complete.
fn eof() -> (r: Error)
    ensures
        r.kind == ErrorKind::UnexpectedEof,
{
    Error::with_text(ErrorKind::UnexpectedEof, "failed to fill whole buffer")
}

/// Copies the bytes from `start` up to `end`.
fn slice_of(data: &[u8], start: usize, end: usize) -> (r: Vec<u8>)
    requires
        start <= end <= data@.len(),
    ensures
        r@ == data@.subrange(start as int, end as int),
{
    let mut out: Vec<u8> = Vec::new();
    let mut i: usize = start;
    while i < end
        invariant
            start <= i <= end,
            end <= data@.len(),
            out@ == data@.subrange(start as int, i as int),
        decreases end - i,
    {
        out.push(data[i]);
        assert(out@ =~= data@.subrange(start as int, i + 1));
        i = i + 1;
    }
    out
}

/// Reading a written property value gives the value back, for a string
/// when decoding its encoded form gives it back.
pub proof fn lemma_value_round_trip(pre: Seq<u8>, v: PropertyValueView, codepage: CodePage, post: Seq<u8>)
    requires
        can_write_value(v, codepage),
        v matches PropertyValueView::LpStr(s) ==> spec_decode(codepage, spec_encode(codepage, s)) == s,
    ensures
        spec_read_value(pre + spec_value_bytes(v, codepage) + post, pre.len() as int, codepage) matches Ok(
            (r, _),
        ) && r == v,
{
    match v {
        PropertyValueView::Empty => {
            lemma_le32_round_trip(pre, 0, post);
        },
        PropertyValueView::Null => {
            lemma_le32_round_trip(pre, 1, post);
        },
        PropertyValueView::I1(x) => lemma_i1_round_trip(pre, x, codepage, post),
        PropertyValueView::I2(x) => lemma_i2_round_trip(pre, x, codepage, post),
        PropertyValueView::I4(x) => lemma_i4_round_trip(pre, x, codepage, post),
        PropertyValueView::LpStr(s) => lemma_string_round_trip(pre, s, codepage, post),
        PropertyValueView::FileTime(t) => lemma_filetime_round_trip(pre, t, codepage, post),
    }
}

#[verifier::spinoff_prover]
proof fn lemma_i1_round_trip(pre: Seq<u8>, x: i8, codepage: CodePage, post: Seq<u8>)
    ensures
        spec_read_value(pre + spec_value_bytes(PropertyValueView::I1(x), codepage) + post, pre.len() as int, codepage)
            == Ok::<_, ErrorKind>((PropertyValueView::I1(x), pre.len() as int + 5)),
{
    let data = pre + spec_value_bytes(PropertyValueView::I1(x), codepage) + post;
    let rest = seq![x as u8, 0u8, 0u8, 0u8] + post;
    assert(data =~= pre + le32_bytes(16) + rest);
    lemma_le32_round_trip(pre, 16, rest);
    assert(data[pre.len() as int + 4] == x as u8);
    assert((x as u8) as i8 == x) by (bit_vector);
}

#[verifier::spinoff_prover]
proof fn lemma_i2_round_trip(pre: Seq<u8>, x: i16, codepage: CodePage, post: Seq<u8>)
    ensures
        spec_read_value(pre + spec_value_bytes(PropertyValueView::I2(x), codepage) + post, pre.len() as int, codepage)
            == Ok::<_, ErrorKind>((PropertyValueView::I2(x), pre.len() as int + 6)),
{
    let data = pre + spec_value_bytes(PropertyValueView::I2(x), codepage) + post;
    let u = (x as u16) as int;
    let rest = le16_bytes(u) + le16_bytes(0) + post;
    assert(data =~= pre + le32_bytes(2) + rest);
    lemma_le32_round_trip(pre, 2, rest);
    assert(data =~= (pre + le32_bytes(2)) + le16_bytes(u) + (le16_bytes(0) + post));
    lemma_le16_round_trip(pre + le32_bytes(2), u, le16_bytes(0) + post);
    assert((x as u16) as i16 == x) by (bit_vector);
}

#[verifier::spinoff_prover]
proof fn lemma_i4_round_trip(pre: Seq<u8>, x: i32, codepage: CodePage, post: Seq<u8>)
    ensures
        spec_read_value(pre + spec_value_bytes(PropertyValueView::I4(x), codepage) + post, pre.len() as int, codepage)
            == Ok::<_, ErrorKind>((PropertyValueView::I4(x), pre.len() as int + 8)),
{
    let data = pre + spec_value_bytes(PropertyValueView::I4(x), codepage) + post;
    let u = (x as u32) as int;
    let rest = le32_bytes(u) + post;
    assert(data =~= pre + le32_bytes(3) + rest);
    lemma_le32_round_trip(pre, 3, rest);
    assert(data =~= (pre + le32_bytes(3)) + le32_bytes(u) + post);
    lemma_le32_round_trip(pre + le32_bytes(3), u, post);
    assert((x as u32) as i32 == x) by (bit_vector);
}

#[verifier::spinoff_prover]
proof fn lemma_filetime_round_trip(pre: Seq<u8>, t: u64, codepage: CodePage, post: Seq<u8>)
    ensures
        spec_read_value(
            pre + spec_value_bytes(PropertyValueView::FileTime(t), codepage) + post,
            pre.len() as int,
            codepage,
        ) == Ok::<_, ErrorKind>((PropertyValueView::FileTime(t), pre.len() as int + 12)),
{
    let data = pre + spec_value_bytes(PropertyValueView::FileTime(t), codepage) + post;
    let rest = le64_bytes(t as int) + post;
    assert(data =~= pre + le32_bytes(64) + rest);
    lemma_le32_round_trip(pre, 64, rest);
    assert(data =~= (pre + le32_bytes(64)) + le64_bytes(t as int) + post);
    lemma_le64_round_trip(pre + le32_bytes(64), t as int, post);
}

#[verifier::spinoff_prover]
proof fn lemma_string_round_trip(pre: Seq<u8>, s: Seq<char>, codepage: CodePage, post: Seq<u8>)
    requires
        can_write_value(PropertyValueView::LpStr(s), codepage),
        spec_decode(codepage, spec_encode(codepage, s)) == s,
    ensures
        spec_read_value(
            pre + spec_value_bytes(PropertyValueView::LpStr(s), codepage) + post,
            pre.len() as int,
            codepage,
        ) == Ok::<_, ErrorKind>(
            (PropertyValueView::LpStr(s), pre.len() as int + 9 + spec_encode(codepage, s).len()),
        ),
{
    let data = pre + spec_value_bytes(PropertyValueView::LpStr(s), codepage) + post;
    let pos = pre.len() as int;
    let b = spec_encode(codepage, s);
    let length = b.len() + 1int;
    let zeros = Seq::new(padding(length) as nat, |i: int| 0u8);
    let tail = b + seq![0u8] + zeros + post;
    assert(data =~= pre + le32_bytes(30) + (le32_bytes(length) + tail));
    lemma_le32_round_trip(pre, 30, le32_bytes(length) + tail);
    assert(data =~= (pre + le32_bytes(30)) + le32_bytes(length) + tail);
    lemma_le32_round_trip(pre + le32_bytes(30), length, tail);
    assert(data[pos + 8 + b.len()] == 0u8);
    assert(data.subrange(pos + 8, pos + 8 + b.len()) =~= b);
}

/// A written property value takes the size that `size_including_padding`
/// gives, a multiple of four bytes.
pub proof fn lemma_value_size(v: PropertyValueView, codepage: CodePage)
    ensures
        spec_value_bytes(v, codepage).len() == spec_size(v, codepage),
        spec_size(v, codepage) % 4 == 0,
{
    match v {
        PropertyValueView::LpStr(s) => {
            let n = spec_encode(codepage, s).len() as int;
            assert(((n + 1 + 3) / 4) * 4 - (n + 1) + 9 + n == ((12 + n) / 4) * 4) by (nonlinear_arith);
            assert((((12 + n) / 4) * 4) % 4 == 0) by (nonlinear_arith);
        },
        _ => {},
    }
}

/// Whether the names of a list of named entries strictly increase.
pub open spec fn names_increasing<V>(l: Seq<(u32, V)>) -> bool {
    forall|i: int, j: int| 0 <= i < j < l.len() ==> l[i].0 < l[j].0
}

/// Whether some entry has the name.
pub open spec fn has_name<V>(l: Seq<(u32, V)>, name: u32) -> bool {
    exists|i: int| 0 <= i < l.len() && l[i].0 == name
}

/// The value of the entry with the name, if any.
pub open spec fn lookup<V>(l: Seq<(u32, V)>, name: u32) -> Option<V> {
    if has_name(l, name) {
        Some(l[choose|i: int| 0 <= i < l.len() && l[i].0 == name].1)
    } else {
        None
    }
}

/// The index of the first entry from `i` on whose name comes after
/// `name`, or the length when there is none.
pub open spec fn first_above<V>(l: Seq<(u32, V)>, name: u32, i: int) -> int
    decreases l.len() - i,
{
    if i < 0 || i >= l.len() {
        l.len() as int
    } else if name < l[i].0 {
        i
    } else {
        first_above(l, name, i + 1)
    }
}

/// The entries with one more, put before the first entry whose name comes
/// after its own.
pub open spec fn insert_named<V>(l: Seq<(u32, V)>, name: u32, v: V) -> Seq<(u32, V)> {
    l.insert(first_above(l, name, 0), (name, v))
}

/// The entries with the named one set to a value: replaced where the name
/// is present, inserted in order where it is not.
pub open spec fn set_named<V>(l: Seq<(u32, V)>, name: u32, v: V) -> Seq<(u32, V)> {
    if has_name(l, name) {
        l.update(choose|i: int| 0 <= i < l.len() && l[i].0 == name, (name, v))
    } else {
        insert_named(l, name, v)
    }
}

/// The entries without the named one.
pub open spec fn remove_named<V>(l: Seq<(u32, V)>, name: u32) -> Seq<(u32, V)> {
    if has_name(l, name) {
        l.remove(choose|i: int| 0 <= i < l.len() && l[i].0 == name)
    } else {
        l
    }
}

/// In increasing names, the entries before `first_above` have names up to
/// `name` and the others names above it.
proof fn lemma_first_above<V>(l: Seq<(u32, V)>, name: u32, i: int)
    requires
        names_increasing(l),
        0 <= i <= l.len(),
        forall|k: int| 0 <= k < i ==> l[k].0 <= name,
    ensures
        i <= first_above(l, name, i) <= l.len(),
        forall|k: int| 0 <= k < first_above(l, name, i) ==> l[k].0 <= name,
        forall|k: int| first_above(l, name, i) <= k < l.len() ==> name < l[k].0,
    decreases l.len() - i,
{
    if i < l.len() && !(name < l[i].0) {
        lemma_first_above(l, name, i + 1);
    }
}

/// Setting an entry keeps names increasing, gives the set value for its
/// name and keeps every other name's value.
pub proof fn lemma_set_named<V>(l: Seq<(u32, V)>, name: u32, v: V)
    requires
        names_increasing(l),
    ensures
        names_increasing(set_named(l, name, v)),
        lookup(set_named(l, name, v), name) == Some(v),
        forall|n: u32| n != name ==> lookup(set_named(l, name, v), n) == lookup(l, n),
{
    let r = set_named(l, name, v);
    if has_name(l, name) {
        let i = choose|i: int| 0 <= i < l.len() && l[i].0 == name;
        assert(r[i].0 == name);
        assert forall|n: u32| n != name implies lookup(r, n) == lookup(l, n) by {
            if has_name(l, n) {
                let j = choose|j: int| 0 <= j < l.len() && l[j].0 == n;
                assert(r[j] == l[j]);
                let k = choose|k: int| 0 <= k < r.len() && r[k].0 == n;
                if k != j {
                    if k < j {
                        assert(r[k] == l[k]);
                    } else {
                        assert(r[k] == l[k]);
                    }
                }
            } else {
                if has_name(r, n) {
                    let k = choose|k: int| 0 <= k < r.len() && r[k].0 == n;
                    assert(r[k] == l[k]);
                }
            }
        }
        let k = choose|k: int| 0 <= k < r.len() && r[k].0 == name;
        if k != i {
            assert(r[k] == l[k]);
        }
    } else {
        lemma_first_above(l, name, 0);
        let p = first_above(l, name, 0);
        assert(r == l.insert(p, (name, v)));
        assert forall|a: int, b: int| 0 <= a < b < r.len() implies r[a].0 < r[b].0 by {
            if b < p {
            } else if a < p && b == p {
                assert(l[a].0 <= name);
                assert(l[a].0 != name);
            } else if a < p {
                assert(r[b] == l[b - 1]);
            } else if a == p {
                assert(r[b] == l[b - 1]);
            } else {
                assert(r[a] == l[a - 1]);
                assert(r[b] == l[b - 1]);
            }
        }
        assert(r[p].0 == name);
        let k = choose|k: int| 0 <= k < r.len() && r[k].0 == name;
        assert(k == p);
        assert forall|n: u32| n != name implies lookup(r, n) == lookup(l, n) by {
            if has_name(l, n) {
                let j = choose|j: int| 0 <= j < l.len() && l[j].0 == n;
                let jj = if j < p { j } else { j + 1 };
                assert(r[jj] == l[j]);
                let k = choose|k: int| 0 <= k < r.len() && r[k].0 == n;
                assert(k == jj);
            } else {
                if has_name(r, n) {
                    let k = choose|k: int| 0 <= k < r.len() && r[k].0 == n;
                    if k < p {
                        assert(r[k] == l[k]);
                    } else if k > p {
                        assert(r[k] == l[k - 1]);
                    }
                }
            }
        }
    }
}

/// Removing an entry keeps names increasing, leaves no value for its name
/// and keeps every other name's value.
pub proof fn lemma_remove_named<V>(l: Seq<(u32, V)>, name: u32)
    requires
        names_increasing(l),
    ensures
        names_increasing(remove_named(l, name)),
        lookup(remove_named(l, name), name) is None,
        forall|n: u32| n != name ==> lookup(remove_named(l, name), n) == lookup(l, n),
{
    let r = remove_named(l, name);
    if has_name(l, name) {
        let i = choose|i: int| 0 <= i < l.len() && l[i].0 == name;
        assert forall|a: int, b: int| 0 <= a < b < r.len() implies r[a].0 < r[b].0 by {
            if b < i {
            } else if a < i {
                assert(r[b] == l[b + 1]);
            } else {
                assert(r[a] == l[a + 1]);
                assert(r[b] == l[b + 1]);
            }
        }
        if has_name(r, name) {
            let k = choose|k: int| 0 <= k < r.len() && r[k].0 == name;
            if k < i {
                assert(r[k] == l[k]);
            } else {
                assert(r[k] == l[k + 1]);
            }
        }
        assert forall|n: u32| n != name implies lookup(r, n) == lookup(l, n) by {
            if has_name(l, n) {
                let j = choose|j: int| 0 <= j < l.len() && l[j].0 == n;
                let jj = if j < i { j } else { j - 1 };
                assert(j != i);
                assert(r[jj] == l[j]);
                let k = choose|k: int| 0 <= k < r.len() && r[k].0 == n;
                if k < i {
                    assert(r[k] == l[k]);
                } else {
                    assert(r[k] == l[k + 1]);
                }
            } else {
                if has_name(r, n) {
                    let k = choose|k: int| 0 <= k < r.len() && r[k].0 == n;
                    if k < i {
                        assert(r[k] == l[k]);
                    } else {
                        assert(r[k] == l[k + 1]);
                    }
                }
            }
        }
    }
}

/// A property set: the header fields and the named property values.
pub struct PropertySet {
    os: OperatingSystem,
    os_version: u16,
    clsid: [u8; 16],
    fmtid: [u8; 16],
    codepage: CodePage,
    properties: Vec<(u32, PropertyValue)>,
}

/// The mathematical model of a [`PropertySet`].
pub struct PropertySetView {
    /// The operating system that wrote the set.
    pub os: OperatingSystem,
    /// The version of that operating system.
    pub os_version: u16,
    /// The class identifier.
    pub clsid: Seq<u8>,
    /// The format identifier of the section.
    pub fmtid: Seq<u8>,
    /// The code page of the strings.
    pub codepage: CodePage,
    /// The properties, by increasing name.
    pub properties: Seq<(u32, PropertyValueView)>,
}

/// The models of named property values.
pub open spec fn properties_view(v: Seq<(u32, PropertyValue)>) -> Seq<(u32, PropertyValueView)> {
    v.map_values(|p: (u32, PropertyValue)| (p.0, p.1@))
}

impl View for PropertySet {
    type V = PropertySetView;

    closed spec fn view(&self) -> PropertySetView {
        PropertySetView {
            os: self.os,
            os_version: self.os_version,
            clsid: self.clsid@,
            fmtid: self.fmtid@,
            codepage: self.codepage,
            properties: properties_view(self.properties@),
        }
    }
}

/// The code page that a code page property with this value selects, if
/// any: its number is read as unsigned.
pub open spec fn codepage_of(v: PropertyValueView) -> Option<CodePage> {
    match v {
        PropertyValueView::I2(id) => crate::codepage::codepage_from_id(((id as u16) as int) as i32),
        _ => None,
    }
}

impl PropertySet {
    /// Names strictly increase.
    #[verifier::type_invariant]
    spec fn wf(&self) -> bool {
        names_increasing(properties_view(self.properties@))
    }

    /// Creates an empty property set.
    pub fn new(os: OperatingSystem, os_version: u16, fmtid: [u8; 16]) -> (r: PropertySet)
        ensures
            r@ == (PropertySetView {
                os,
                os_version,
                clsid: Seq::new(16, |i: int| 0u8),
                fmtid: fmtid@,
                codepage: CodePage::Utf8,
                properties: Seq::empty(),
            }),
    {
        let r = PropertySet {
            os,
            os_version,
            clsid: [0u8; 16],
            fmtid,
            codepage: CodePage::Utf8,
            properties: Vec::new(),
        };
        assert(r.clsid@ =~= Seq::new(16, |i: int| 0u8));
        assert(properties_view(r.properties@) =~= Seq::empty());
        r
    }

    /// Returns the format identifier of the set's section.
    pub fn format_identifier(&self) -> (r: &[u8; 16])
        ensures
            r@ == self@.fmtid,
    {
        &self.fmtid
    }

    /// Returns the code page of the set's strings.
    pub fn codepage(&self) -> (r: CodePage)
        ensures
            r == self@.codepage,
    {
        self.codepage
    }

    /// Sets the code page of the set's strings, recording it in the code
    /// page property.
    pub fn set_codepage(&mut self, codepage: CodePage)
        ensures
            final(self)@.codepage == codepage,
            final(self)@.properties == set_named(
                old(self)@.properties,
                PROPERTY_CODEPAGE,
                PropertyValueView::I2(crate::codepage::codepage_id(codepage) as i16),
            ),
            final(self)@.os == old(self)@.os,
            final(self)@.os_version == old(self)@.os_version,
            final(self)@.clsid == old(self)@.clsid,
            final(self)@.fmtid == old(self)@.fmtid,
            names_increasing(old(self)@.properties),
            names_increasing(final(self)@.properties),
    {
        let id = codepage.id();
        proof {
            crate::codepage::lemma_codepage_id_round_trip(codepage);
            assert(0 <= id <= 65001);
            assert(((id as i16) as u16) as int == id) by (bit_vector)
                requires
                    0 <= id <= 65001,
            ;
        }
        self.set(PROPERTY_CODEPAGE, PropertyValue::I2(id as i16));
    }

    /// Returns the value of the named property, if any.
    pub fn get(&self, property_name: u32) -> (r: Option<&PropertyValue>)
        ensures
            match lookup(self@.properties, property_name) {
                Some(v) => r matches Some(x) && x@ == v,
                None => r is None,
            },
            names_increasing(self@.properties),
    {
        proof {
            use_type_invariant(self);
        }
        match self.position_of(property_name) {
            Some(i) => Some(&self.properties[i].1),
            None => None,
        }
    }

    /// Sets the value of the named property.  Setting the code page
    /// property to the number of a known code page also sets the code page.
    #[verifier::spinoff_prover]
    #[verifier::rlimit(40)]
    pub fn set(&mut self, property_name: u32, property_value: PropertyValue)
        ensures
            final(self)@.properties == set_named(old(self)@.properties, property_name, property_value@),
            names_increasing(old(self)@.properties),
            names_increasing(final(self)@.properties),
            lookup(final(self)@.properties, property_name) == Some(property_value@),
            forall|n: u32|
                n != property_name ==> lookup(final(self)@.properties, n) == lookup(old(self)@.properties, n),
            final(self)@.codepage == (if property_name == PROPERTY_CODEPAGE && codepage_of(
                property_value@,
            ) is Some {
                codepage_of(property_value@)->0
            } else {
                old(self)@.codepage
            }),
            final(self)@.os == old(self)@.os,
            final(self)@.os_version == old(self)@.os_version,
            final(self)@.clsid == old(self)@.clsid,
            final(self)@.fmtid == old(self)@.fmtid,
    {
        proof {
            use_type_invariant(&*self);
        }
        if property_name == PROPERTY_CODEPAGE {
            if let PropertyValue::I2(codepage_id) = property_value {
                if let Some(codepage) = CodePage::from_id(codepage_id as u16 as i32) {
                    self.codepage = codepage;
                }
            }
        }
        let ghost before = properties_view(self.properties@);
        let ghost v = property_value@;
        proof {
            lemma_set_named(before, property_name, v);
        }
        let mut properties: Vec<(u32, PropertyValue)> = Vec::new();
        std::mem::swap(&mut properties, &mut self.properties);
        match position_in(&properties, property_name) {
            Some(i) => {
                properties.set(i, (property_name, property_value));
                proof {
                    let k = choose|k: int| 0 <= k < before.len() && before[k].0 == property_name;
                    assert(k == i);
                    assert(properties_view(properties@) =~= before.update(i as int, (property_name, v)));
                }
            },
            None => {
                let p = insert_index(&properties, property_name);
                properties.insert(p, (property_name, property_value));
                assert(properties_view(properties@) =~= before.insert(p as int, (property_name, v)));
            },
        }
        self.properties = properties;
    }

    /// Removes the named property.
    pub fn remove(&mut self, property_name: u32)
        ensures
            final(self)@.properties == remove_named(old(self)@.properties, property_name),
            names_increasing(old(self)@.properties),
            names_increasing(final(self)@.properties),
            lookup(final(self)@.properties, property_name) is None,
            forall|n: u32|
                n != property_name ==> lookup(final(self)@.properties, n) == lookup(old(self)@.properties, n),
            final(self)@.codepage == old(self)@.codepage,
            final(self)@.os == old(self)@.os,
            final(self)@.os_version == old(self)@.os_version,
            final(self)@.clsid == old(self)@.clsid,
            final(self)@.fmtid == old(self)@.fmtid,
    {
        proof {
            use_type_invariant(&*self);
        }
        let ghost before = properties_view(self.properties@);
        proof {
            lemma_remove_named(before, property_name);
        }
        let mut properties: Vec<(u32, PropertyValue)> = Vec::new();
        std::mem::swap(&mut properties, &mut self.properties);
        match position_in(&properties, property_name) {
            Some(i) => {
                properties.remove(i);
                proof {
                    let k = choose|k: int| 0 <= k < before.len() && before[k].0 == property_name;
                    assert(k == i);
                    assert(properties_view(properties@) =~= before.remove(i as int));
                }
            },
            None => {},
        }
        self.properties = properties;
    }

    /// The index of the named property, if any.
    fn position_of(&self, property_name: u32) -> (r: Option<usize>)
        requires
            names_increasing(properties_view(self.properties@)),
        ensures
            match r {
                Some(i) => i < self@.properties.len() && self@.properties[i as int].0 == property_name
                    && lookup(self@.properties, property_name) == Some(self@.properties[i as int].1),
                None => !has_name(self@.properties, property_name),
            },
    {
        position_in(&self.properties, property_name)
    }
}

/// The index of the named entry, if any.
fn position_in(properties: &Vec<(u32, PropertyValue)>, property_name: u32) -> (r: Option<usize>)
    requires
        names_increasing(properties_view(properties@)),
    ensures
        match r {
            Some(i) => i < properties@.len() && properties_view(properties@)[i as int].0 == property_name
                && lookup(properties_view(properties@), property_name) == Some(
                properties_view(properties@)[i as int].1,
            ),
            None => !has_name(properties_view(properties@), property_name),
        },
{
    let ghost pv = properties_view(properties@);
    let mut i: usize = 0;
    while i < properties.len()
        invariant
            i <= properties@.len(),
            pv == properties_view(properties@),
            names_increasing(pv),
            forall|k: int| 0 <= k < i ==> pv[k].0 != property_name,
        decreases properties@.len() - i,
    {
        if properties[i].0 == property_name {
            proof {
                assert(pv[i as int].0 == property_name);
                let k = choose|k: int| 0 <= k < pv.len() && pv[k].0 == property_name;
                if k != i {
                    if k < i {
                    } else {
                        assert(pv[i as int].0 < pv[k].0);
                    }
                }
            }
            return Some(i);
        }
        i = i + 1;
    }
    None
}

/// Where an entry with a new name goes among entries in increasing names.
fn insert_index(properties: &Vec<(u32, PropertyValue)>, property_name: u32) -> (r: usize)
    ensures
        r == first_above(properties_view(properties@), property_name, 0),
        r <= properties@.len(),
{
    let ghost pv = properties_view(properties@);
    let mut i: usize = 0;
    while i < properties.len() && !(property_name < properties[i].0)
        invariant
            i <= properties@.len(),
            pv == properties_view(properties@),
            first_above(pv, property_name, 0) == first_above(pv, property_name, i as int),
        decreases properties@.len() - i,
    {
        i = i + 1;
    }
    i
}

/// The header fields of a property set, and where its section starts.
pub struct SetHeader {
    /// The format version.
    pub version: PropertyFormatVersion,
    /// The version of the operating system that wrote the set.
    pub os_version: u16,
    /// The operating system that wrote the set.
    pub os: OperatingSystem,
    /// The class identifier.
    pub clsid: Seq<u8>,
    /// The format identifier of the section.
    pub fmtid: Seq<u8>,
    /// Where the section starts.
    pub section_offset: int,
}

/// What reading the header of a property set gives, or the kind of error:
/// `UnexpectedEof` when the data ends first, `InvalidData` for a wrong
/// byte order mark, an unknown version or operating system, or a zero
/// reserved field.
pub open spec fn spec_read_header(data: Seq<u8>) -> Result<SetHeader, ErrorKind> {
    if data.len() < 2 {
        Err(ErrorKind::UnexpectedEof)
    } else if le16(data, 0) != BYTE_ORDER_MARK {
        Err(ErrorKind::InvalidData)
    } else if data.len() < 4 {
        Err(ErrorKind::UnexpectedEof)
    } else if le16(data, 2) > 1 {
        Err(ErrorKind::InvalidData)
    } else if data.len() < 8 {
        Err(ErrorKind::UnexpectedEof)
    } else if le16(data, 6) > 2 {
        Err(ErrorKind::InvalidData)
    } else if data.len() < 28 {
        Err(ErrorKind::UnexpectedEof)
    } else if le32(data, 24) < 1 {
        Err(ErrorKind::InvalidData)
    } else if data.len() < 48 {
        Err(ErrorKind::UnexpectedEof)
    } else {
        Ok(
            SetHeader {
                version: if le16(data, 2) == 1 {
                    PropertyFormatVersion::V1
                } else {
                    PropertyFormatVersion::V0
                },
                os_version: le16(data, 4) as u16,
                os: if le16(data, 6) == 0 {
                    OperatingSystem::Win16
                } else if le16(data, 6) == 1 {
                    OperatingSystem::Macintosh
                } else {
                    OperatingSystem::Win32
                },
                clsid: data.subrange(8, 24),
                fmtid: data.subrange(28, 44),
                section_offset: le32(data, 44),
            },
        )
    }
}

/// The first `k` property names of a section with their offsets, by
/// increasing name, or the kind of error: `UnexpectedEof` when the data
/// ends first, `InvalidData` for a repeated name.
pub open spec fn spec_read_offsets(data: Seq<u8>, section: int, k: int) -> Result<Seq<(u32, u32)>, ErrorKind>
    decreases k,
{
    if k <= 0 {
        Ok(Seq::empty())
    } else {
        match spec_read_offsets(data, section, k - 1) {
            Err(kind) => Err(kind),
            Ok(l) => {
                let at = section + 8 + 8 * (k - 1);
                if at + 8 > data.len() {
                    Err(ErrorKind::UnexpectedEof)
                } else {
                    let name = le32(data, at) as u32;
                    if has_name(l, name) {
                        Err(ErrorKind::InvalidData)
                    } else {
                        Ok(insert_named(l, name, le32(data, at + 4) as u32))
                    }
                }
            },
        }
    }
}

/// The code page of a section: that of its code page property, or UTF-8
/// when it has none.  Fails with `InvalidData` when that property is not a
/// two-byte integer naming a known code page.
pub open spec fn spec_read_codepage(data: Seq<u8>, section: int, offsets: Seq<(u32, u32)>) -> Result<
    CodePage,
    ErrorKind,
> {
    match lookup(offsets, PROPERTY_CODEPAGE) {
        None => Ok(CodePage::Utf8),
        Some(offset) => match spec_read_value(data, section + offset, CodePage::Utf8) {
            Err(kind) => Err(kind),
            Ok((v, _)) => match codepage_of(v) {
                Some(c) => Ok(c),
                None => Err(ErrorKind::InvalidData),
            },
        },
    }
}

/// The values of the first `k` properties, or the kind of error; a
/// one-byte integer in a version 0 set is `InvalidData`.
pub open spec fn spec_read_values(
    data: Seq<u8>,
    section: int,
    offsets: Seq<(u32, u32)>,
    codepage: CodePage,
    version: PropertyFormatVersion,
    k: int,
) -> Result<Seq<(u32, PropertyValueView)>, ErrorKind>
    decreases k,
{
    if k <= 0 {
        Ok(Seq::empty())
    } else {
        match spec_read_values(data, section, offsets, codepage, version, k - 1) {
            Err(kind) => Err(kind),
            Ok(l) => match spec_read_value(data, section + offsets[k - 1].1, codepage) {
                Err(kind) => Err(kind),
                Ok((v, _)) => if version == PropertyFormatVersion::V0 && v is I1 {
                    Err(ErrorKind::InvalidData)
                } else {
                    Ok(l.push((offsets[k - 1].0, v)))
                },
            },
        }
    }
}

/// What reading a property set gives, or the kind of error.
pub open spec fn spec_read_set(data: Seq<u8>) -> Result<PropertySetView, ErrorKind> {
    match spec_read_header(data) {
        Err(kind) => Err(kind),
        Ok(h) => {
            let so = h.section_offset;
            if so + 8 > data.len() {
                Err(ErrorKind::UnexpectedEof)
            } else {
                match spec_read_offsets(data, so, le32(data, so + 4)) {
                    Err(kind) => Err(kind),
                    Ok(offsets) => match spec_read_codepage(data, so, offsets) {
                        Err(kind) => Err(kind),
                        Ok(codepage) => match spec_read_values(
                            data,
                            so,
                            offsets,
                            codepage,
                            h.version,
                            offsets.len() as int,
                        ) {
                            Err(kind) => Err(kind),
                            Ok(properties) => Ok(
                                PropertySetView {
                                    os: h.os,
                                    os_version: h.os_version,
                                    clsid: h.clsid,
                                    fmtid: h.fmtid,
                                    codepage,
                                    properties,
                                },
                            ),
                        },
                    },
                }
            }
        },
    }
}

/// The lowest format version that holds every value.
pub open spec fn set_version(properties: Seq<(u32, PropertyValueView)>) -> PropertyFormatVersion {
    if exists|i: int| 0 <= i < properties.len() && properties[i].1 is I1 {
        PropertyFormatVersion::V1
    } else {
        PropertyFormatVersion::V0
    }
}

/// Where the `k`-th value starts in a section whose values start at
/// `start`.
pub open spec fn value_offset(properties: Seq<(u32, PropertyValueView)>, codepage: CodePage, start: int, k: int) -> int
    decreases k,
{
    if k <= 0 {
        start
    } else {
        value_offset(properties, codepage, start, k - 1) + spec_size(properties[k - 1].1, codepage)
    }
}

/// The names and offsets of the first `k` properties.
pub open spec fn pairs_bytes(properties: Seq<(u32, PropertyValueView)>, codepage: CodePage, start: int, k: int) -> Seq<u8>
    decreases k,
{
    if k <= 0 {
        Seq::empty()
    } else {
        pairs_bytes(properties, codepage, start, k - 1) + le32_bytes(properties[k - 1].0 as int) + le32_bytes(
            value_offset(properties, codepage, start, k - 1),
        )
    }
}

/// The values of the first `k` properties.
pub open spec fn values_bytes(properties: Seq<(u32, PropertyValueView)>, codepage: CodePage, k: int) -> Seq<u8>
    decreases k,
{
    if k <= 0 {
        Seq::empty()
    } else {
        values_bytes(properties, codepage, k - 1) + spec_value_bytes(properties[k - 1].1, codepage)
    }
}

/// Whether a property set can be written: every value can, and the
/// section's size fits in 32 bits.
pub open spec fn can_write_set(p: PropertySetView) -> bool {
    let n = p.properties.len() as int;
    &&& forall|i: int| 0 <= i < n ==> can_write_value(#[trigger] p.properties[i].1, p.codepage)
    &&& value_offset(p.properties, p.codepage, 8 + 8 * n, n) <= u32::MAX
}

/// The bytes of a property set: the header, with the section right after
/// it at offset 48, holding its size, the number of properties, each name
/// with the offset of its value, and the values.
#[verifier::opaque]
pub open spec fn spec_set_bytes(p: PropertySetView) -> Seq<u8> {
    let n = p.properties.len() as int;
    let start = 8 + 8 * n;
    le16_bytes(BYTE_ORDER_MARK as int) + le16_bytes(
        if set_version(p.properties) == PropertyFormatVersion::V1 {
            1
        } else {
            0
        },
    ) + le16_bytes(p.os_version as int) + le16_bytes(os_number(p.os) as int) + p.clsid + le32_bytes(1)
        + p.fmtid + le32_bytes(48) + le32_bytes(value_offset(p.properties, p.codepage, start, n)) + le32_bytes(n)
        + pairs_bytes(p.properties, p.codepage, start, n) + values_bytes(p.properties, p.codepage, n)
}

/// Copies the sixteen bytes of an identifier at `pos`.
fn read_id(data: &[u8], pos: usize) -> (r: [u8; 16])
    requires
        pos + 16 <= data@.len(),
    ensures
        r@ == data@.subrange(pos as int, pos + 16),
{
    let r: [u8; 16] = [data[pos + 0], data[pos + 1], data[pos + 2], data[pos + 3], data[pos + 4], data[pos + 5], data[pos + 6], data[pos + 7], data[pos + 8], data[pos + 9], data[pos + 10], data[pos + 11], data[pos + 12], data[pos + 13], data[pos + 14], data[pos + 15]];
    assert(r@ =~= data@.subrange(pos as int, pos + 16));
    r
}

/// Reads a property value at an offset into the section.
fn read_value_at(data: &[u8], section: u32, offset: u32, codepage: CodePage) -> (r: Result<PropertyValue, Error>)
    ensures
        match spec_read_value(data@, section + offset, codepage) {
            Ok((v, _)) => r matches Ok(x) && x@ == v,
            Err(kind) => r matches Err(e) && e.kind == kind,
        },
{
    let pos: u64 = section as u64 + offset as u64;
    if pos > data.len() as u64 {
        return Err(eof());
    }
    match PropertyValue::read(data, pos as usize, codepage) {
        Ok((value, _)) => Ok(value),
        Err(e) => Err(e),
    }
}

/// Whether a list of offsets has the name.
fn offsets_have(offsets: &Vec<(u32, u32)>, name: u32) -> (r: Option<usize>)
    requires
        names_increasing(offsets@),
    ensures
        match r {
            Some(i) => i < offsets@.len() && offsets@[i as int].0 == name && lookup(offsets@, name) == Some(
                offsets@[i as int].1,
            ),
            None => !has_name(offsets@, name),
        },
{
    let mut i: usize = 0;
    while i < offsets.len()
        invariant
            i <= offsets@.len(),
            names_increasing(offsets@),
            forall|k: int| 0 <= k < i ==> offsets@[k].0 != name,
        decreases offsets@.len() - i,
    {
        if offsets[i].0 == name {
            proof {
                let k = choose|k: int| 0 <= k < offsets@.len() && offsets@[k].0 == name;
                if k > i {
                    assert(offsets@[i as int].0 < offsets@[k].0);
                }
            }
            return Some(i);
        }
        i = i + 1;
    }
    None
}

/// Puts an offset among offsets in increasing names.
fn insert_offset(offsets: &mut Vec<(u32, u32)>, name: u32, offset: u32)
    requires
        names_increasing(old(offsets)@),
        !has_name(old(offsets)@, name),
    ensures
        final(offsets)@ == insert_named(old(offsets)@, name, offset),
        names_increasing(final(offsets)@),
{
    let ghost before = offsets@;
    proof {
        lemma_set_named(before, name, offset);
    }
    let mut i: usize = 0;
    while i < offsets.len() && !(name < offsets[i].0)
        invariant
            i <= offsets@.len(),
            offsets@ == before,
            first_above(before, name, 0) == first_above(before, name, i as int),
        decreases offsets@.len() - i,
    {
        i = i + 1;
    }
    offsets.insert(i, (name, offset));
}

impl PropertySet {
    /// Parses a property set.  Fails with `UnexpectedEof` when the data
    /// ends before an item is complete, and with `InvalidData` when the
    /// header is malformed, a property name repeats, the code page property
    /// does not name a known code page, a value has an unknown type or an
    /// unterminated string, or a one-byte integer is in a version 0 set.
    pub fn read(data: &[u8]) -> (r: Result<PropertySet, Error>)
        ensures
            match spec_read_set(data@) {
                Ok(p) => r matches Ok(ps) && ps@ == p,
                Err(kind) => r matches Err(e) && e.kind == kind,
            },
            r matches Ok(ps) ==> names_increasing(ps@.properties),
    {
        let bom = match read_u16(data, 0) {
            Some(v) => v,
            None => {
                return Err(eof());
            },
        };
        if bom != BYTE_ORDER_MARK {
            return Err(Error::with_text(ErrorKind::InvalidData, "Invalid byte order mark"));
        }
        let version_number = match read_u16(data, 2) {
            Some(v) => v,
            None => {
                return Err(eof());
            },
        };
        if version_number > 1 {
            return Err(Error::with_text(ErrorKind::InvalidData, "Unsupported property set version"));
        }
        let format_version = if version_number == 1 {
            PropertyFormatVersion::V1
        } else {
            PropertyFormatVersion::V0
        };
        let os_version = match read_u16(data, 4) {
            Some(v) => v,
            None => {
                return Err(eof());
            },
        };
        let os_number = match read_u16(data, 6) {
            Some(v) => v,
            None => {
                return Err(eof());
            },
        };
        let os = if os_number == 0 {
            OperatingSystem::Win16
        } else if os_number == 1 {
            OperatingSystem::Macintosh
        } else if os_number == 2 {
            OperatingSystem::Win32
        } else {
            return Err(Error::with_text(ErrorKind::InvalidData, "Unsupported OS value"));
        };
        if data.len() < 24 {
            return Err(eof());
        }
        let clsid = read_id(data, 8);
        let reserved = match read_u32(data, 24) {
            Some(v) => v,
            None => {
                return Err(eof());
            },
        };
        if reserved < 1 {
            return Err(Error::with_text(ErrorKind::InvalidData, "Invalid property set header reserved value"));
        }
        if data.len() < 44 {
            return Err(eof());
        }
        let fmtid = read_id(data, 28);
        let section_offset = match read_u32(data, 44) {
            Some(v) => v,
            None => {
                return Err(eof());
            },
        };
        let ghost h = spec_read_header(data@)->Ok_0;
        assert(spec_read_header(data@) is Ok);
        let so = section_offset as u64;
        if so + 8 > data.len() as u64 {
            return Err(eof());
        }
        let num_properties = read_u32(data, (so + 4) as usize).unwrap();
        let ghost dv = data@;
        let mut offsets: Vec<(u32, u32)> = Vec::new();
        let mut k: u32 = 0;
        while k < num_properties
            invariant
                k <= num_properties,
                dv == data@,
                so == h.section_offset,
                so <= u32::MAX,
                spec_read_header(dv) == Ok::<_, ErrorKind>(h),
                num_properties as int == le32(dv, so + 4),
                so + 8 <= data@.len(),
                names_increasing(offsets@),
                spec_read_offsets(dv, so as int, k as int) == Ok::<_, ErrorKind>(offsets@),
            decreases num_properties - k,
        {
            let at: u64 = so + 8 + 8 * (k as u64);
            if at + 8 > data.len() as u64 {
                proof {
                    lemma_offsets_stay_failed(dv, so as int, k as int + 1, num_properties as int);
                }
                return Err(eof());
            }
            let name = read_u32(data, at as usize).unwrap();
            let offset = read_u32(data, (at + 4) as usize).unwrap();
            if offsets_have(&offsets, name).is_some() {
                proof {
                    lemma_offsets_stay_failed(dv, so as int, k as int + 1, num_properties as int);
                }
                return Err(Error::with_text(ErrorKind::InvalidData, "Repeated property name"));
            }
            insert_offset(&mut offsets, name, offset);
            k = k + 1;
        }
        let codepage = match offsets_have(&offsets, PROPERTY_CODEPAGE) {
            None => CodePage::Utf8,
            Some(i) => {
                let value = match read_value_at(data, section_offset, offsets[i].1, CodePage::Utf8) {
                    Ok(v) => v,
                    Err(e) => {
                        return Err(e);
                    },
                };
                match value {
                    PropertyValue::I2(codepage_id) => match CodePage::from_id(codepage_id as u16 as i32) {
                        Some(codepage) => codepage,
                        None => {
                            return Err(Error::with_text(ErrorKind::InvalidData, "Unknown codepage for property set"));
                        },
                    },
                    _ => {
                        return Err(Error::with_text(ErrorKind::InvalidData, "Codepage property value has wrong type"));
                    },
                }
            },
        };
        let mut properties: Vec<(u32, PropertyValue)> = Vec::new();
        assert(properties_view(properties@) =~= Seq::<(u32, PropertyValueView)>::empty());
        let mut i: usize = 0;
        while i < offsets.len()
            invariant
                i <= offsets@.len(),
                dv == data@,
                so == section_offset,
                names_increasing(offsets@),
                spec_read_header(dv) == Ok::<_, ErrorKind>(h),
                h.section_offset == so,
                h.version == format_version,
                so + 8 <= dv.len(),
                spec_read_offsets(dv, so as int, le32(dv, so + 4)) == Ok::<_, ErrorKind>(offsets@),
                spec_read_codepage(dv, so as int, offsets@) == Ok::<_, ErrorKind>(codepage),
                properties@.len() == i,
                forall|m: int| 0 <= m < i ==> (#[trigger] properties@[m]).0 == offsets@[m].0,
                spec_read_values(dv, so as int, offsets@, codepage, format_version, i as int) == Ok::<_, ErrorKind>(
                    properties_view(properties@),
                ),
            decreases offsets@.len() - i,
        {
            let value = match read_value_at(data, section_offset, offsets[i].1, codepage) {
                Ok(v) => v,
                Err(e) => {
                    proof {
                        lemma_values_stay_failed(dv, so as int, offsets@, codepage, format_version, i as int + 1, offsets@.len() as int);
                    }
                    return Err(e);
                },
            };
            if format_version == PropertyFormatVersion::V0 && value.minimum_version() == PropertyFormatVersion::V1 {
                proof {
                    lemma_values_stay_failed(dv, so as int, offsets@, codepage, format_version, i as int + 1, offsets@.len() as int);
                }
                return Err(Error::with_text(ErrorKind::InvalidData, "Property value type is not supported in format version 0"));
            }
            let ghost before = properties@;
            let ghost v = value@;
            properties.push((offsets[i].0, value));
            assert(properties_view(properties@) =~= properties_view(before).push((offsets@[i as int].0, v)));
            i = i + 1;
        }
        assert(names_increasing(properties_view(properties@))) by {
            assert forall|a: int, b: int| 0 <= a < b < properties_view(properties@).len() implies properties_view(
                properties@,
            )[a].0 < properties_view(properties@)[b].0 by {
                assert(properties@[a].0 == offsets@[a].0);
                assert(properties@[b].0 == offsets@[b].0);
            }
        }
        Ok(PropertySet { os, os_version, clsid, fmtid, codepage, properties })
    }
}

/// Once reading offsets fails, reading more fails the same way.
proof fn lemma_offsets_stay_failed(data: Seq<u8>, section: int, k: int, n: int)
    requires
        0 < k <= n,
        spec_read_offsets(data, section, k) is Err,
    ensures
        spec_read_offsets(data, section, n) == spec_read_offsets(data, section, k),
    decreases n - k,
{
    if k < n {
        lemma_offsets_stay_failed(data, section, k + 1, n);
    }
}

/// Once reading values fails, reading more fails the same way.
proof fn lemma_values_stay_failed(
    data: Seq<u8>,
    section: int,
    offsets: Seq<(u32, u32)>,
    codepage: CodePage,
    version: PropertyFormatVersion,
    k: int,
    n: int,
)
    requires
        0 < k <= n,
        spec_read_values(data, section, offsets, codepage, version, k) is Err,
    ensures
        spec_read_values(data, section, offsets, codepage, version, n) == spec_read_values(
            data,
            section,
            offsets,
            codepage,
            version,
            k,
        ),
    decreases n - k,
{
    if k < n {
        lemma_values_stay_failed(data, section, offsets, codepage, version, k + 1, n);
    }
}

/// Offsets grow with the values they count.
proof fn lemma_value_offset_grows(properties: Seq<(u32, PropertyValueView)>, codepage: CodePage, start: int, j: int, k: int)
    requires
        0 <= j <= k,
    ensures
        value_offset(properties, codepage, start, j) <= value_offset(properties, codepage, start, k),
    decreases k,
{
    if j < k {
        lemma_value_offset_grows(properties, codepage, start, j, k - 1);
        assert(spec_size(properties[k - 1].1, codepage) >= 0) by {
            if let PropertyValueView::LpStr(s) = properties[k - 1].1 {
                let n = spec_encode(codepage, s).len() as int;
                assert(((12 + n) / 4) * 4 >= 0) by (nonlinear_arith)
                    requires
                        n >= 0,
                ;
            }
        }
    }
}

impl PropertySet {
    /// Serializes the property set: the header, then its one section at
    /// offset 48.  Fails with `InvalidInput` when a value cannot be
    /// written or the section would not fit in 32-bit offsets.
    pub fn write(&self) -> (r: Result<Vec<u8>, Error>)
        ensures
            r is Ok <==> can_write_set(self@),
            r matches Ok(b) ==> b@ == spec_set_bytes(self@),
            r matches Err(e) ==> e.kind == ErrorKind::InvalidInput,
    {
        let ghost p = self@;
        let ghost props = p.properties;
        let n = self.properties.len();
        let ghost ni = n as int;
        let too_big = Error::with_text(ErrorKind::InvalidInput, "Property set is too large");
        if n as u64 > 0x1fff_fffe {
            proof {
                lemma_value_offset_grows(props, self.codepage, 8 + 8 * ni, 0, ni);
            }
            return Err(too_big);
        }
        let start: u64 = 8 + 8 * n as u64;
        // The format version, and each value's offset.
        let mut has_i1 = false;
        let mut offsets: Vec<u32> = Vec::new();
        let mut size: u64 = start;
        let mut k: usize = 0;
        while k < n
            invariant
                k <= n,
                n == self.properties@.len(),
                props == properties_view(self.properties@),
                start == 8 + 8 * ni,
                ni == n,
                has_i1 == exists|j: int| 0 <= j < k && props[j].1 is I1,
                size == value_offset(props, self.codepage, start as int, k as int),
                size <= u32::MAX,
                too_big.kind == ErrorKind::InvalidInput,
                offsets@.len() == k,
                forall|j: int| 0 <= j < k ==> (#[trigger] offsets@[j]) as int == value_offset(props, self.codepage, start as int, j),
            decreases n - k,
        {
            let ghost was = has_i1;
            assert(props[k as int].1 == self.properties@[k as int].1@);
            if self.properties[k].1.minimum_version() == PropertyFormatVersion::V1 {
                has_i1 = true;
                assert(props[k as int].1 is I1);
            }
            assert(has_i1 == exists|j: int| 0 <= j < k + 1 && props[j].1 is I1) by {
                if was {
                    let w = choose|j: int| 0 <= j < k && props[j].1 is I1;
                    assert(0 <= w < k + 1 && props[w].1 is I1);
                }
                if exists|j: int| 0 <= j < k + 1 && props[j].1 is I1 {
                    let w = choose|j: int| 0 <= j < k + 1 && props[j].1 is I1;
                    if w < k {
                        assert(was);
                    }
                }
            }
            offsets.push(size as u32);
            let value_size = self.properties[k].1.size_including_padding(self.codepage);
            if value_size > 0xffff_ffff - size as u128 {
                proof {
                    lemma_value_offset_grows(props, self.codepage, start as int, k as int + 1, ni);
                }
                return Err(too_big);
            }
            size = size + value_size as u64;
            k = k + 1;
        }
        let version: u16 = if has_i1 {
            1
        } else {
            0
        };
        let mut out: Vec<u8> = Vec::new();
        write_u16(&mut out, BYTE_ORDER_MARK);
        write_u16(&mut out, version);
        write_u16(&mut out, self.os_version);
        let os_code: u16 = match self.os {
            OperatingSystem::Win16 => 0,
            OperatingSystem::Macintosh => 1,
            OperatingSystem::Win32 => 2,
        };
        write_u16(&mut out, os_code);
        append_bytes(&mut out, &self.clsid);
        write_u32(&mut out, 1);
        append_bytes(&mut out, &self.fmtid);
        write_u32(&mut out, 48);
        write_u32(&mut out, size as u32);
        write_u32(&mut out, n as u32);
        let ghost header = out@;
        let mut k: usize = 0;
        while k < n
            invariant
                k <= n,
                n == self.properties@.len(),
                props == properties_view(self.properties@),
                offsets@.len() == n,
                forall|j: int| 0 <= j < n ==> (#[trigger] offsets@[j]) as int == value_offset(props, self.codepage, start as int, j),
                out@ == header + pairs_bytes(props, self.codepage, start as int, k as int),
            decreases n - k,
        {
            write_u32(&mut out, self.properties[k].0);
            write_u32(&mut out, offsets[k]);
            assert(out@ =~= header + pairs_bytes(props, self.codepage, start as int, k + 1));
            k = k + 1;
        }
        let ghost pairs = out@;
        let mut k: usize = 0;
        while k < n
            invariant
                k <= n,
                n == self.properties@.len(),
                props == properties_view(self.properties@),
                p.codepage == self.codepage,
                p == self@,
                props == p.properties,
                forall|j: int| 0 <= j < k ==> can_write_value(#[trigger] props[j].1, p.codepage),
                out@ == pairs + values_bytes(props, p.codepage, k as int),
            decreases n - k,
        {
            assert(props[k as int].1 == self.properties@[k as int].1@);
            match self.properties[k].1.write(&mut out, self.codepage) {
                Ok(()) => {},
                Err(e) => {
                    assert(!can_write_value(props[k as int].1, p.codepage));
                    return Err(e);
                },
            }
            assert(out@ =~= pairs + values_bytes(props, p.codepage, k + 1));
            k = k + 1;
        }
        proof {
            assert(set_version(props) == PropertyFormatVersion::V1 <==> has_i1);
            reveal(spec_set_bytes);
            assert(out@ =~= spec_set_bytes(p));
        }
        Ok(out)
    }
}

/// Appends the bytes of an identifier.
fn append_bytes(out: &mut Vec<u8>, id: &[u8; 16])
    ensures
        final(out)@ == old(out)@ + id@,
{
    let ghost before = out@;
    let mut i: usize = 0;
    while i < 16
        invariant
            i <= 16,
            id@.len() == 16,
            out@ == before + id@.take(i as int),
        decreases 16 - i,
    {
        out.push(id[i]);
        assert(id@.take(i + 1) =~= id@.take(i as int).push(id@[i as int]));
        i = i + 1;
    }
    assert(id@.take(16) =~= id@);
}


/// Whether a value reads back as it was written in a code page: a string's
/// encoded form decodes back to it.
pub open spec fn value_reads_back(v: PropertyValueView, codepage: CodePage) -> bool {
    v matches PropertyValueView::LpStr(s) ==> spec_decode(
        codepage,
        spec_encode(codepage, s),
    ) == s
}

/// Whether a property set reads back as it was written: identifiers of
/// sixteen bytes, names that increase, a set that can be written, values
/// that read back, and a code page that the code page property names (UTF-8
/// when there is no such property).
pub open spec fn set_reads_back(p: PropertySetView) -> bool {
    &&& p.clsid.len() == 16
    &&& p.fmtid.len() == 16
    &&& names_increasing(p.properties)
    &&& can_write_set(p)
    &&& forall|i: int| 0 <= i < p.properties.len() ==> value_reads_back(#[trigger] p.properties[i].1, p.codepage)
    &&& match lookup(p.properties, PROPERTY_CODEPAGE) {
        Some(v) => v is I2 && codepage_of(v) == Some(p.codepage),
        None => p.codepage == CodePage::Utf8,
    }
}

/// The names and offsets of `k` properties take eight bytes each, and those
/// of fewer properties begin them.
#[verifier::spinoff_prover]
proof fn lemma_pairs_prefix(properties: Seq<(u32, PropertyValueView)>, codepage: CodePage, start: int, m: int, k: int)
    requires
        0 <= m <= k,
    ensures
        pairs_bytes(properties, codepage, start, k).len() == 8 * k,
        pairs_bytes(properties, codepage, start, k).take(8 * m) == pairs_bytes(properties, codepage, start, m),
    decreases k,
{
    if k == 0 {
        assert(pairs_bytes(properties, codepage, start, k).take(0) =~= Seq::<u8>::empty());
    } else if m == k {
        lemma_pairs_prefix(properties, codepage, start, k - 1, k - 1);
        assert(pairs_bytes(properties, codepage, start, k).take(8 * m) =~= pairs_bytes(properties, codepage, start, k));
    } else {
        lemma_pairs_prefix(properties, codepage, start, m, k - 1);
        assert(pairs_bytes(properties, codepage, start, k).take(8 * m) =~= pairs_bytes(properties, codepage, start, k - 1).take(
            8 * m,
        ));
    }
}

/// The name and the value offset of property `j` stand at bytes `8 * j` on
/// of the names and offsets.
#[verifier::spinoff_prover]
proof fn lemma_pair_at(properties: Seq<(u32, PropertyValueView)>, codepage: CodePage, start: int, j: int, n: int)
    requires
        0 <= j < n,
    ensures
        pairs_bytes(properties, codepage, start, n).subrange(8 * j, 8 * j + 4) == le32_bytes(properties[j].0 as int),
        pairs_bytes(properties, codepage, start, n).subrange(8 * j + 4, 8 * j + 8) == le32_bytes(
            value_offset(properties, codepage, start, j),
        ),
{
    lemma_pairs_prefix(properties, codepage, start, j + 1, n);
    lemma_pairs_prefix(properties, codepage, start, j, j);
    let whole = pairs_bytes(properties, codepage, start, n);
    let upto = pairs_bytes(properties, codepage, start, j + 1);
    assert(whole.subrange(8 * j, 8 * j + 4) =~= upto.subrange(8 * j, 8 * j + 4));
    assert(whole.subrange(8 * j + 4, 8 * j + 8) =~= upto.subrange(8 * j + 4, 8 * j + 8));
    assert(upto.subrange(8 * j, 8 * j + 4) =~= le32_bytes(properties[j].0 as int));
    assert(upto.subrange(8 * j + 4, 8 * j + 8) =~= le32_bytes(value_offset(properties, codepage, start, j)));
}

/// The values of `k` properties that read back take as many bytes as the
/// offsets count, and those of fewer properties begin them.
#[verifier::spinoff_prover]
proof fn lemma_values_prefix(
    properties: Seq<(u32, PropertyValueView)>,
    codepage: CodePage,
    start: int,
    m: int,
    k: int,
)
    requires
        0 <= m <= k <= properties.len(),
        forall|i: int| 0 <= i < properties.len() ==> value_reads_back(#[trigger] properties[i].1, codepage),
    ensures
        values_bytes(properties, codepage, k).len() == value_offset(properties, codepage, start, k) - start,
        values_bytes(properties, codepage, k).take(value_offset(properties, codepage, start, m) - start) == values_bytes(
            properties,
            codepage,
            m,
        ),
    decreases k,
{
    if k == 0 {
        assert(values_bytes(properties, codepage, k).take(0) =~= Seq::<u8>::empty());
    } else {
        lemma_value_size(properties[k - 1].1, codepage);
        if m == k {
            lemma_values_prefix(properties, codepage, start, k - 1, k - 1);
            assert(values_bytes(properties, codepage, k).take(value_offset(properties, codepage, start, m) - start)
                =~= values_bytes(properties, codepage, k));
        } else {
            lemma_values_prefix(properties, codepage, start, m, k - 1);
            lemma_value_offset_grows(properties, codepage, start, m, k - 1);
            lemma_value_offset_grows(properties, codepage, start, 0, m);
            assert(values_bytes(properties, codepage, k) == values_bytes(properties, codepage, k - 1)
                + spec_value_bytes(properties[k - 1].1, codepage));
            assert(values_bytes(properties, codepage, k).take(value_offset(properties, codepage, start, m) - start)
                =~= values_bytes(properties, codepage, k - 1).take(value_offset(properties, codepage, start, m) - start));
        }
    }
}

/// The bytes of value `j` stand where its offset says among the values.
#[verifier::spinoff_prover]
#[verifier::rlimit(30)]
proof fn lemma_value_at(
    properties: Seq<(u32, PropertyValueView)>,
    codepage: CodePage,
    start: int,
    j: int,
    n: int,
)
    requires
        0 <= j < n <= properties.len(),
        forall|i: int| 0 <= i < properties.len() ==> value_reads_back(#[trigger] properties[i].1, codepage),
    ensures
        values_bytes(properties, codepage, n).subrange(
            value_offset(properties, codepage, start, j) - start,
            value_offset(properties, codepage, start, j + 1) - start,
        ) == spec_value_bytes(properties[j].1, codepage),
        value_offset(properties, codepage, start, j + 1) <= value_offset(properties, codepage, start, n),
{
    lemma_values_prefix(properties, codepage, start, j + 1, n);
    lemma_values_prefix(properties, codepage, start, j, j);
    lemma_value_offset_grows(properties, codepage, start, j + 1, n);
    let whole = values_bytes(properties, codepage, n);
    let upto = values_bytes(properties, codepage, j + 1);
    let a = value_offset(properties, codepage, start, j) - start;
    let b = value_offset(properties, codepage, start, j + 1) - start;
    assert(whole.subrange(a, b) =~= upto.subrange(a, b));
    assert(upto.subrange(a, b) =~= spec_value_bytes(properties[j].1, codepage));
}


/// The header of a written property set: everything before its section.
pub open spec fn header_bytes(p: PropertySetView) -> Seq<u8> {
    le16_bytes(BYTE_ORDER_MARK as int) + le16_bytes(
        if set_version(p.properties) == PropertyFormatVersion::V1 {
            1
        } else {
            0
        },
    ) + le16_bytes(p.os_version as int) + le16_bytes(os_number(p.os) as int) + p.clsid + le32_bytes(1)
        + p.fmtid + le32_bytes(48)
}

/// The names and value offsets that a written property set's section
/// lists, for its first `k` properties.
pub open spec fn written_pairs(properties: Seq<(u32, PropertyValueView)>, codepage: CodePage, start: int, k: int) -> Seq<
    (u32, u32),
> {
    Seq::new(k as nat, |i: int| (properties[i].0, value_offset(properties, codepage, start, i) as u32))
}

/// Where the parts of a written property set stand: the header, the
/// section's size and count, the names with their offsets, and the values.
#[verifier::spinoff_prover]
proof fn lemma_set_layout(p: PropertySetView)
    requires
        set_reads_back(p),
    ensures
        ({
            let props = p.properties;
            let n = props.len() as int;
            let start = 8 + 8 * n;
            let data = spec_set_bytes(p);
            let pairs = pairs_bytes(props, p.codepage, start, n);
            let values = values_bytes(props, p.codepage, n);
            &&& data.subrange(0, 48) == header_bytes(p)
            &&& data.subrange(48, 52) == le32_bytes(value_offset(props, p.codepage, start, n))
            &&& data.subrange(52, 56) == le32_bytes(n)
            &&& pairs.len() == 8 * n
            &&& values.len() == value_offset(props, p.codepage, start, n) - start
            &&& data.len() == 56 + 8 * n + values.len()
            &&& forall|x: int| 0 <= x < 8 * n ==> data[56 + x] == #[trigger] pairs[x]
            &&& forall|y: int| 0 <= y < values.len() ==> data[56 + 8 * n + y] == #[trigger] values[y]
            &&& start <= value_offset(props, p.codepage, start, n) <= u32::MAX
            &&& n < 0x2000_0000
        }),
{
    reveal(spec_set_bytes);
    let props = p.properties;
    let n = props.len() as int;
    let start = 8 + 8 * n;
    let data = spec_set_bytes(p);
    let pairs = pairs_bytes(props, p.codepage, start, n);
    let values = values_bytes(props, p.codepage, n);
    let head = header_bytes(p);
    let size = le32_bytes(value_offset(props, p.codepage, start, n));
    let count = le32_bytes(n);
    lemma_pairs_prefix(props, p.codepage, start, n, n);
    lemma_values_prefix(props, p.codepage, start, n, n);
    lemma_value_offset_grows(props, p.codepage, start, 0, n);
    assert(data =~= head + size + count + pairs + values);
    assert(head.len() == 48);
    assert(data.subrange(0, 48) =~= head);
    assert(data.subrange(48, 52) =~= size);
    assert(data.subrange(52, 56) =~= count);
}

/// Where the fields of a written header stand.
proof fn lemma_header_parts(p: PropertySetView)
    requires
        p.clsid.len() == 16,
        p.fmtid.len() == 16,
    ensures
        ({
            let head = header_bytes(p);
            &&& head.len() == 48
            &&& head.subrange(0, 2) == le16_bytes(BYTE_ORDER_MARK as int)
            &&& head.subrange(2, 4) == le16_bytes(
                if set_version(p.properties) == PropertyFormatVersion::V1 {
                    1
                } else {
                    0
                },
            )
            &&& head.subrange(4, 6) == le16_bytes(p.os_version as int)
            &&& head.subrange(6, 8) == le16_bytes(os_number(p.os) as int)
            &&& head.subrange(8, 24) == p.clsid
            &&& head.subrange(24, 28) == le32_bytes(1)
            &&& head.subrange(28, 44) == p.fmtid
            &&& head.subrange(44, 48) == le32_bytes(48)
        }),
{
    let head = header_bytes(p);
    let version: int = if set_version(p.properties) == PropertyFormatVersion::V1 {
        1
    } else {
        0
    };
    assert(head.subrange(0, 2) =~= le16_bytes(BYTE_ORDER_MARK as int));
    assert(head.subrange(2, 4) =~= le16_bytes(version));
    assert(head.subrange(4, 6) =~= le16_bytes(p.os_version as int));
    assert(head.subrange(6, 8) =~= le16_bytes(os_number(p.os) as int));
    assert(head.subrange(8, 24) =~= p.clsid);
    assert(head.subrange(24, 28) =~= le32_bytes(1));
    assert(head.subrange(28, 44) =~= p.fmtid);
    assert(head.subrange(44, 48) =~= le32_bytes(48));
}

/// Bytes that begin with a written header read as that header.
#[verifier::spinoff_prover]
proof fn lemma_read_written_header(data: Seq<u8>, p: PropertySetView)
    requires
        p.clsid.len() == 16,
        p.fmtid.len() == 16,
        data.len() >= 48,
        data.subrange(0, 48) == header_bytes(p),
    ensures
        spec_read_header(data) == Ok::<SetHeader, ErrorKind>(
            SetHeader {
                version: set_version(p.properties),
                os_version: p.os_version,
                os: p.os,
                clsid: p.clsid,
                fmtid: p.fmtid,
                section_offset: 48,
            },
        ),
{
    lemma_header_parts(p);
    let head = header_bytes(p);
    let version: int = if set_version(p.properties) == PropertyFormatVersion::V1 {
        1
    } else {
        0
    };
    assert(data.subrange(0, 2) =~= head.subrange(0, 2));
    lemma_le16_at(data, 0, BYTE_ORDER_MARK as int);
    assert(data.subrange(2, 4) =~= head.subrange(2, 4));
    lemma_le16_at(data, 2, version);
    assert(data.subrange(4, 6) =~= head.subrange(4, 6));
    lemma_le16_at(data, 4, p.os_version as int);
    assert(data.subrange(6, 8) =~= head.subrange(6, 8));
    lemma_le16_at(data, 6, os_number(p.os) as int);
    assert(data.subrange(8, 24) =~= head.subrange(8, 24));
    assert(data.subrange(24, 28) =~= head.subrange(24, 28));
    lemma_le32_at(data, 24, 1);
    assert(data.subrange(28, 44) =~= head.subrange(28, 44));
    assert(data.subrange(44, 48) =~= head.subrange(44, 48));
    lemma_le32_at(data, 44, 48);
}

/// The value of property `j` stands in a written set where its offset,
/// counted from the section at 48, says.
#[verifier::spinoff_prover]
proof fn lemma_written_value_at(p: PropertySetView, j: int)
    requires
        set_reads_back(p),
        0 <= j < p.properties.len(),
    ensures
        ({
            let props = p.properties;
            let start = (8 + 8 * props.len()) as int;
            let data = spec_set_bytes(p);
            let pos = 48 + value_offset(props, p.codepage, start, j);
            let bytes = spec_value_bytes(props[j].1, p.codepage);
            &&& 56 + 8 * props.len() <= pos
            &&& pos + bytes.len() <= data.len()
            &&& data.subrange(pos, pos + bytes.len()) == bytes
        }),
{
    lemma_set_layout(p);
    let props = p.properties;
    let n = props.len() as int;
    let start = 8 + 8 * n;
    let data = spec_set_bytes(p);
    let values = values_bytes(props, p.codepage, n);
    lemma_value_at(props, p.codepage, start, j, n);
    lemma_value_offset_grows(props, p.codepage, start, 0, j);
    lemma_value_size(props[j].1, p.codepage);
    let a = value_offset(props, p.codepage, start, j) - start;
    let b = value_offset(props, p.codepage, start, j + 1) - start;
    let bytes = spec_value_bytes(props[j].1, p.codepage);
    assert(b - a == bytes.len());
    lemma_window(data, 56 + 8 * n, values, a, b);
}

/// Where `values` stands in `data` from `off` on, any window of it stands
/// there too.
proof fn lemma_window(data: Seq<u8>, off: int, values: Seq<u8>, a: int, b: int)
    requires
        0 <= off,
        off + values.len() <= data.len(),
        0 <= a <= b <= values.len(),
        forall|y: int| 0 <= y < values.len() ==> data[off + y] == #[trigger] values[y],
    ensures
        data.subrange(off + a, off + b) == values.subrange(a, b),
{
    assert forall|i: int| 0 <= i < b - a implies #[trigger] data.subrange(off + a, off + b)[i]
        == values.subrange(a, b)[i] by {
        assert(data[off + (a + i)] == values[a + i]);
    }
    assert(data.subrange(off + a, off + b) =~= values.subrange(a, b));
}

/// Reading the names and offsets of a written set gives them back.
#[verifier::spinoff_prover]
#[verifier::rlimit(50)]
proof fn lemma_read_written_offsets(p: PropertySetView, k: int)
    requires
        set_reads_back(p),
        0 <= k <= p.properties.len(),
    ensures
        spec_read_offsets(spec_set_bytes(p), 48, k) == Ok::<Seq<(u32, u32)>, ErrorKind>(
            written_pairs(p.properties, p.codepage, (8 + 8 * p.properties.len()) as int, k),
        ),
    decreases k,
{
    let props = p.properties;
    let n = props.len() as int;
    let start = 8 + 8 * n;
    let data = spec_set_bytes(p);
    if k == 0 {
        assert(written_pairs(props, p.codepage, start, 0) =~= Seq::<(u32, u32)>::empty());
    } else {
        lemma_read_written_offsets(p, k - 1);
        lemma_set_layout(p);
        let l = written_pairs(props, p.codepage, start, k - 1);
        let pairs = pairs_bytes(props, p.codepage, start, n);
        let at = 48 + 8 + 8 * (k - 1);
        let name = props[k - 1].0;
        let offset = value_offset(props, p.codepage, start, k - 1);
        lemma_pair_at(props, p.codepage, start, k - 1, n);
        lemma_value_offset_grows(props, p.codepage, start, k - 1, n);
        lemma_value_offset_grows(props, p.codepage, start, 0, k - 1);
        assert(data.subrange(at, at + 4) =~= pairs.subrange(8 * (k - 1), 8 * (k - 1) + 4));
        lemma_le32_at(data, at, name as int);
        assert(data.subrange(at + 4, at + 8) =~= pairs.subrange(8 * (k - 1) + 4, 8 * (k - 1) + 8));
        lemma_le32_at(data, at + 4, offset);
        assert(names_increasing(l));
        assert(!has_name(l, name));
        lemma_first_above(l, name, 0);
        if first_above(l, name, 0) < l.len() {
            assert(l[first_above(l, name, 0)].0 < name);
        }
        assert(insert_named(l, name, offset as u32) =~= written_pairs(props, p.codepage, start, k));
    }
}

/// Reading the values of a written set gives them back.
#[verifier::spinoff_prover]
#[verifier::rlimit(50)]
proof fn lemma_read_written_values(p: PropertySetView, k: int)
    requires
        set_reads_back(p),
        0 <= k <= p.properties.len(),
    ensures
        spec_read_values(
            spec_set_bytes(p),
            48,
            written_pairs(p.properties, p.codepage, (8 + 8 * p.properties.len()) as int, p.properties.len() as int),
            p.codepage,
            set_version(p.properties),
            k,
        ) == Ok::<Seq<(u32, PropertyValueView)>, ErrorKind>(p.properties.take(k)),
    decreases k,
{
    let props = p.properties;
    let n = props.len() as int;
    let start = 8 + 8 * n;
    let data = spec_set_bytes(p);
    if k == 0 {
        assert(props.take(0) =~= Seq::<(u32, PropertyValueView)>::empty());
    } else {
        lemma_read_written_values(p, k - 1);
        lemma_written_value_at(p, k - 1);
        lemma_value_offset_grows(props, p.codepage, start, k - 1, n);
        let v = props[k - 1].1;
        let pos = 48 + value_offset(props, p.codepage, start, k - 1);
        let bytes = spec_value_bytes(v, p.codepage);
        assert(value_reads_back(v, p.codepage));
        assert(can_write_value(v, p.codepage));
        assert(data =~= data.take(pos) + bytes + data.skip(pos + bytes.len()));
        lemma_value_round_trip(data.take(pos), v, p.codepage, data.skip(pos + bytes.len()));
        assert(written_pairs(props, p.codepage, start, n)[k - 1].1 as int == value_offset(props, p.codepage, start, k - 1));
        if set_version(props) == PropertyFormatVersion::V0 {
            assert(!(v is I1));
        }
        assert(props.take(k - 1).push((written_pairs(props, p.codepage, start, n)[k - 1].0, v)) =~= props.take(k));
    }
}

/// In increasing names, looking up an entry's name gives its value.
proof fn lemma_lookup_at<V>(l: Seq<(u32, V)>, i: int)
    requires
        names_increasing(l),
        0 <= i < l.len(),
    ensures
        lookup(l, l[i].0) == Some(l[i].1),
{
    let j = choose|j: int| 0 <= j < l.len() && l[j].0 == l[i].0;
    if j < i {
        assert(l[j].0 < l[i].0);
    } else if i < j {
        assert(l[i].0 < l[j].0);
    }
}

/// The code page property of a written set reads back.
#[verifier::spinoff_prover]
proof fn lemma_read_written_codepage_value(p: PropertySetView, i: int)
    requires
        set_reads_back(p),
        0 <= i < p.properties.len(),
        p.properties[i].1 is I2,
    ensures
        spec_read_value(
            spec_set_bytes(p),
            48 + value_offset(p.properties, p.codepage, (8 + 8 * p.properties.len()) as int, i),
            CodePage::Utf8,
        ) matches Ok((r, _)) && r == p.properties[i].1,
{
    let props = p.properties;
    let start = (8 + 8 * props.len()) as int;
    let data = spec_set_bytes(p);
    let v = props[i].1;
    lemma_written_value_at(p, i);
    let pos = 48 + value_offset(props, p.codepage, start, i);
    let bytes = spec_value_bytes(v, p.codepage);
    assert(bytes == spec_value_bytes(v, CodePage::Utf8));
    assert(data =~= data.take(pos) + bytes + data.skip(pos + bytes.len()));
    lemma_value_round_trip(data.take(pos), v, CodePage::Utf8, data.skip(pos + bytes.len()));
}

/// The code page that a section gives, when its code page property, if
/// any, reads as a value that names the code page, and UTF-8 otherwise.
#[verifier::spinoff_prover]
proof fn lemma_codepage_from_offsets(
    data: Seq<u8>,
    props: Seq<(u32, PropertyValueView)>,
    offsets: Seq<(u32, u32)>,
    codepage: CodePage,
)
    requires
        names_increasing(props),
        offsets.len() == props.len(),
        forall|k: int| 0 <= k < offsets.len() ==> (#[trigger] offsets[k]).0 == props[k].0,
        forall|k: int|
            0 <= k < props.len() && props[k].0 == PROPERTY_CODEPAGE ==> (spec_read_value(
                data,
                48 + offsets[k].1,
                CodePage::Utf8,
            ) matches Ok((r, _)) && r == props[k].1),
        match lookup(props, PROPERTY_CODEPAGE) {
            Some(v) => codepage_of(v) == Some(codepage),
            None => codepage == CodePage::Utf8,
        },
    ensures
        spec_read_codepage(data, 48, offsets) == Ok::<CodePage, ErrorKind>(codepage),
{
    assert(names_increasing(offsets)) by {
        assert forall|a: int, b: int| 0 <= a < b < offsets.len() implies offsets[a].0 < offsets[b].0 by {
            assert(offsets[a].0 == props[a].0);
            assert(offsets[b].0 == props[b].0);
        }
    }
    if has_name(props, PROPERTY_CODEPAGE) {
        let i = choose|i: int| 0 <= i < props.len() && props[i].0 == PROPERTY_CODEPAGE;
        lemma_lookup_at(props, i);
        assert(offsets[i].0 == PROPERTY_CODEPAGE);
        lemma_lookup_at(offsets, i);
    } else {
        if has_name(offsets, PROPERTY_CODEPAGE) {
            let j = choose|j: int| 0 <= j < offsets.len() && offsets[j].0 == PROPERTY_CODEPAGE;
            assert(props[j].0 == PROPERTY_CODEPAGE);
        }
    }
}

/// The code page of a written set reads back.
#[verifier::spinoff_prover]
proof fn lemma_read_written_codepage(p: PropertySetView)
    requires
        set_reads_back(p),
    ensures
        spec_read_codepage(
            spec_set_bytes(p),
            48,
            written_pairs(p.properties, p.codepage, (8 + 8 * p.properties.len()) as int, p.properties.len() as int),
        ) == Ok::<CodePage, ErrorKind>(p.codepage),
{
    let props = p.properties;
    let n = props.len() as int;
    let start = 8 + 8 * n;
    let offsets = written_pairs(props, p.codepage, start, n);
    assert forall|k: int|
        0 <= k < props.len() && props[k].0 == PROPERTY_CODEPAGE implies (spec_read_value(
        spec_set_bytes(p),
        48 + offsets[k].1,
        CodePage::Utf8,
    ) matches Ok((r, _)) && r == props[k].1) by {
        lemma_value_offset_grows(props, p.codepage, start, k, n);
        lemma_value_offset_grows(props, p.codepage, start, 0, k);
        assert(offsets[k].1 as int == value_offset(props, p.codepage, start, k));
        lemma_read_written_codepage_value(p, k);
    }
    lemma_codepage_from_offsets(spec_set_bytes(p), props, offsets, p.codepage);
}

/// Reading a written set gives it back, for a set that reads back as
/// written.
#[verifier::spinoff_prover]
pub proof fn lemma_set_round_trip(p: PropertySetView)
    requires
        set_reads_back(p),
    ensures
        spec_read_set(spec_set_bytes(p)) == Ok::<PropertySetView, ErrorKind>(p),
{
    let props = p.properties;
    let n = props.len() as int;
    let start = 8 + 8 * n;
    let data = spec_set_bytes(p);
    assert(data.len() >= 56 && data.subrange(0, 48) == header_bytes(p) && le32(data, 52) == n) by {
        lemma_set_layout(p);
        lemma_le32_at(data, 52, n);
    }
    lemma_read_written_header(data, p);
    lemma_read_written_offsets(p, n);
    lemma_read_written_codepage(p);
    lemma_read_written_values(p, n);
    assert(written_pairs(props, p.codepage, start, n).len() == n);
    assert(props.take(n) =~= props);
}

} // verus!
