//! Database columns: their types, the way their values are stored, and the
//! rules their values follow.

use crate::bytes::{le16, le16_bytes, le32, le32_bytes, lemma_le16_round_trip, lemma_le32_round_trip, read_u16, read_u32, write_u16, write_u32};
use crate::category::{spec_validate, Category};
use crate::error::{Error, ErrorKind};
use crate::stringpool::{
    lemma_string_ref_round_trip, ref_number_bytes, ref_width, spec_read_ref_number, StringRef,
    MAX_STRING_REF,
};
use crate::text::{chars_of, concat3, int_to_string};
use crate::value::{Value, ValueRef, ValueView};
use vstd::prelude::*;

verus! {

/// The bits of the `_Columns` table's Type column that hold the field size.
pub const COL_FIELD_SIZE_MASK: i32 = 0xff;

/// The bit that marks a localizable column.
pub const COL_LOCALIZABLE_BIT: i32 = 0x200;

/// The bit that marks a string column.
pub const COL_STRING_BIT: i32 = 0x800;

/// The bit that marks a nullable column.
pub const COL_NULLABLE_BIT: i32 = 0x1000;

/// The bit that marks a primary key column.
pub const COL_PRIMARY_KEY_BIT: i32 = 0x2000;

/// A bit that is set on every column that this library writes.
pub const COL_VALID_BIT: i32 = 0x100;

/// A bit that is set on every column that does not hold binary data.
pub const COL_NONBINARY_BIT: i32 = 0x400;

/// A database column data type.
#[derive(Clone, Copy, Debug, Eq, PartialEq, Structural)]
pub enum ColumnType {
    /// A 16-bit integer.
    Int16,
    /// A 32-bit integer.
    Int32,
    /// A string, with the specified maximum length (or zero for no max).
    Str(usize),
}

/// The column type that a `_Columns` type bitfield describes, if any.
pub open spec fn spec_from_bitfield(type_bits: i32) -> Option<ColumnType> {
    let field_size = (type_bits & COL_FIELD_SIZE_MASK) as usize;
    if (type_bits & COL_STRING_BIT) != 0 {
        Some(ColumnType::Str(field_size))
    } else if field_size == 4 {
        Some(ColumnType::Int32)
    } else if field_size == 2 || field_size == 1 {
        Some(ColumnType::Int16)
    } else {
        None
    }
}

/// The type bits of a column type.
pub open spec fn spec_type_bits(t: ColumnType) -> i32 {
    match t {
        ColumnType::Int16 => 0x2,
        ColumnType::Int32 => 0x4,
        ColumnType::Str(max_len) => COL_STRING_BIT | (max_len as i32),
    }
}

/// The number of bytes a value of a column type takes in a table stream.
pub open spec fn spec_width(t: ColumnType, long_string_refs: bool) -> int {
    match t {
        ColumnType::Int16 => 2,
        ColumnType::Int32 => 4,
        ColumnType::Str(_) => ref_width(long_string_refs),
    }
}

/// What a value of a column type read at `pos` is, and where the next value
/// starts; `None` when the data ends first.  Integers are stored with their
/// sign bit flipped, and zero stands for null.
pub open spec fn spec_read_value(t: ColumnType, data: Seq<u8>, pos: int, long_string_refs: bool) -> Option<(ValueRef, int)> {
    match t {
        ColumnType::Int16 => if pos + 2 <= data.len() {
            let u = le16(data, pos);
            Some((if u == 0 { ValueRef::Null } else { ValueRef::Int((u - 0x8000) as i32) }, pos + 2))
        } else {
            None
        },
        ColumnType::Int32 => if pos + 4 <= data.len() {
            let u = le32(data, pos);
            Some((if u == 0 { ValueRef::Null } else { ValueRef::Int((u - 0x8000_0000) as i32) }, pos + 4))
        } else {
            None
        },
        ColumnType::Str(_) => match spec_read_ref_number(data, pos, long_string_refs) {
            None => None,
            Some(n) => Some((
                if n == 0 {
                    ValueRef::Null
                } else {
                    ValueRef::Str(choose|s: StringRef| s.spec_number() == n)
                },
                pos + ref_width(long_string_refs),
            )),
        },
    }
}

/// Whether a value reference can be written to a column of a type.
pub open spec fn can_write(t: ColumnType, v: ValueRef, long_string_refs: bool) -> bool {
    match t {
        ColumnType::Int16 | ColumnType::Int32 => v is Null || v is Int,
        ColumnType::Str(_) => match v {
            ValueRef::Null => true,
            ValueRef::Str(s) => long_string_refs || s.spec_number() <= 65535,
            _ => false,
        },
    }
}

/// The bytes that a value reference takes in a column of a type.
pub open spec fn spec_value_bytes(t: ColumnType, v: ValueRef, long_string_refs: bool) -> Seq<u8> {
    match t {
        ColumnType::Int16 => match v {
            ValueRef::Int(n) => le16_bytes((n + 0x8000) % 65536),
            _ => le16_bytes(0),
        },
        ColumnType::Int32 => match v {
            ValueRef::Int(n) => le32_bytes(n + 0x8000_0000),
            _ => le32_bytes(0),
        },
        ColumnType::Str(_) => match v {
            ValueRef::Str(s) => ref_number_bytes(s.spec_number(), long_string_refs),
            _ => ref_number_bytes(0, long_string_refs),
        },
    }
}

impl ColumnType {
    /// Decodes the type bits of a `_Columns` entry.  Fails with
    /// `InvalidData` for an integer column whose field size is not 1, 2 or 4.
    pub fn from_bitfield(type_bits: i32) -> (r: Result<ColumnType, Error>)
        ensures
            match spec_from_bitfield(type_bits) {
                Some(t) => r == Ok::<ColumnType, Error>(t),
                None => r matches Err(e) && e.kind == ErrorKind::InvalidData,
            },
    {
        let field_size = (type_bits & COL_FIELD_SIZE_MASK) as usize;
        if (type_bits & COL_STRING_BIT) != 0 {
            Ok(ColumnType::Str(field_size))
        } else if field_size == 4 {
            Ok(ColumnType::Int32)
        } else if field_size == 2 || field_size == 1 {
            Ok(ColumnType::Int16)
        } else {
            let message = concat3(
                "Invalid field size for integer column (",
                int_to_string(field_size as i64).as_str(),
                ")",
            );
            Err(Error::new(ErrorKind::InvalidData, message))
        }
    }

    /// Returns the type bits of this column type.
    pub fn bitfield(&self) -> (r: i32)
        ensures
            r == spec_type_bits(*self),
    {
        match *self {
            ColumnType::Int16 => 0x2,
            ColumnType::Int32 => 0x4,
            ColumnType::Str(max_len) => COL_STRING_BIT | (max_len as i32),
        }
    }

    /// Reads a value of this type at `pos`, returning it and the position
    /// after it.  Fails with `UnexpectedEof` when the data ends first.
    pub fn read_value(&self, data: &[u8], pos: usize, long_string_refs: bool) -> (r: Result<(ValueRef, usize), Error>)
        ensures
            match spec_read_value(*self, data@, pos as int, long_string_refs) {
                Some((v, next)) => r matches Ok((rv, rn)) && rv == v && rn == next,
                None => r matches Err(e) && e.kind == ErrorKind::UnexpectedEof,
            },
    {
        match *self {
            ColumnType::Int16 => match read_u16(data, pos) {
                Some(u) => {
                    if u == 0 {
                        Ok((ValueRef::Null, pos + 2))
                    } else {
                        Ok((ValueRef::Int(u as i32 - 0x8000), pos + 2))
                    }
                },
                None => Err(Error::with_text(ErrorKind::UnexpectedEof, "failed to fill whole buffer")),
            },
            ColumnType::Int32 => match read_u32(data, pos) {
                Some(u) => {
                    if u == 0 {
                        Ok((ValueRef::Null, pos + 4))
                    } else {
                        Ok((ValueRef::Int((u as i64 - 0x8000_0000) as i32), pos + 4))
                    }
                },
                None => Err(Error::with_text(ErrorKind::UnexpectedEof, "failed to fill whole buffer")),
            },
            ColumnType::Str(_) => match StringRef::read(data, pos, long_string_refs) {
                Ok((Some(string_ref), next)) => {
                    proof {
                        let n = string_ref.spec_number();
                        let c = choose|x: StringRef| x.spec_number() == n;
                        assert(c.spec_number() == n);
                        crate::stringpool::lemma_string_ref_number_injective(c, string_ref);
                    }
                    Ok((ValueRef::Str(string_ref), next))
                },
                Ok((None, next)) => Ok((ValueRef::Null, next)),
                Err(e) => Err(e),
            },
        }
    }

    /// Appends a value of this type.  Fails with `InvalidInput` (writing
    /// nothing) when the value does not fit the type: a string or binary
    /// value in an integer column, an integer or binary value in a string
    /// column, or a reference above 65535 with two-byte references.
    pub fn write_value(&self, out: &mut Vec<u8>, value_ref: ValueRef, long_string_refs: bool) -> (r: Result<(), Error>)
        ensures
            can_write(*self, value_ref, long_string_refs) <==> r is Ok,
            r is Ok ==> final(out)@ == old(out)@ + spec_value_bytes(*self, value_ref, long_string_refs),
            r matches Err(e) ==> e.kind == ErrorKind::InvalidInput && final(out)@ == old(out)@,
    {
        match *self {
            ColumnType::Int16 => match value_ref {
                ValueRef::Null => {
                    write_u16(out, 0);
                    Ok(())
                },
                ValueRef::Int(number) => {
                    let t: u64 = (number as i64 + 0x8000 + 0x1_0000_0000) as u64;
                    proof {
                        assert((number + 0x8000 + 0x1_0000_0000) % 65536 == (number + 0x8000) % 65536);
                    }
                    write_u16(out, (t % 65536) as u16);
                    Ok(())
                },
                _ => Err(Error::with_text(ErrorKind::InvalidInput, "Cannot write value to SMALLINT column")),
            },
            ColumnType::Int32 => match value_ref {
                ValueRef::Null => {
                    write_u32(out, 0);
                    Ok(())
                },
                ValueRef::Int(number) => {
                    write_u32(out, (number as i64 + 0x8000_0000) as u32);
                    Ok(())
                },
                _ => Err(Error::with_text(ErrorKind::InvalidInput, "Cannot write value to INTEGER column")),
            },
            ColumnType::Str(_) => match value_ref {
                ValueRef::Null => StringRef::write(out, None, long_string_refs),
                ValueRef::Str(string_ref) => StringRef::write(out, Some(string_ref), long_string_refs),
                _ => Err(Error::with_text(ErrorKind::InvalidInput, "Cannot write value to VARCHAR column")),
            },
        }
    }

    /// Returns the number of bytes a value of this type takes.
    pub fn width(&self, long_string_refs: bool) -> (r: u64)
        ensures
            r == spec_width(*self, long_string_refs),
    {
        match *self {
            ColumnType::Int16 => 2,
            ColumnType::Int32 => 4,
            ColumnType::Str(_) => {
                if long_string_refs {
                    3
                } else {
                    2
                }
            },
        }
    }

    /// Returns the SQL name of this type (what `Display` writes):
    /// `SMALLINT`, `INTEGER` or `VARCHAR(n)`.
    pub fn to_string(&self) -> (r: String)
        ensures
            r@ == match *self {
                ColumnType::Int16 => "SMALLINT"@,
                ColumnType::Int32 => "INTEGER"@,
                ColumnType::Str(n) => "VARCHAR("@ + crate::text::nat_text(n as nat) + ")"@,
            },
    {
        match *self {
            ColumnType::Int16 => "SMALLINT".to_owned(),
            ColumnType::Int32 => "INTEGER".to_owned(),
            ColumnType::Str(max_len) => {
                concat3("VARCHAR(", crate::text::nat_to_string(max_len as u64).as_str(), ")")
            },
        }
    }
}

/// Reading a written value gives back the value, for every value that the
/// column type can store: integers other than the one whose stored form is
/// zero (which reads as null), null, and string references.
pub proof fn lemma_value_round_trip(pre: Seq<u8>, t: ColumnType, v: ValueRef, long_string_refs: bool, post: Seq<u8>)
    requires
        can_write(t, v, long_string_refs),
        t is Int16 ==> (v matches ValueRef::Int(n) ==> -32768 < n <= 32767),
        t is Int32 ==> (v matches ValueRef::Int(n) ==> n != i32::MIN),
        v matches ValueRef::Str(s) ==> 0 < s.spec_number() <= MAX_STRING_REF,
    ensures
        spec_read_value(t, pre + spec_value_bytes(t, v, long_string_refs) + post, pre.len() as int, long_string_refs)
            == Some((v, pre.len() + spec_width(t, long_string_refs))),
{
    match t {
        ColumnType::Int16 => {
            match v {
                ValueRef::Int(n) => lemma_le16_round_trip(pre, (n + 0x8000) % 65536, post),
                _ => lemma_le16_round_trip(pre, 0, post),
            }
        },
        ColumnType::Int32 => {
            match v {
                ValueRef::Int(n) => lemma_le32_round_trip(pre, n + 0x8000_0000, post),
                _ => lemma_le32_round_trip(pre, 0, post),
            }
        },
        ColumnType::Str(_) => {
            match v {
                ValueRef::Str(s) => {
                    lemma_string_ref_round_trip(pre, Some(s), long_string_refs, post);
                    let n = s.spec_number();
                    let c = choose|x: StringRef| x.spec_number() == n;
                    assert(c.spec_number() == n);
                    crate::stringpool::lemma_string_ref_number_injective(c, s);
                },
                _ => lemma_string_ref_round_trip(pre, None, long_string_refs, post),
            }
        },
    }
}

/// A database column.
#[derive(Clone, Debug)]
pub struct Column {
    name: String,
    coltype: ColumnType,
    is_localizable: bool,
    is_nullable: bool,
    is_primary_key: bool,
    value_range: Option<(i32, i32)>,
    foreign_key: Option<(String, i32)>,
    category: Option<Category>,
    enum_values: Vec<String>,
}

/// The mathematical model of a [`Column`].
pub struct ColumnView {
    /// The column's name.
    pub name: Seq<char>,
    /// The column's data type.
    pub coltype: ColumnType,
    /// Whether values can be localized.
    pub is_localizable: bool,
    /// Whether values can be null.
    pub is_nullable: bool,
    /// Whether the column is part of the primary key.
    pub is_primary_key: bool,
    /// The permitted range of integer values, if any.
    pub value_range: Option<(i32, i32)>,
    /// The table and column index that the column refers to, if any.
    pub foreign_key: Option<(Seq<char>, i32)>,
    /// The format of string values, if any.
    pub category: Option<Category>,
    /// The permitted string values (empty for no restriction).
    pub enum_values: Seq<Seq<char>>,
}

/// The texts of a sequence of strings.
pub open spec fn strings_view(v: Seq<String>) -> Seq<Seq<char>> {
    v.map_values(|s: String| s@)
}

impl View for Column {
    type V = ColumnView;

    closed spec fn view(&self) -> ColumnView {
        ColumnView {
            name: self.name@,
            coltype: self.coltype,
            is_localizable: self.is_localizable,
            is_nullable: self.is_nullable,
            is_primary_key: self.is_primary_key,
            value_range: self.value_range,
            foreign_key: match self.foreign_key {
                Some((t, i)) => Some((t@, i)),
                None => None,
            },
            category: self.category,
            enum_values: strings_view(self.enum_values@),
        }
    }
}

/// Whether a value may be stored in a column.
pub open spec fn spec_is_valid_value(c: ColumnView, v: ValueView) -> bool {
    match v {
        ValueView::Null => c.is_nullable,
        ValueView::Int(n) => {
            &&& (c.value_range matches Some((min, max)) ==> min <= n <= max)
            &&& match c.coltype {
                ColumnType::Int16 => -32768 < n <= 32767,
                ColumnType::Int32 => n > i32::MIN,
                ColumnType::Str(_) => false,
            }
        },
        ValueView::Str(s) => match c.coltype {
            ColumnType::Str(max_len) => {
                &&& (c.category matches Some(cat) ==> spec_validate(cat, s))
                &&& (c.enum_values.len() > 0 ==> c.enum_values.contains(s))
                &&& (max_len == 0 || s.len() <= max_len)
            },
            _ => false,
        },
        ValueView::Binary => c.coltype is Str && c.category == Some(Category::Binary),
    }
}

/// Whether a column holds something other than binary data.
pub open spec fn is_nonbinary(c: ColumnView) -> bool {
    match c.coltype {
        ColumnType::Int16 => true,
        ColumnType::Int32 => false,
        ColumnType::Str(n) => n != 0 || c.category != Some(Category::Binary),
    }
}

/// The `_Columns` type bitfield of a column.
pub open spec fn spec_column_bits(c: ColumnView) -> i32 {
    spec_type_bits(c.coltype) | COL_VALID_BIT | (if c.is_localizable {
        COL_LOCALIZABLE_BIT
    } else {
        0
    }) | (if c.is_nullable {
        COL_NULLABLE_BIT
    } else {
        0
    }) | (if is_nonbinary(c) {
        COL_NONBINARY_BIT
    } else {
        0
    }) | (if c.is_primary_key {
        COL_PRIMARY_KEY_BIT
    } else {
        0
    })
}

/// Copies a list of strings.
fn copy_strings(v: &Vec<String>) -> (r: Vec<String>)
    ensures
        strings_view(r@) == strings_view(v@),
{
    let mut r: Vec<String> = Vec::new();
    let mut i: usize = 0;
    while i < v.len()
        invariant
            i <= v.len(),
            strings_view(r@) == strings_view(v@.take(i as int)),
        decreases v.len() - i,
    {
        let ghost before = r@;
        let item = v[i].clone();
        assert(item@ == v@[i as int]@);
        r.push(item);
        proof {
            assert(r@ == before.push(item));
            assert(v@.take(i + 1) =~= v@.take(i as int).push(v@[i as int]));
            assert(strings_view(r@) =~= strings_view(before).push(item@));
            assert(strings_view(v@.take(i + 1)) =~= strings_view(v@.take(i as int)).push(v@[i as int]@));
            assert(strings_view(r@) =~= strings_view(v@.take(i + 1)));
        }
        i = i + 1;
    }
    proof {
        assert(v@.take(v@.len() as int) =~= v@);
    }
    r
}

/// Whether a string is one of a list.
fn contains_string(v: &Vec<String>, s: &String) -> (r: bool)
    ensures
        r == strings_view(v@).contains(s@),
{
    let mut i: usize = 0;
    while i < v.len()
        invariant
            i <= v.len(),
            forall|j: int| 0 <= j < i ==> v@[j]@ != s@,
        decreases v.len() - i,
    {
        if crate::value::string_equal(&v[i], s) {
            proof {
                assert(strings_view(v@)[i as int] == s@);
            }
            return true;
        }
        i = i + 1;
    }
    proof {
        if strings_view(v@).contains(s@) {
            let k = choose|k: int| 0 <= k < strings_view(v@).len() && strings_view(v@)[k] == s@;
            assert(v@[k]@ == s@);
        }
    }
    false
}

impl Column {
    /// Begins building a new column with the given name.
    pub fn build(name: &str) -> (r: ColumnBuilder)
        ensures
            r@ == (BuilderView {
                name: name@,
                is_localizable: false,
                is_nullable: false,
                is_primary_key: false,
                value_range: None,
                foreign_key: None,
                category: None,
                enum_values: Seq::empty(),
            }),
    {
        ColumnBuilder::new(name.to_owned())
    }

    /// Returns a copy of this column.
    pub fn duplicate(&self) -> (r: Column)
        ensures
            r@ == self@,
    {
        Column {
            name: self.name.clone(),
            coltype: self.coltype,
            is_localizable: self.is_localizable,
            is_nullable: self.is_nullable,
            is_primary_key: self.is_primary_key,
            value_range: self.value_range,
            foreign_key: match &self.foreign_key {
                Some((t, i)) => Some((t.clone(), *i)),
                None => None,
            },
            category: self.category,
            enum_values: copy_strings(&self.enum_values),
        }
    }

    /// Returns this column with its name prefixed by `prefix` and a period
    /// (unchanged if the prefix is empty).
    pub fn with_name_prefix(&self, prefix: &str) -> (r: Column)
        ensures
            r@ == (ColumnView {
                name: if prefix@.len() == 0 {
                    self@.name
                } else {
                    prefix@ + "."@ + self@.name
                },
                ..self@
            }),
    {
        let mut c = self.duplicate();
        if chars_of(prefix).len() != 0 {
            c.name = concat3(prefix, ".", self.name.as_str());
        }
        c
    }

    /// Returns this column, made nullable.
    pub fn but_nullable(self) -> (r: Column)
        ensures
            r@ == (ColumnView { is_nullable: true, ..self@ }),
    {
        let mut c = self;
        c.is_nullable = true;
        c
    }

    /// Returns the `_Columns` type bitfield of this column.
    pub fn bitfield(&self) -> (r: i32)
        ensures
            r == spec_column_bits(self@),
    {
        let mut bits = self.coltype.bitfield() | COL_VALID_BIT;
        if self.is_localizable {
            bits = bits | COL_LOCALIZABLE_BIT;
        } else {
            bits = bits | 0;
        }
        if self.is_nullable {
            bits = bits | COL_NULLABLE_BIT;
        } else {
            bits = bits | 0;
        }
        let nonbinary = match self.coltype {
            ColumnType::Int16 => true,
            ColumnType::Int32 => false,
            ColumnType::Str(n) => n != 0 || self.category != Some(Category::Binary),
        };
        if nonbinary {
            bits = bits | COL_NONBINARY_BIT;
        } else {
            bits = bits | 0;
        }
        if self.is_primary_key {
            bits = bits | COL_PRIMARY_KEY_BIT;
        } else {
            bits = bits | 0;
        }
        bits
    }

    /// Returns true if the given string is a valid column name.
    pub fn is_valid_name(name: &str) -> (r: bool)
        ensures
            r == spec_validate(Category::Identifier, name@),
    {
        Category::Identifier.validate(name)
    }

    /// Returns the name of the column.
    pub fn name(&self) -> (r: &str)
        ensures
            r@ == self@.name,
    {
        self.name.as_str()
    }

    /// Returns the type of data stored in the column.
    pub fn coltype(&self) -> (r: ColumnType)
        ensures
            r == self@.coltype,
    {
        self.coltype
    }

    /// Returns true if values in this column can be localized.
    pub fn is_localizable(&self) -> (r: bool)
        ensures
            r == self@.is_localizable,
    {
        self.is_localizable
    }

    /// Returns true if values in this column can be null.
    pub fn is_nullable(&self) -> (r: bool)
        ensures
            r == self@.is_nullable,
    {
        self.is_nullable
    }

    /// Returns true if this is primary key column.
    pub fn is_primary_key(&self) -> (r: bool)
        ensures
            r == self@.is_primary_key,
    {
        self.is_primary_key
    }

    /// Returns the (min, max) integer value range for this column, if any.
    pub fn value_range(&self) -> (r: Option<(i32, i32)>)
        ensures
            r == self@.value_range,
    {
        self.value_range
    }

    /// Returns the table name and column index that this column refers to,
    /// if any.
    pub fn foreign_key(&self) -> (r: Option<(&str, i32)>)
        ensures
            r is Some == self@.foreign_key is Some,
            r matches Some((t, i)) ==> self@.foreign_key == Some((t@, i)),
    {
        match &self.foreign_key {
            Some((name, index)) => Some((name.as_str(), *index)),
            None => None,
        }
    }

    /// Returns the string value category for this column, if any.
    pub fn category(&self) -> (r: Option<Category>)
        ensures
            r == self@.category,
    {
        self.category
    }

    /// Returns the list of valid enum values for this column, if any.
    pub fn enum_values(&self) -> (r: Option<&[String]>)
        ensures
            r is Some == (self@.enum_values.len() > 0),
            r matches Some(v) ==> strings_view(v@) == self@.enum_values,
    {
        if self.enum_values.len() == 0 {
            None
        } else {
            Some(self.enum_values.as_slice())
        }
    }

    /// Returns true if the given value is valid for this column.
    pub fn is_valid_value(&self, value: &Value) -> (r: bool)
        ensures
            r == spec_is_valid_value(self@, value@),
    {
        match value {
            Value::Null => self.is_nullable,
            Value::Int(number) => {
                let number = *number;
                if let Some((min, max)) = self.value_range {
                    if number < min || number > max {
                        return false;
                    }
                }
                match self.coltype {
                    ColumnType::Int16 => number > -32768 && number <= 32767,
                    ColumnType::Int32 => number > i32::MIN,
                    ColumnType::Str(_) => false,
                }
            },
            Value::Str(string) => match self.coltype {
                ColumnType::Int16 | ColumnType::Int32 => false,
                ColumnType::Str(max_len) => {
                    if let Some(category) = self.category {
                        if !category.validate(string.as_str()) {
                            return false;
                        }
                    }
                    if self.enum_values.len() != 0 && !contains_string(&self.enum_values, string) {
                        return false;
                    }
                    max_len == 0 || chars_of(string.as_str()).len() <= max_len
                },
            },
            Value::Binary => match self.coltype {
                ColumnType::Str(_) => self.category == Some(Category::Binary),
                _ => false,
            },
        }
    }
}

/// A factory for configuring a new database column.
pub struct ColumnBuilder {
    name: String,
    is_localizable: bool,
    is_nullable: bool,
    is_primary_key: bool,
    value_range: Option<(i32, i32)>,
    foreign_key: Option<(String, i32)>,
    category: Option<Category>,
    enum_values: Vec<String>,
}

/// The mathematical model of a [`ColumnBuilder`]: a column without its
/// type.
pub struct BuilderView {
    /// The column's name.
    pub name: Seq<char>,
    /// Whether values can be localized.
    pub is_localizable: bool,
    /// Whether values can be null.
    pub is_nullable: bool,
    /// Whether the column is part of the primary key.
    pub is_primary_key: bool,
    /// The permitted range of integer values, if any.
    pub value_range: Option<(i32, i32)>,
    /// The table and column index that the column refers to, if any.
    pub foreign_key: Option<(Seq<char>, i32)>,
    /// The format of string values, if any.
    pub category: Option<Category>,
    /// The permitted string values (empty for no restriction).
    pub enum_values: Seq<Seq<char>>,
}

impl View for ColumnBuilder {
    type V = BuilderView;

    closed spec fn view(&self) -> BuilderView {
        BuilderView {
            name: self.name@,
            is_localizable: self.is_localizable,
            is_nullable: self.is_nullable,
            is_primary_key: self.is_primary_key,
            value_range: self.value_range,
            foreign_key: match self.foreign_key {
                Some((t, i)) => Some((t@, i)),
                None => None,
            },
            category: self.category,
            enum_values: strings_view(self.enum_values@),
        }
    }
}

/// The column that a builder makes with a type.
pub open spec fn built_column(b: BuilderView, t: ColumnType) -> ColumnView {
    ColumnView {
        name: b.name,
        coltype: t,
        is_localizable: b.is_localizable,
        is_nullable: b.is_nullable,
        is_primary_key: b.is_primary_key,
        value_range: b.value_range,
        foreign_key: b.foreign_key,
        category: b.category,
        enum_values: b.enum_values,
    }
}

impl ColumnBuilder {
    /// Starts a builder for a column with the given name.
    fn new(name: String) -> (r: ColumnBuilder)
        ensures
            r@ == (BuilderView {
                name: name@,
                is_localizable: false,
                is_nullable: false,
                is_primary_key: false,
                value_range: None,
                foreign_key: None,
                category: None,
                enum_values: Seq::empty(),
            }),
    {
        let r = ColumnBuilder {
            name,
            is_localizable: false,
            is_nullable: false,
            is_primary_key: false,
            value_range: None,
            foreign_key: None,
            category: None,
            enum_values: Vec::new(),
        };
        proof {
            assert(strings_view(r.enum_values@) =~= Seq::<Seq<char>>::empty());
        }
        r
    }

    /// Makes the column be localizable.
    pub fn localizable(self) -> (r: ColumnBuilder)
        ensures
            r@ == (BuilderView { is_localizable: true, ..self@ }),
    {
        let mut b = self;
        b.is_localizable = true;
        b
    }

    /// Makes the column allow null values.
    pub fn nullable(self) -> (r: ColumnBuilder)
        ensures
            r@ == (BuilderView { is_nullable: true, ..self@ }),
    {
        let mut b = self;
        b.is_nullable = true;
        b
    }

    /// Makes the column be a primary key column.
    pub fn primary_key(self) -> (r: ColumnBuilder)
        ensures
            r@ == (BuilderView { is_primary_key: true, ..self@ }),
    {
        let mut b = self;
        b.is_primary_key = true;
        b
    }

    /// Makes the column only permit values in the given range.
    pub fn range(self, min: i32, max: i32) -> (r: ColumnBuilder)
        ensures
            r@ == (BuilderView { value_range: Some((min, max)), ..self@ }),
    {
        let mut b = self;
        b.value_range = Some((min, max));
        b
    }

    /// Makes the column refer to a key column in another table.
    pub fn foreign_key(self, table_name: &str, column_index: i32) -> (r: ColumnBuilder)
        ensures
            r@ == (BuilderView { foreign_key: Some((table_name@, column_index)), ..self@ }),
    {
        let mut b = self;
        b.foreign_key = Some((table_name.to_owned(), column_index));
        b
    }

    /// For string columns, makes the column use the specified data format.
    pub fn category(self, category: Category) -> (r: ColumnBuilder)
        ensures
            r@ == (BuilderView { category: Some(category), ..self@ }),
    {
        let mut b = self;
        b.category = Some(category);
        b
    }

    /// Makes the column only permit the given values.
    pub fn enum_values(self, values: &[&str]) -> (r: ColumnBuilder)
        ensures
            r@ == (BuilderView { enum_values: values@.map_values(|s: &str| s@), ..self@ }),
    {
        let mut list: Vec<String> = Vec::new();
        let mut i: usize = 0;
        while i < values.len()
            invariant
                i <= values.len(),
                strings_view(list@) == values@.take(i as int).map_values(|s: &str| s@),
            decreases values.len() - i,
        {
            let ghost before = list@;
            let text: &str = values[i];
            let item = text.to_owned();
            list.push(item);
            proof {
                assert(list@ == before.push(item));
                assert(values@.take(i + 1) =~= values@.take(i as int).push(text));
                assert(strings_view(list@) =~= strings_view(before).push(item@));
                assert(values@.take(i + 1).map_values(|s: &str| s@) =~= values@.take(i as int).map_values(|s: &str| s@).push(text@));
                assert(strings_view(list@) =~= values@.take(i + 1).map_values(|s: &str| s@));
            }
            i = i + 1;
        }
        proof {
            assert(values@.take(values@.len() as int) =~= values@);
        }
        let mut b = self;
        b.enum_values = list;
        b
    }

    /// Builds a column that stores a 16-bit integer.
    pub fn int16(self) -> (r: Column)
        ensures
            r@ == built_column(self@, ColumnType::Int16),
    {
        self.with_type(ColumnType::Int16)
    }

    /// Builds a column that stores a 32-bit integer.
    pub fn int32(self) -> (r: Column)
        ensures
            r@ == built_column(self@, ColumnType::Int32),
    {
        self.with_type(ColumnType::Int32)
    }

    /// Builds a column that stores a string.
    pub fn string(self, max_len: usize) -> (r: Column)
        ensures
            r@ == built_column(self@, ColumnType::Str(max_len)),
    {
        self.with_type(ColumnType::Str(max_len))
    }

    /// Builds a column that stores an identifier string.  This is equivalent
    /// to `self.category(Category::Identifier).string(max_len)`.
    pub fn id_string(self, max_len: usize) -> (r: Column)
        ensures
            r@ == built_column(
                BuilderView { category: Some(Category::Identifier), ..self@ },
                ColumnType::Str(max_len),
            ),
    {
        self.category(Category::Identifier).string(max_len)
    }

    /// Builds a column that stores a text string.  This is equivalent to
    /// `self.category(Category::Text).string(max_len)`.
    pub fn text_string(self, max_len: usize) -> (r: Column)
        ensures
            r@ == built_column(
                BuilderView { category: Some(Category::Text), ..self@ },
                ColumnType::Str(max_len),
            ),
    {
        self.category(Category::Text).string(max_len)
    }

    /// Builds a column that stores a formatted string.  This is equivalent to
    /// `self.category(Category::Formatted).string(max_len)`.
    pub fn formatted_string(self, max_len: usize) -> (r: Column)
        ensures
            r@ == built_column(
                BuilderView { category: Some(Category::Formatted), ..self@ },
                ColumnType::Str(max_len),
            ),
    {
        self.category(Category::Formatted).string(max_len)
    }

    /// Builds a column that refers to a binary data stream.  This sets the
    /// category to `Category::Binary` in addition to setting the column
    /// type.
    pub fn binary(self) -> (r: Column)
        ensures
            r@ == built_column(
                BuilderView { category: Some(Category::Binary), ..self@ },
                ColumnType::Str(0),
            ),
    {
        self.category(Category::Binary).string(0)
    }

    /// Builds the column with a type.
    fn with_type(self, coltype: ColumnType) -> (r: Column)
        ensures
            r@ == built_column(self@, coltype),
    {
        Column {
            name: self.name,
            coltype,
            is_localizable: self.is_localizable,
            is_nullable: self.is_nullable,
            is_primary_key: self.is_primary_key,
            value_range: self.value_range,
            foreign_key: self.foreign_key,
            category: self.category,
            enum_values: self.enum_values,
        }
    }

    /// Builds the column from a `_Columns` type bitfield: the type, and
    /// whether the column is localizable, nullable (also when the builder
    /// says so) and part of the primary key.  Fails with `InvalidData` when
    /// the bitfield names no type.
    pub fn with_bitfield(self, type_bits: i32) -> (r: Result<Column, Error>)
        ensures
            match spec_from_bitfield(type_bits) {
                Some(t) => r matches Ok(c) && c@ == (ColumnView {
                    is_localizable: (type_bits & COL_LOCALIZABLE_BIT) != 0,
                    is_nullable: (type_bits & COL_NULLABLE_BIT) != 0 || self@.is_nullable,
                    is_primary_key: (type_bits & COL_PRIMARY_KEY_BIT) != 0,
                    ..built_column(self@, t)
                }),
                None => r matches Err(e) && e.kind == ErrorKind::InvalidData,
            },
    {
        let is_nullable = (type_bits & COL_NULLABLE_BIT) != 0;
        let coltype = match ColumnType::from_bitfield(type_bits) {
            Ok(t) => t,
            Err(e) => {
                return Err(e);
            },
        };
        Ok(
            Column {
                name: self.name,
                coltype,
                is_localizable: (type_bits & COL_LOCALIZABLE_BIT) != 0,
                is_nullable: is_nullable || self.is_nullable,
                is_primary_key: (type_bits & COL_PRIMARY_KEY_BIT) != 0,
                value_range: self.value_range,
                foreign_key: self.foreign_key,
                category: self.category,
                enum_values: self.enum_values,
            },
        )
    }
}

} // verus!
