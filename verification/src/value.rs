//! Values stored in the cells of database rows.

use crate::text::{int_text, int_to_string};
use vstd::prelude::*;
use crate::stringpool::{can_add, spec_decref, spec_incref, StringPool, StringRef};
use vstd::std_specs::convert::FromSpecImpl;

verus! {

/// A value from one cell in a database table row.
#[derive(Clone, Debug, Eq, Hash, Ord, PartialEq, PartialOrd)]
pub enum Value {
    /// A null value.
    Null,
    /// An integer value.
    Int(i32),
    /// A string value.
    Str(String),
    /// A binary stream
    Binary,
}

/// The mathematical model of a [`Value`]: strings are taken by their
/// characters.
pub enum ValueView {
    /// A null value.
    Null,
    /// An integer value.
    Int(i32),
    /// A string value.
    Str(Seq<char>),
    /// A binary stream.
    Binary,
}

impl View for Value {
    type V = ValueView;

    open spec fn view(&self) -> ValueView {
        match self {
            Value::Null => ValueView::Null,
            Value::Int(n) => ValueView::Int(*n),
            Value::Str(s) => ValueView::Str(s@),
            Value::Binary => ValueView::Binary,
        }
    }
}

/// The boolean value of a value: false for null, zero and the empty string,
/// true for everything else (binary streams cannot be null).
pub open spec fn spec_to_bool(v: ValueView) -> bool {
    match v {
        ValueView::Null => false,
        ValueView::Int(n) => n != 0,
        ValueView::Str(s) => s.len() != 0,
        ValueView::Binary => true,
    }
}

/// The integer value that stands for a boolean.
pub open spec fn spec_from_bool(b: bool) -> ValueView {
    if b {
        ValueView::Int(1)
    } else {
        ValueView::Int(0)
    }
}

/// The rank of a value's variant in the order of values.
pub open spec fn variant_rank(v: ValueView) -> int {
    match v {
        ValueView::Null => 0,
        ValueView::Int(_) => 1,
        ValueView::Str(_) => 2,
        ValueView::Binary => 3,
    }
}

/// The lexicographic order of strings, by the scalar values of their
/// characters (the order of their UTF-8 bytes).
pub open spec fn text_less(a: Seq<char>, b: Seq<char>) -> bool
    decreases a.len(),
{
    if a.len() == 0 {
        b.len() > 0
    } else if b.len() == 0 {
        false
    } else if a[0] != b[0] {
        (a[0] as u32) < (b[0] as u32)
    } else {
        text_less(a.drop_first(), b.drop_first())
    }
}

/// The order of values: by variant (null, integer, string, binary), then by
/// contents.
pub open spec fn value_less(a: ValueView, b: ValueView) -> bool {
    if variant_rank(a) != variant_rank(b) {
        variant_rank(a) < variant_rank(b)
    } else {
        match (a, b) {
            (ValueView::Int(x), ValueView::Int(y)) => x < y,
            (ValueView::Str(x), ValueView::Str(y)) => text_less(x, y),
            _ => false,
        }
    }
}

/// What `Debug` formatting writes for a string: the string in double
/// quotes, with escapes.
pub uninterp spec fn debug_quoted(s: Seq<char>) -> Seq<char>;

/// Formats a string with `format!("{:?}", ..)`.  The contract claims only
/// that the text depends on the string alone.
#[verifier::external_body]
pub(crate) fn debug_text(s: &str) -> (r: String)
    ensures
        r@ == debug_quoted(s@),
{
    format!("{:?}", s)
}

/// The text that displaying a value writes.
pub open spec fn value_text(v: ValueView) -> Seq<char> {
    match v {
        ValueView::Null => "NULL"@,
        ValueView::Int(n) => int_text(n as int),
        ValueView::Str(s) => debug_quoted(s),
        ValueView::Binary => "BINARY_STREAM"@,
    }
}

/// Whether two strings are the same text.
pub fn string_equal(a: &String, b: &String) -> (r: bool)
    ensures
        r == (a@ == b@),
{
    a.eq(b)
}

/// Compares two strings in the order of `text_less`.
fn string_less(a: &str, b: &str) -> (r: bool)
    ensures
        r == text_less(a@, b@),
{
    let x = crate::text::chars_of(a);
    let y = crate::text::chars_of(b);
    let mut i: usize = 0;
    proof {
        assert(x@.skip(0) =~= x@);
        assert(y@.skip(0) =~= y@);
    }
    while i < x.len() && i < y.len() && x[i] == y[i]
        invariant
            i <= x@.len(),
            i <= y@.len(),
            text_less(x@, y@) == text_less(x@.skip(i as int), y@.skip(i as int)),
        decreases x.len() - i,
    {
        proof {
            assert(x@.skip(i as int).drop_first() =~= x@.skip(i + 1));
            assert(y@.skip(i as int).drop_first() =~= y@.skip(i + 1));
        }
        i = i + 1;
    }
    if i == x.len() {
        i < y.len()
    } else if i == y.len() {
        false
    } else {
        (x[i] as u32) < (y[i] as u32)
    }
}

impl Value {
    /// Returns true if this is a null value.
    pub fn is_null(&self) -> (r: bool)
        ensures
            r == (self@ is Null),
    {
        match *self {
            Value::Null => true,
            _ => false,
        }
    }

    /// Returns true if this is an integer value.
    pub fn is_int(&self) -> (r: bool)
        ensures
            r == (self@ is Int),
    {
        match *self {
            Value::Int(_) => true,
            _ => false,
        }
    }

    /// Extracts the integer value if it is an integer.
    pub fn as_int(&self) -> (r: Option<i32>)
        ensures
            r == (match self@ {
                ValueView::Int(n) => Some(n),
                _ => None,
            }),
    {
        match *self {
            Value::Int(number) => Some(number),
            Value::Null | Value::Str(_) | Value::Binary => None,
        }
    }

    /// Returns true if this is a string value.
    pub fn is_str(&self) -> (r: bool)
        ensures
            r == (self@ is Str),
    {
        match *self {
            Value::Str(_) => true,
            _ => false,
        }
    }

    /// Extracts the string value if it is a string.
    pub fn as_str(&self) -> (r: Option<&str>)
        ensures
            r is Some == (self@ is Str),
            r matches Some(s) ==> self@ == ValueView::Str(s@),
    {
        match self {
            Value::Str(string) => Some(string.as_str()),
            Value::Null | Value::Int(_) | Value::Binary => None,
        }
    }

    /// Creates a boolean value.
    pub fn from_bool(boolean: bool) -> (r: Value)
        ensures
            r@ == spec_from_bool(boolean),
    {
        if boolean {
            Value::Int(1)
        } else {
            Value::Int(0)
        }
    }

    /// Coerces the `Value` to a boolean.  Returns false for null, zero, and
    /// empty string; returns true for all other values.
    pub fn to_bool(&self) -> (r: bool)
        ensures
            r == spec_to_bool(self@),
    {
        match self {
            Value::Null => false,
            Value::Int(number) => *number != 0,
            Value::Str(string) => crate::text::chars_of(string.as_str()).len() != 0,
            Value::Binary => true,
        }
    }

    /// Creates a string value.
    pub fn string(s: &str) -> (r: Value)
        ensures
            r@ == ValueView::Str(s@),
    {
        Value::Str(s.to_owned())
    }

    /// Returns a copy of this value.
    pub fn duplicate(&self) -> (r: Value)
        ensures
            r@ == self@,
    {
        match self {
            Value::Null => Value::Null,
            Value::Int(n) => Value::Int(*n),
            Value::Str(s) => Value::Str(s.clone()),
            Value::Binary => Value::Binary,
        }
    }

    /// Whether two values are equal.
    pub fn equals(&self, other: &Value) -> (r: bool)
        ensures
            r == (self@ == other@),
    {
        match (self, other) {
            (Value::Null, Value::Null) => true,
            (Value::Int(a), Value::Int(b)) => *a == *b,
            (Value::Str(a), Value::Str(b)) => string_equal(a, b),
            (Value::Binary, Value::Binary) => true,
            _ => false,
        }
    }

    /// Whether this value comes strictly before the other in the order of
    /// values (null, then integers, then strings, then binary streams).
    pub fn less_than(&self, other: &Value) -> (r: bool)
        ensures
            r == value_less(self@, other@),
    {
        match (self, other) {
            (Value::Int(a), Value::Int(b)) => *a < *b,
            (Value::Str(a), Value::Str(b)) => string_less(a.as_str(), b.as_str()),
            _ => self.rank() < other.rank(),
        }
    }

    /// The rank of this value's variant in the order of values.
    fn rank(&self) -> (r: u8)
        ensures
            r as int == variant_rank(self@),
    {
        match self {
            Value::Null => 0,
            Value::Int(_) => 1,
            Value::Str(_) => 2,
            Value::Binary => 3,
        }
    }

    /// Returns the text that displaying this value writes: `NULL`, the
    /// number, the quoted string, or `BINARY_STREAM`.
    pub fn to_string(&self) -> (r: String)
        ensures
            r@ == value_text(self@),
    {
        match self {
            Value::Null => "NULL".to_owned(),
            Value::Int(number) => int_to_string(*number as i64),
            Value::Str(string) => debug_text(string.as_str()),
            Value::Binary => "BINARY_STREAM".to_owned(),
        }
    }
}

impl From<bool> for Value {
    fn from(boolean: bool) -> (r: Value) {
        Value::from_bool(boolean)
    }
}

impl FromSpecImpl<bool> for Value {
    open spec fn obeys_from_spec() -> bool {
        true
    }

    open spec fn from_spec(v: bool) -> Value {
        if v {
            Value::Int(1)
        } else {
            Value::Int(0)
        }
    }
}

impl From<i16> for Value {
    fn from(integer: i16) -> (r: Value) {
        Value::Int(integer as i32)
    }
}

impl FromSpecImpl<i16> for Value {
    open spec fn obeys_from_spec() -> bool {
        true
    }

    open spec fn from_spec(v: i16) -> Value {
        Value::Int(v as i32)
    }
}

impl From<u16> for Value {
    fn from(integer: u16) -> (r: Value) {
        Value::Int(integer as i32)
    }
}

impl FromSpecImpl<u16> for Value {
    open spec fn obeys_from_spec() -> bool {
        true
    }

    open spec fn from_spec(v: u16) -> Value {
        Value::Int(v as i32)
    }
}

impl From<i32> for Value {
    fn from(integer: i32) -> (r: Value) {
        Value::Int(integer)
    }
}

impl FromSpecImpl<i32> for Value {
    open spec fn obeys_from_spec() -> bool {
        true
    }

    open spec fn from_spec(v: i32) -> Value {
        Value::Int(v)
    }
}

impl From<String> for Value {
    fn from(string: String) -> (r: Value) {
        Value::Str(string)
    }
}

impl FromSpecImpl<String> for Value {
    open spec fn obeys_from_spec() -> bool {
        true
    }

    open spec fn from_spec(v: String) -> Value {
        Value::Str(v)
    }
}

impl<'a> From<&'a str> for Value {
    fn from(string: &'a str) -> (r: Value) {
        Value::string(string)
    }
}

impl<'a> FromSpecImpl<&'a str> for Value {
    open spec fn obeys_from_spec() -> bool {
        false
    }

    open spec fn from_spec(v: &'a str) -> Value {
        Value::Null
    }
}

/// An indirect value from one cell in a database table row.
#[derive(Clone, Copy, Debug, Eq, PartialEq, Structural)]
pub enum ValueRef {
    /// A null value.
    Null,
    /// An integer value.
    Int(i32),
    /// A string value.
    Str(StringRef),
    /// A binary stream
    Binary,
}

/// The value that a reference stands for in a pool with these entries.
pub open spec fn spec_to_value(r: ValueRef, entries: Seq<(Seq<char>, u16)>) -> ValueView {
    match r {
        ValueRef::Null => ValueView::Null,
        ValueRef::Int(n) => ValueView::Int(n),
        ValueRef::Str(s) => ValueView::Str(
            if s.spec_number() - 1 < entries.len() {
                entries[s.spec_number() - 1].0
            } else {
                Seq::empty()
            },
        ),
        ValueRef::Binary => ValueView::Binary,
    }
}

/// Whether interning a value into a pool with these entries is possible
/// (strings need room in the pool).
pub open spec fn can_create(v: ValueView, entries: Seq<(Seq<char>, u16)>, long_string_refs: bool) -> bool {
    v matches ValueView::Str(s) ==> can_add(entries, s, long_string_refs)
}

/// Whether removing a reference from a pool with these entries is possible
/// (a string reference must be to an entry in use).
pub open spec fn can_remove(r: ValueRef, entries: Seq<(Seq<char>, u16)>) -> bool {
    r matches ValueRef::Str(s) ==> s.spec_number() - 1 < entries.len() && entries[s.spec_number()
        - 1].1 >= 1
}

/// The entries of a pool after removing a reference.
pub open spec fn entries_after_remove(r: ValueRef, entries: Seq<(Seq<char>, u16)>) -> Seq<(Seq<char>, u16)> {
    match r {
        ValueRef::Str(s) => spec_decref(entries, s.spec_number() - 1),
        _ => entries,
    }
}

impl ValueRef {
    /// Interns the given value into the string pool (if it is a string), and
    /// returns a corresponding `ValueRef`.
    pub fn create(value: Value, string_pool: &mut StringPool) -> (r: ValueRef)
        requires
            old(string_pool).wf(),
            can_create(value@, old(string_pool).entries(), old(string_pool).spec_long_string_refs()),
        ensures
            final(string_pool).wf(),
            final(string_pool).spec_codepage() == old(string_pool).spec_codepage(),
            final(string_pool).spec_long_string_refs() == old(string_pool).spec_long_string_refs(),
            match value@ {
                ValueView::Str(s) => {
                    &&& r matches ValueRef::Str(sr) && (final(string_pool).entries(), sr.spec_number()
                        - 1) == spec_incref(old(string_pool).entries(), s)
                    &&& final(string_pool).spec_is_modified()
                },
                _ => final(string_pool).entries() == old(string_pool).entries()
                    && final(string_pool).spec_is_modified() == old(string_pool).spec_is_modified(),
            },
            value@ matches ValueView::Null ==> r == ValueRef::Null,
            value@ matches ValueView::Int(n) ==> r == ValueRef::Int(n),
            value@ matches ValueView::Binary ==> r == ValueRef::Binary,
    {
        match value {
            Value::Null => ValueRef::Null,
            Value::Int(number) => ValueRef::Int(number),
            Value::Str(string) => ValueRef::Str(string_pool.incref(string)),
            Value::Binary => ValueRef::Binary,
        }
    }

    /// Removes the reference from the string pool (if is a string reference).
    pub fn remove(self, string_pool: &mut StringPool)
        requires
            can_remove(self, old(string_pool).entries()),
        ensures
            final(string_pool).entries() == entries_after_remove(self, old(string_pool).entries()),
            final(string_pool).spec_codepage() == old(string_pool).spec_codepage(),
            final(string_pool).spec_long_string_refs() == old(string_pool).spec_long_string_refs(),
            self is Str ==> final(string_pool).spec_is_modified(),
            !(self is Str) ==> final(string_pool).spec_is_modified() == old(string_pool).spec_is_modified(),
            old(string_pool).wf() ==> final(string_pool).wf(),
    {
        match self {
            ValueRef::Null | ValueRef::Int(_) | ValueRef::Binary => {},
            ValueRef::Str(string_ref) => string_pool.decref(string_ref),
        }
    }

    /// Dereferences the `ValueRef` into a `Value`.
    pub fn to_value(self, string_pool: &StringPool) -> (r: Value)
        ensures
            r@ == spec_to_value(self, string_pool.entries()),
    {
        match self {
            ValueRef::Null => Value::Null,
            ValueRef::Int(number) => Value::Int(number),
            ValueRef::Str(string_ref) => Value::Str(string_pool.get(string_ref).to_owned()),
            ValueRef::Binary => Value::Binary,
        }
    }
}

/// Interning a value and reading the reference back gives the value.
pub proof fn lemma_create_then_to_value(
    v: ValueView,
    entries: Seq<(Seq<char>, u16)>,
    r: ValueRef,
    after: Seq<(Seq<char>, u16)>,
)
    requires
        match v {
            ValueView::Str(s) => r matches ValueRef::Str(sr) && (after, sr.spec_number() - 1)
                == spec_incref(entries, s),
            ValueView::Null => r == ValueRef::Null && after == entries,
            ValueView::Int(n) => r == ValueRef::Int(n) && after == entries,
            ValueView::Binary => r == ValueRef::Binary && after == entries,
        },
    ensures
        spec_to_value(r, after) == v,
{
    if let ValueView::Str(s) = v {
        crate::stringpool::lemma_incref_then_get(entries, s);
    }
}


/// Different characters have different scalar values.
proof fn lemma_char_numbers_differ(x: char, y: char)
    requires
        x != y,
    ensures
        (x as u32) != (y as u32),
{
}

/// No text comes before itself.
pub proof fn lemma_text_less_irreflexive(a: Seq<char>)
    ensures
        !text_less(a, a),
    decreases a.len(),
{
    if a.len() > 0 {
        lemma_text_less_irreflexive(a.drop_first());
    }
}

/// The order of texts is transitive.
pub proof fn lemma_text_less_transitive(a: Seq<char>, b: Seq<char>, c: Seq<char>)
    requires
        text_less(a, b),
        text_less(b, c),
    ensures
        text_less(a, c),
    decreases a.len(),
{
    if a.len() > 0 && a[0] == b[0] && b[0] == c[0] {
        lemma_text_less_transitive(a.drop_first(), b.drop_first(), c.drop_first());
    }
}

/// Of two different texts, one comes before the other.
pub proof fn lemma_text_less_total(a: Seq<char>, b: Seq<char>)
    requires
        a != b,
    ensures
        text_less(a, b) || text_less(b, a),
    decreases a.len(),
{
    if a.len() > 0 && b.len() > 0 {
        if a[0] == b[0] {
            assert(a.drop_first() != b.drop_first()) by {
                if a.drop_first() == b.drop_first() {
                    assert(a.drop_first().len() == b.drop_first().len());
                    assert(a.len() == b.len());
                    assert forall|i: int| 0 <= i < a.len() implies a[i] == b[i] by {
                        if i > 0 {
                            assert(a[i] == a.drop_first()[i - 1]);
                            assert(b[i] == b.drop_first()[i - 1]);
                        }
                    }
                    assert(a =~= b);
                }
            }
            lemma_text_less_total(a.drop_first(), b.drop_first());
        } else {
            lemma_char_numbers_differ(a[0], b[0]);
        }
    } else if a.len() == 0 && b.len() == 0 {
        assert(a =~= b);
    }
}

/// The order of values is a strict total order: no value comes before
/// itself, it is transitive, and of two different values one comes before
/// the other.
pub proof fn lemma_value_less_order(a: ValueView, b: ValueView, c: ValueView)
    ensures
        !value_less(a, a),
        value_less(a, b) && value_less(b, c) ==> value_less(a, c),
        a != b ==> value_less(a, b) || value_less(b, a),
{
    if let ValueView::Str(x) = a {
        lemma_text_less_irreflexive(x);
        if let ValueView::Str(y) = b {
            if x != y {
                lemma_text_less_total(x, y);
            }
            if let ValueView::Str(z) = c {
                if text_less(x, y) && text_less(y, z) {
                    lemma_text_less_transitive(x, y, z);
                }
            }
        }
    }
}

} // verus!
