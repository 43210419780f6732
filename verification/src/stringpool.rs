//! The string pool of a package: every string stored in the database lives
//! here once, with a reference count, and table rows refer to it by number.

use crate::bytes::{
    le16, le16_bytes, le32, le32_bytes, lemma_le16_at, lemma_le16_round_trip, lemma_le32_round_trip, read_u16, read_u32,
    read_u8, write_u16, write_u32,
};
use crate::codepage::{codepage_from_id, codepage_id, spec_decode, spec_encode, CodePage};
use crate::value::string_equal;
use crate::error::{Error, ErrorKind};
use vstd::prelude::*;

verus! {

/// The largest string reference number.
pub const MAX_STRING_REF: i32 = 0xff_ffff;

/// A reference to a string in the string pool.
#[derive(Clone, Copy, Debug, Eq, PartialEq, Structural)]
pub struct StringRef(i32);

/// The number of a serialized string reference read at `pos`: two bytes, or
/// three when `long_string_refs` is set.  `None` when the data ends first.
pub open spec fn spec_read_ref_number(data: Seq<u8>, pos: int, long_string_refs: bool) -> Option<
    int,
> {
    if long_string_refs {
        if pos + 3 <= data.len() {
            Some(le16(data, pos) + 65536 * data[pos + 2])
        } else {
            None
        }
    } else {
        if pos + 2 <= data.len() {
            Some(le16(data, pos))
        } else {
            None
        }
    }
}

/// The bytes that a serialized reference number takes.
pub open spec fn ref_number_bytes(number: int, long_string_refs: bool) -> Seq<u8> {
    if long_string_refs {
        le16_bytes(number % 65536).push(((number / 65536) % 256) as u8)
    } else {
        le16_bytes(number)
    }
}

/// The number of bytes a serialized reference takes.
pub open spec fn ref_width(long_string_refs: bool) -> int {
    if long_string_refs {
        3
    } else {
        2
    }
}

impl StringRef {
    /// A reference number is between 1 and `MAX_STRING_REF`.
    #[verifier::type_invariant]
    spec fn number_in_range(self) -> bool {
        0 < self.0 <= MAX_STRING_REF
    }

    /// The reference number.
    pub closed spec fn spec_number(self) -> int {
        self.0 as int
    }

    /// Creates a reference with the given number.
    pub fn new(number: i32) -> (r: StringRef)
        requires
            0 < number <= MAX_STRING_REF,
        ensures
            r.spec_number() == number,
    {
        StringRef(number)
    }

    /// Reads a serialized StringRef at `pos` and returns it, or `None` for a
    /// null reference, with the position after it.  The `long_string_refs`
    /// argument specifies whether to read three bytes (if true) or two (if
    /// false).
    pub fn read(data: &[u8], pos: usize, long_string_refs: bool) -> (r: Result<
        (Option<StringRef>, usize),
        Error,
    >)
        ensures
            spec_read_ref_number(data@, pos as int, long_string_refs) is None <==> r is Err,
            r matches Err(e) ==> e.kind == ErrorKind::UnexpectedEof,
            r matches Ok((sr, next)) ==> {
                let n = spec_read_ref_number(data@, pos as int, long_string_refs)->0;
                &&& next == pos + ref_width(long_string_refs)
                &&& n == 0 ==> sr is None
                &&& n != 0 ==> (sr matches Some(s) && s.spec_number() == n)
            },
    {
        let low = match read_u16(data, pos) {
            Some(v) => v,
            None => {
                return Err(Error::with_text(ErrorKind::UnexpectedEof, "failed to fill whole buffer"));
            },
        };
        let mut number = low as i32;
        let mut next = pos + 2;
        if long_string_refs {
            match read_u8(data, pos + 2) {
                Some(b) => {
                    number = number + 65536 * (b as i32);
                    next = pos + 3;
                },
                None => {
                    return Err(
                        Error::with_text(ErrorKind::UnexpectedEof, "failed to fill whole buffer"),
                    );
                },
            }
        }
        if number == 0 {
            Ok((None, next))
        } else {
            Ok((Some(StringRef(number)), next))
        }
    }

    /// Serializes a nullable StringRef.  The `long_string_refs` argument
    /// specifies whether to write three bytes (if true) or two (if false);
    /// a number above 65535 cannot be written in two bytes.
    pub fn write(out: &mut Vec<u8>, string_ref: Option<StringRef>, long_string_refs: bool) -> (r:
        Result<(), Error>)
        ensures
            ({
                let n = match string_ref {
                    Some(s) => s.spec_number(),
                    None => 0,
                };
                &&& r is Err <==> (!long_string_refs && n > 65535)
                &&& r matches Err(e) ==> e.kind == ErrorKind::InvalidInput && final(out)@ == old(
                    out,
                )@
                &&& r is Ok ==> final(out)@ == old(out)@ + ref_number_bytes(n, long_string_refs)
            }),
    {
        let number = match string_ref {
            Some(s) => {
                proof {
                    use_type_invariant(s);
                }
                s.0
            },
            None => 0,
        };
        if long_string_refs {
            write_u16(out, (number % 65536) as u16);
            out.push(((number / 65536) % 256) as u8);
            Ok(())
        } else if number <= 65535 {
            write_u16(out, number as u16);
            Ok(())
        } else {
            Err(Error::with_text(ErrorKind::InvalidInput, "Cannot write string reference with long_string_refs=false"))
        }
    }

    /// Returns the reference number, that is, the 1-based index into the
    /// string pool for this reference.
    pub fn number(self) -> (r: i32)
        ensures
            r == self.spec_number(),
            0 < r <= MAX_STRING_REF,
    {
        proof {
            use_type_invariant(self);
        }
        self.0
    }

    /// Returns the 0-based index into the string pool.
    fn index(self) -> (r: usize)
        ensures
            r == self.spec_number() - 1,
    {
        proof {
            use_type_invariant(self);
        }
        (self.0 - 1) as usize
    }
}

/// A reference is determined by its number.
pub proof fn lemma_string_ref_number_injective(a: StringRef, b: StringRef)
    requires
        a.spec_number() == b.spec_number(),
    ensures
        a == b,
{
}

/// Every number from one to `MAX_STRING_REF` is the number of a reference.
pub proof fn lemma_string_ref_with_number(n: int)
    requires
        0 < n <= MAX_STRING_REF,
    ensures
        exists|s: StringRef| s.spec_number() == n,
{
    assert(StringRef(n as i32).spec_number() == n);
}

/// Taking a reference to a string goes to an entry whose number a reference
/// can hold, and keeps the pool within `MAX_STRING_REF` entries, when the
/// pool can take it.
pub proof fn lemma_incref_bounds(entries: Seq<(Seq<char>, u16)>, s: Seq<char>, long_string_refs: bool)
    requires
        entries.len() <= MAX_STRING_REF,
        can_add(entries, s, long_string_refs),
    ensures
        spec_incref(entries, s).0.len() <= MAX_STRING_REF,
        0 <= spec_incref(entries, s).1 < spec_incref(entries, s).0.len(),
{
    lemma_first_place_is_first(entries, s, false);
    lemma_first_place_is_first(entries, s, true);
}

/// Reading a written reference gives back the reference, whenever writing
/// it succeeds.
pub proof fn lemma_string_ref_round_trip(
    pre: Seq<u8>,
    string_ref: Option<StringRef>,
    long_string_refs: bool,
    post: Seq<u8>,
)
    requires
        string_ref matches Some(s) ==> 0 < s.spec_number() <= MAX_STRING_REF,
        long_string_refs || (string_ref matches Some(s) ==> s.spec_number() <= 65535),
    ensures
        ({
            let n = match string_ref {
                Some(s) => s.spec_number(),
                None => 0,
            };
            spec_read_ref_number(
                pre + ref_number_bytes(n, long_string_refs) + post,
                pre.len() as int,
                long_string_refs,
            ) == Some(n)
        }),
{
    let n = match string_ref {
        Some(s) => s.spec_number(),
        None => 0,
    };
    if long_string_refs {
        let hi = ((n / 65536) % 256) as u8;
        let b = pre + ref_number_bytes(n, long_string_refs) + post;
        assert(b =~= pre + le16_bytes(n % 65536) + (seq![hi] + post));
        lemma_le16_round_trip(pre, n % 65536, seq![hi] + post);
        assert(b[pre.len() as int + 2] == hi);
    } else {
        lemma_le16_round_trip(pre, n, post);
    }
}

/// The flag in the string pool header that says references take three
/// bytes.
pub const LONG_STRING_REFS_BIT: u32 = 0x8000_0000;

/// The string pool for an MSI package.
pub struct StringPool {
    codepage: CodePage,
    strings: Vec<(String, u16)>,
    long_string_refs: bool,
    is_modified: bool,
}

/// The entries of a string pool: each string with its reference count.
pub open spec fn entries_view(v: Seq<(String, u16)>) -> Seq<(Seq<char>, u16)> {
    v.map_values(|e: (String, u16)| (e.0@, e.1))
}

/// Whether a pool entry is a place for a reference to a string: for
/// `unused`, an entry with no references; otherwise an entry in use that
/// holds the string and whose count can still grow.
pub open spec fn is_place(e: (Seq<char>, u16), s: Seq<char>, unused: bool) -> bool {
    if unused {
        e.1 == 0
    } else {
        0 < e.1 < 65535 && e.0 == s
    }
}

/// The first entry that is a place for the string, if any.
pub open spec fn first_place(entries: Seq<(Seq<char>, u16)>, s: Seq<char>, unused: bool) -> Option<int>
    decreases entries.len(),
{
    if entries.len() == 0 {
        None
    } else {
        match first_place(entries.drop_last(), s, unused) {
            Some(i) => Some(i),
            None => if is_place(entries.last(), s, unused) {
                Some(entries.len() - 1)
            } else {
                None
            },
        }
    }
}

/// The entries after taking a reference to a string, and the 0-based index
/// of the entry it went to: the first entry in use that holds the string
/// (with room in its count) counts one more; failing that, the first unused
/// entry takes the string; failing that, the string is appended.
pub open spec fn spec_incref(entries: Seq<(Seq<char>, u16)>, s: Seq<char>) -> (
    Seq<(Seq<char>, u16)>,
    int,
) {
    match first_place(entries, s, false) {
        Some(i) => (entries.update(i, (entries[i].0, (entries[i].1 + 1) as u16)), i),
        None => match first_place(entries, s, true) {
            Some(i) => (entries.update(i, (s, 1u16)), i),
            None => (entries.push((s, 1u16)), entries.len() as int),
        },
    }
}

/// The entries after dropping a reference to entry `i`: its count goes down
/// by one, and its string is cleared when the count reaches zero.
pub open spec fn spec_decref(entries: Seq<(Seq<char>, u16)>, i: int) -> Seq<(Seq<char>, u16)> {
    let count = (entries[i].1 - 1) as u16;
    entries.update(
        i,
        (
            if count == 0 {
                Seq::empty()
            } else {
                entries[i].0
            },
            count,
        ),
    )
}

/// Whether a pool can take a string without running out of references:
/// a new entry needs a number that references can hold.
pub open spec fn can_add(entries: Seq<(Seq<char>, u16)>, s: Seq<char>, long_string_refs: bool) -> bool {
    first_place(entries, s, false) is None && first_place(entries, s, true) is None
        ==> entries.len() < MAX_STRING_REF && (long_string_refs || entries.len() < 65535)
}

impl StringPool {
    /// The entries of the pool.
    pub closed spec fn entries(&self) -> Seq<(Seq<char>, u16)> {
        entries_view(self.strings@)
    }

    /// The code page of the pool.
    pub closed spec fn spec_codepage(&self) -> CodePage {
        self.codepage
    }

    /// Whether references take three bytes.
    pub closed spec fn spec_long_string_refs(&self) -> bool {
        self.long_string_refs
    }

    /// Whether the pool changed since it was last marked unmodified.
    pub closed spec fn spec_is_modified(&self) -> bool {
        self.is_modified
    }

    /// A pool never holds more entries than references can number.
    pub closed spec fn wf(&self) -> bool {
        self.strings@.len() <= MAX_STRING_REF
    }

    /// Creates a new, empty string pool.
    pub fn new(codepage: CodePage) -> (r: StringPool)
        ensures
            r.wf(),
            r.entries() == Seq::<(Seq<char>, u16)>::empty(),
            r.spec_codepage() == codepage,
            !r.spec_long_string_refs(),
            r.spec_is_modified(),
    {
        let r = StringPool {
            codepage,
            strings: Vec::new(),
            long_string_refs: false,
            is_modified: true,
        };
        proof {
            assert(r.entries() =~= Seq::<(Seq<char>, u16)>::empty());
        }
        r
    }

    /// Returns a copy of this pool.
    pub fn duplicate(&self) -> (r: StringPool)
        ensures
            r.entries() == self.entries(),
            r.spec_codepage() == self.spec_codepage(),
            r.spec_long_string_refs() == self.spec_long_string_refs(),
            r.spec_is_modified() == self.spec_is_modified(),
            r.wf() == self.wf(),
    {
        let mut strings: Vec<(String, u16)> = Vec::new();
        let mut i: usize = 0;
        while i < self.strings.len()
            invariant
                i <= self.strings@.len(),
                entries_view(strings@) == entries_view(self.strings@).take(i as int),
            decreases self.strings@.len() - i,
        {
            let entry = (self.strings[i].0.clone(), self.strings[i].1);
            let ghost before = strings@;
            strings.push(entry);
            proof {
                assert(strings@ == before.push(entry));
                assert(entry.0@ == self.strings@[i as int].0@);
                assert(entries_view(strings@) =~= entries_view(before).push((entry.0@, entry.1)));
                assert(entries_view(strings@) =~= entries_view(self.strings@).take(i + 1));
            }
            i = i + 1;
        }
        proof {
            assert(entries_view(self.strings@).take(i as int) =~= entries_view(self.strings@));
        }
        StringPool {
            codepage: self.codepage,
            strings,
            long_string_refs: self.long_string_refs,
            is_modified: self.is_modified,
        }
    }

    /// Returns whether the pool can take another reference to a string:
    /// some entry holds the string with room in its count or is unused, or
    /// a new entry can still be numbered.
    pub fn can_intern(&self, string: &str) -> (r: bool)
        requires
            self.wf(),
        ensures
            r == can_add(self.entries(), string@, self.spec_long_string_refs()),
    {
        let ghost entries = self.entries();
        let mut index: usize = 0;
        while index < self.strings.len()
            invariant
                index <= self.strings@.len(),
                entries == self.entries(),
                first_place(entries.take(index as int), string@, false) is None,
                first_place(entries.take(index as int), string@, true) is None,
            decreases self.strings.len() - index,
        {
            proof {
                assert(entries.take(index + 1).drop_last() =~= entries.take(index as int));
                assert(entries.take(index + 1).last() == entries[index as int]);
                lemma_first_place_prefix(entries, string@, false, index as int + 1);
                lemma_first_place_prefix(entries, string@, true, index as int + 1);
            }
            let count = self.strings[index].1;
            if count == 0 || (crate::category::str_equal(self.strings[index].0.as_str(), string) && count
                < 65535) {
                return true;
            }
            index = index + 1;
        }
        proof {
            assert(entries.take(index as int) =~= entries);
        }
        let len = self.strings.len();
        len < MAX_STRING_REF as usize && (self.long_string_refs || len < 65535)
    }

    /// Gets the code page used for serializing the string data.
    pub fn codepage(&self) -> (r: CodePage)
        ensures
            r == self.spec_codepage(),
    {
        self.codepage
    }

    /// Sets the code page used for serializing the string data.
    pub fn set_codepage(&mut self, codepage: CodePage)
        ensures
            final(self).spec_codepage() == codepage,
            final(self).entries() == old(self).entries(),
            final(self).spec_long_string_refs() == old(self).spec_long_string_refs(),
            final(self).spec_is_modified(),
            old(self).wf() ==> final(self).wf(),
    {
        self.is_modified = true;
        self.codepage = codepage;
    }

    /// Returns the number of strings in the string pool (including empty
    /// entries).
    pub fn num_strings(&self) -> (r: u32)
        requires
            self.wf(),
        ensures
            r == self.entries().len(),
    {
        self.strings.len() as u32
    }

    /// Returns true if string references should be serialized with three bytes
    /// instead of two.
    pub fn long_string_refs(&self) -> (r: bool)
        ensures
            r == self.spec_long_string_refs(),
    {
        self.long_string_refs
    }

    /// Returns true if the pool changed since it was last marked unmodified.
    pub fn is_modified(&self) -> (r: bool)
        ensures
            r == self.spec_is_modified(),
    {
        self.is_modified
    }

    /// Marks the pool as unmodified.
    pub fn mark_unmodified(&mut self)
        ensures
            !final(self).spec_is_modified(),
            final(self).entries() == old(self).entries(),
            final(self).spec_codepage() == old(self).spec_codepage(),
            final(self).spec_long_string_refs() == old(self).spec_long_string_refs(),
            old(self).wf() ==> final(self).wf(),
    {
        self.is_modified = false;
    }

    /// Returns the string in the pool for the given reference (empty if the
    /// reference is beyond the pool).
    pub fn get(&self, string_ref: StringRef) -> (r: &str)
        ensures
            r@ == (if string_ref.spec_number() - 1 < self.entries().len() {
                self.entries()[string_ref.spec_number() - 1].0
            } else {
                Seq::empty()
            }),
    {
        let index = string_ref.index();
        if index < self.strings.len() {
            self.strings[index].0.as_str()
        } else {
            proof {
                reveal_strlit("");
            }
            ""
        }
    }

    /// Returns the pool's refcount for the given string reference (zero if
    /// the reference is beyond the pool).
    pub fn refcount(&self, string_ref: StringRef) -> (r: u16)
        ensures
            r == (if string_ref.spec_number() - 1 < self.entries().len() {
                self.entries()[string_ref.spec_number() - 1].1
            } else {
                0
            }),
    {
        let index = string_ref.index();
        if index < self.strings.len() {
            self.strings[index].1
        } else {
            0
        }
    }

    /// Inserts a string into the pool, or increments its refcount if it's
    /// already in the pool, and returns the reference to it.  The first
    /// entry in use that holds the string (with room in its count) counts
    /// one more; otherwise the first unused entry takes the string, and
    /// failing that the string is appended.
    pub fn incref(&mut self, string: String) -> (r: StringRef)
        requires
            old(self).wf(),
            can_add(old(self).entries(), string@, old(self).spec_long_string_refs()),
        ensures
            final(self).wf(),
            (final(self).entries(), r.spec_number() - 1) == spec_incref(old(self).entries(), string@),
            final(self).spec_codepage() == old(self).spec_codepage(),
            final(self).spec_long_string_refs() == old(self).spec_long_string_refs(),
            final(self).spec_is_modified(),
    {
        self.is_modified = true;
        let ghost old_entries = self.entries();
        let mut index: usize = 0;
        while index < self.strings.len()
            invariant
                index <= self.strings@.len(),
                self.strings@.len() <= MAX_STRING_REF,
                self.entries() == old_entries,
                old_entries == old(self).entries(),
                self.codepage == old(self).codepage,
                self.long_string_refs == old(self).long_string_refs,
                self.is_modified,
                can_add(old_entries, string@, self.long_string_refs),
                first_place(old_entries.take(index as int), string@, false) is None,
            decreases self.strings.len() - index,
        {
            proof {
                assert(old_entries.take(index + 1).drop_last() =~= old_entries.take(index as int));
                assert(old_entries.take(index + 1).last() == old_entries[index as int]);
                lemma_first_place_prefix(old_entries, string@, false, index as int + 1);
            }
            let count = self.strings[index].1;
            if 0 < count && count < 65535 && string_equal(&self.strings[index].0, &string) {
                let old_string = self.strings[index].0.clone();
                self.strings.set(index, (old_string, count + 1));
                proof {
                    assert(self.entries() =~= spec_incref(old_entries, string@).0);
                }
                return StringRef((index + 1) as i32);
            }
            index = index + 1;
        }
        proof {
            assert(old_entries.take(index as int) =~= old_entries);
        }
        let mut index: usize = 0;
        while index < self.strings.len()
            invariant
                index <= self.strings@.len(),
                self.strings@.len() <= MAX_STRING_REF,
                self.entries() == old_entries,
                old_entries == old(self).entries(),
                self.codepage == old(self).codepage,
                self.long_string_refs == old(self).long_string_refs,
                self.is_modified,
                can_add(old_entries, string@, self.long_string_refs),
                first_place(old_entries, string@, false) is None,
                first_place(old_entries.take(index as int), string@, true) is None,
            decreases self.strings.len() - index,
        {
            proof {
                assert(old_entries.take(index + 1).drop_last() =~= old_entries.take(index as int));
                assert(old_entries.take(index + 1).last() == old_entries[index as int]);
                lemma_first_place_prefix(old_entries, string@, true, index as int + 1);
            }
            if self.strings[index].1 == 0 {
                self.strings.set(index, (string, 1));
                proof {
                    assert(self.entries() =~= spec_incref(old_entries, string@).0);
                }
                return StringRef((index + 1) as i32);
            }
            index = index + 1;
        }
        proof {
            assert(old_entries.take(index as int) =~= old_entries);
        }
        self.strings.push((string, 1));
        proof {
            assert(self.entries() =~= spec_incref(old_entries, string@).0);
        }
        StringRef(self.strings.len() as i32)
    }

    /// Decrements the refcount of a string in the pool, clearing the string
    /// when the count reaches zero.  The reference must be to an entry with
    /// a nonzero count.
    pub fn decref(&mut self, string_ref: StringRef)
        requires
            string_ref.spec_number() - 1 < old(self).entries().len(),
            old(self).entries()[string_ref.spec_number() - 1].1 >= 1,
        ensures
            final(self).entries() == spec_decref(old(self).entries(), string_ref.spec_number() - 1),
            final(self).spec_codepage() == old(self).spec_codepage(),
            final(self).spec_long_string_refs() == old(self).spec_long_string_refs(),
            final(self).spec_is_modified(),
            old(self).wf() ==> final(self).wf(),
    {
        let index = string_ref.index();
        self.is_modified = true;
        let count = self.strings[index].1 - 1;
        let string = if count == 0 {
            String::new()
        } else {
            self.strings[index].0.clone()
        };
        self.strings.set(index, (string, count));
        proof {
            assert(self.entries() =~= spec_decref(old(self).entries(), string_ref.spec_number() - 1));
        }
    }

    /// Returns the bytes of the `_StringData` table: the strings, encoded in
    /// the pool's code page, one after another.
    pub fn write_data(&self) -> (r: Vec<u8>)
        ensures
            r@ == string_data_bytes(self.spec_codepage(), self.entries()),
    {
        let mut out: Vec<u8> = Vec::new();
        let mut i: usize = 0;
        while i < self.strings.len()
            invariant
                i <= self.strings@.len(),
                out@ == string_data_bytes(self.spec_codepage(), self.entries().take(i as int)),
            decreases self.strings.len() - i,
        {
            let bytes = self.codepage.encode(self.strings[i].0.as_str());
            let mut j: usize = 0;
            let ghost before = out@;
            while j < bytes.len()
                invariant
                    j <= bytes.len(),
                    out@ == before + bytes@.take(j as int),
                decreases bytes.len() - j,
            {
                out.push(bytes[j]);
                proof {
                    assert(bytes@.take(j + 1) =~= bytes@.take(j as int).push(bytes@[j as int]));
                }
                j = j + 1;
            }
            proof {
                assert(bytes@.take(bytes@.len() as int) =~= bytes@);
                assert(self.entries().take(i + 1).drop_last() =~= self.entries().take(i as int));
            }
            i = i + 1;
        }
        proof {
            assert(self.entries().take(self.entries().len() as int) =~= self.entries());
        }
        out
    }

    /// Returns the bytes of the `_StringPool` table: a header with the code
    /// page (and the long-references flag), then for each string its encoded
    /// length, kept to 32 bits, and its refcount (lengths above 65535 take an
    /// extra word).
    pub fn write_pool(&self) -> (r: Vec<u8>)
        ensures
            r@ == string_pool_bytes(
                self.spec_codepage(),
                self.spec_long_string_refs(),
                self.entries(),
            ),
    {
        let mut out: Vec<u8> = Vec::new();
        let id = self.codepage.id() as u32;
        let header = if self.long_string_refs {
            id | LONG_STRING_REFS_BIT
        } else {
            id
        };
        proof {
            assert(id < 0x8000_0000);
            assert(id | LONG_STRING_REFS_BIT == id + 0x8000_0000) by (bit_vector)
                requires
                    id < 0x8000_0000,
            ;
        }
        write_u32(&mut out, header);
        let mut i: usize = 0;
        while i < self.strings.len()
            invariant
                i <= self.strings@.len(),
                out@ == le32_bytes(pool_header(self.spec_codepage(), self.spec_long_string_refs()))
                    + pool_lengths_bytes(self.spec_codepage(), self.entries().take(i as int)),
            decreases self.strings.len() - i,
        {
            proof {
                reveal(pool_record_bytes);
            }
            let ghost e = self.entries()[i as int];
            let length = self.codepage.encode(self.strings[i].0.as_str()).len();
            proof {
                assert(length == spec_encode(self.spec_codepage(), e.0).len());
            }
            let length = (length as u64 % 0x1_0000_0000) as u32;
            if length > 65535 {
                write_u16(&mut out, 0);
                write_u16(&mut out, (length / 65536) as u16);
            }
            write_u16(&mut out, (length % 65536) as u16);
            write_u16(&mut out, self.strings[i].1);
            proof {
                assert(self.entries().take(i + 1).drop_last() =~= self.entries().take(i as int));
                assert(out@ =~= le32_bytes(pool_header(self.spec_codepage(), self.spec_long_string_refs()))
                    + pool_lengths_bytes(self.spec_codepage(), self.entries().take(i + 1)));
            }
            i = i + 1;
        }
        proof {
            assert(self.entries().take(self.entries().len() as int) =~= self.entries());
        }
        out
    }
}

/// The bytes of the `_StringData` table for some entries.
pub open spec fn string_data_bytes(c: CodePage, entries: Seq<(Seq<char>, u16)>) -> Seq<u8>
    decreases entries.len(),
{
    if entries.len() == 0 {
        Seq::empty()
    } else {
        string_data_bytes(c, entries.drop_last()) + spec_encode(c, entries.last().0)
    }
}

/// The header word of the `_StringPool` table.
pub open spec fn pool_header(c: CodePage, long_string_refs: bool) -> int {
    codepage_id(c) + if long_string_refs {
        0x8000_0000int
    } else {
        0
    }
}

/// The record of one entry in the `_StringPool` table: its encoded length,
/// kept to 32 bits (with an extra leading word when it exceeds 65535), and
/// its refcount.
#[verifier::opaque]
pub open spec fn pool_record_bytes(length: int, refcount: u16) -> Seq<u8> {
    (if length > 65535 {
        le16_bytes(0) + le16_bytes(length / 65536)
    } else {
        Seq::empty()
    }) + le16_bytes(length % 65536) + le16_bytes(refcount as int)
}

/// The records of some entries in the `_StringPool` table.
pub open spec fn pool_lengths_bytes(c: CodePage, entries: Seq<(Seq<char>, u16)>) -> Seq<u8>
    decreases entries.len(),
{
    if entries.len() == 0 {
        Seq::empty()
    } else {
        pool_lengths_bytes(c, entries.drop_last()) + pool_record_bytes(
            spec_encode(c, entries.last().0).len() as int % 0x1_0000_0000,
            entries.last().1,
        )
    }
}

/// The bytes of the `_StringPool` table for a pool.
pub open spec fn string_pool_bytes(
    c: CodePage,
    long_string_refs: bool,
    entries: Seq<(Seq<char>, u16)>,
) -> Seq<u8> {
    le32_bytes(pool_header(c, long_string_refs)) + pool_lengths_bytes(c, entries)
}

/// `first_place` of a prefix agrees with `first_place` of the whole when
/// it finds something, and finding nothing in a longer prefix means finding
/// nothing in a shorter one.
proof fn lemma_first_place_prefix(entries: Seq<(Seq<char>, u16)>, s: Seq<char>, unused: bool, k: int)
    requires
        0 <= k <= entries.len(),
    ensures
        first_place(entries.take(k), s, unused) matches Some(i) ==> first_place(entries, s, unused) == Some(i),
        first_place(entries, s, unused) is None ==> first_place(entries.take(k), s, unused) is None,
    decreases entries.len() - k,
{
    if k < entries.len() {
        lemma_first_place_prefix(entries, s, unused, k + 1);
        assert(entries.take(k + 1).drop_last() =~= entries.take(k));
    } else {
        assert(entries.take(k) =~= entries);
    }
}

/// The index `first_place` finds is a place for the string, and no earlier
/// entry is; when it finds none, no entry is.
pub proof fn lemma_first_place_is_first(entries: Seq<(Seq<char>, u16)>, s: Seq<char>, unused: bool)
    ensures
        first_place(entries, s, unused) matches Some(i) ==> 0 <= i < entries.len() && is_place(
            entries[i],
            s,
            unused,
        ) && forall|j: int| 0 <= j < i ==> !is_place(#[trigger] entries[j], s, unused),
        first_place(entries, s, unused) is None ==> forall|j: int|
            0 <= j < entries.len() ==> !is_place(#[trigger] entries[j], s, unused),
    decreases entries.len(),
{
    if entries.len() > 0 {
        lemma_first_place_is_first(entries.drop_last(), s, unused);
        assert forall|j: int| 0 <= j < entries.len() - 1 implies entries.drop_last()[j]
            == #[trigger] entries[j] by {}
    }
}

/// A reference taken to a string reads back as that string, and the
/// entry's count goes up by one (from zero, for an unused entry).
pub proof fn lemma_incref_then_get(entries: Seq<(Seq<char>, u16)>, s: Seq<char>)
    ensures
        ({
            let (after, i) = spec_incref(entries, s);
            &&& 0 <= i < after.len()
            &&& after[i].0 == s
            &&& after[i].1 == (if i < entries.len() {
                entries[i].1 + 1
            } else {
                1
            })
            &&& forall|j: int| 0 <= j < entries.len() && j != i ==> after[j] == entries[j]
        }),
{
    lemma_first_place_is_first(entries, s, false);
    lemma_first_place_is_first(entries, s, true);
}

/// Dropping a reference right after taking it leaves every entry's count as
/// it was, and the strings of the entries that were in use unchanged; when
/// the unused entries hold no text, every entry is as it was.
pub proof fn lemma_incref_decref(entries: Seq<(Seq<char>, u16)>, s: Seq<char>)
    ensures
        ({
            let (after, i) = spec_incref(entries, s);
            let back = spec_decref(after, i);
            &&& back.len() == after.len()
            &&& forall|j: int| 0 <= j < entries.len() ==> (#[trigger] back[j]).1 == entries[j].1
            &&& forall|j: int| 0 <= j < entries.len() && entries[j].1 > 0 ==> (#[trigger] back[j]).0
                == entries[j].0
            &&& (forall|j: int| 0 <= j < entries.len() && (#[trigger] entries[j]).1 == 0 ==> entries[j].0
                == Seq::<char>::empty()) ==> back.take(entries.len() as int) == entries
        }),
{
    lemma_first_place_is_first(entries, s, false);
    lemma_first_place_is_first(entries, s, true);
    let (after, i) = spec_incref(entries, s);
    let back = spec_decref(after, i);
    if forall|j: int| 0 <= j < entries.len() && (#[trigger] entries[j]).1 == 0 ==> entries[j].0
        == Seq::<char>::empty() {
        assert(back.take(entries.len() as int) =~= entries);
    }
}

/// The records of the `_StringPool` table from `pos` on: each string's
/// length and refcount.  Reading stops where fewer than two bytes are left;
/// `None` when a record is cut short.  A record whose length word is zero
/// and whose refcount word is not carries a length above 65535: the refcount
/// word is its high half, and two more words hold the low half and the
/// refcount.
#[verifier::opaque]
pub open spec fn spec_pool_records(data: Seq<u8>, pos: int) -> Option<Seq<(u32, u16)>>
    decreases data.len() - pos,
{
    if pos < 0 || pos + 2 > data.len() {
        Some(Seq::empty())
    } else if pos + 4 > data.len() {
        None
    } else {
        let length = le16(data, pos);
        let refcount = le16(data, pos + 2);
        if length == 0 && refcount > 0 {
            if pos + 8 > data.len() {
                None
            } else {
                match spec_pool_records(data, pos + 8) {
                    Some(rest) => Some(
                        seq![((refcount * 65536 + le16(data, pos + 4)) as u32, le16(data, pos + 6) as u16)]
                            + rest,
                    ),
                    None => None,
                }
            }
        } else {
            match spec_pool_records(data, pos + 4) {
                Some(rest) => Some(seq![(length as u32, refcount as u16)] + rest),
                None => None,
            }
        }
    }
}

/// What reading the `_StringPool` table gives: the code page, whether
/// references are long, and the records; or the kind of error.
pub open spec fn spec_read_pool(data: Seq<u8>) -> Result<(CodePage, bool, Seq<(u32, u16)>), ErrorKind> {
    if data.len() < 4 {
        Err(ErrorKind::UnexpectedEof)
    } else {
        let header = le32(data, 0);
        let long = header >= 0x8000_0000;
        let id = if long {
            header - 0x8000_0000
        } else {
            header
        };
        match codepage_from_id(id as i32) {
            None => Err(ErrorKind::InvalidData),
            Some(c) => match spec_pool_records(data, 4) {
                None => Err(ErrorKind::UnexpectedEof),
                Some(records) => Ok((c, long, records)),
            },
        }
    }
}

/// The strings that the `_StringData` table holds for some records: each
/// record takes the next `length` bytes, decoded in the code page.  `None`
/// when the data runs out.
pub open spec fn spec_pool_strings(c: CodePage, records: Seq<(u32, u16)>, data: Seq<u8>) -> Option<
    Seq<(Seq<char>, u16)>,
>
    decreases records.len(),
{
    if records.len() == 0 {
        Some(Seq::empty())
    } else {
        let length = records[0].0 as int;
        if length > data.len() {
            None
        } else {
            match spec_pool_strings(c, records.drop_first(), data.skip(length)) {
                Some(rest) => Some(seq![(spec_decode(c, data.take(length)), records[0].1)] + rest),
                None => None,
            }
        }
    }
}

/// What `_StringPool` says about a string pool, read before `_StringData`.
pub struct StringPoolBuilder {
    codepage: CodePage,
    long_string_refs: bool,
    lengths_and_refcounts: Vec<(u32, u16)>,
}

impl StringPoolBuilder {
    /// The code page read from the header.
    pub closed spec fn spec_codepage(&self) -> CodePage {
        self.codepage
    }

    /// Whether references are long, read from the header.
    pub closed spec fn spec_long_string_refs(&self) -> bool {
        self.long_string_refs
    }

    /// The records read: each string's length and refcount.
    pub closed spec fn records(&self) -> Seq<(u32, u16)> {
        self.lengths_and_refcounts@
    }

    /// Reads the bytes of the `_StringPool` table.  Fails with
    /// `UnexpectedEof` if the header or a record is cut short, and with
    /// `InvalidData` if the header names an unknown code page.
    pub fn read_from_pool(data: &[u8]) -> (r: Result<StringPoolBuilder, Error>)
        ensures
            match spec_read_pool(data@) {
                Ok((c, long, records)) => r matches Ok(b) && b.spec_codepage() == c
                    && b.spec_long_string_refs() == long && b.records() == records,
                Err(kind) => r matches Err(e) && e.kind == kind,
            },
    {
        proof {
            reveal(spec_pool_records);
        }
        let header = match read_u32(data, 0) {
            Some(h) => h,
            None => {
                return Err(Error::with_text(ErrorKind::UnexpectedEof, "failed to fill whole buffer"));
            },
        };
        let long_string_refs = header >= LONG_STRING_REFS_BIT;
        let id = if long_string_refs {
            header - LONG_STRING_REFS_BIT
        } else {
            header
        };
        let codepage = match CodePage::from_id(id as i32) {
            Some(c) => c,
            None => {
                let message = crate::text::concat3(
                    "Unknown codepage for string pool (",
                    crate::text::int_to_string(id as i64).as_str(),
                    ")",
                );
                return Err(Error::new(ErrorKind::InvalidData, message));
            },
        };
        let mut records: Vec<(u32, u16)> = Vec::new();
        let mut pos: usize = 4;
        while pos < data.len() && data.len() - pos >= 2
            invariant
                4 <= pos <= data@.len(),
                spec_read_pool(data@) == (match spec_pool_records(data@, 4) {
                    None => Err(ErrorKind::UnexpectedEof),
                    Some(all) => Ok((codepage, long_string_refs, all)),
                }),
                spec_pool_records(data@, 4) matches Some(all) ==> (spec_pool_records(data@, pos as int)
                    matches Some(rest) && all == records@ + rest),
                spec_pool_records(data@, 4) is None <==> spec_pool_records(data@, pos as int) is None,
            decreases data.len() - pos,
        {
            proof {
                reveal(spec_pool_records);
            }
            let length = read_u16(data, pos).unwrap();
            let refcount = match read_u16(data, pos + 2) {
                Some(v) => v,
                None => {
                    return Err(
                        Error::with_text(ErrorKind::UnexpectedEof, "failed to fill whole buffer"),
                    );
                },
            };
            let ghost before = records@;
            if length == 0 && refcount > 0 {
                let low = match read_u16(data, pos + 4) {
                    Some(v) => v,
                    None => {
                        return Err(
                            Error::with_text(ErrorKind::UnexpectedEof, "failed to fill whole buffer"),
                        );
                    },
                };
                let rc = match read_u16(data, pos + 6) {
                    Some(v) => v,
                    None => {
                        return Err(
                            Error::with_text(ErrorKind::UnexpectedEof, "failed to fill whole buffer"),
                        );
                    },
                };
                records.push(((refcount as u32) * 65536 + low as u32, rc));
                pos = pos + 8;
            } else {
                records.push((length as u32, refcount));
                pos = pos + 4;
            }
            proof {
                match spec_pool_records(data@, 4) {
                    Some(all) => {
                        let rest = spec_pool_records(data@, pos as int)->0;
                        assert(all =~= records@ + rest);
                    },
                    None => {},
                }
            }
        }
        Ok(StringPoolBuilder { codepage, long_string_refs, lengths_and_refcounts: records })
    }

    /// Reads the strings from the bytes of the `_StringData` table.  Fails
    /// with `UnexpectedEof` if the data runs out, and with `InvalidData` if
    /// there are more strings than references can number.
    pub fn build_from_data(self, data: &[u8]) -> (r: Result<StringPool, Error>)
        ensures
            self.records().len() > MAX_STRING_REF ==> (r matches Err(e) && e.kind
                == ErrorKind::InvalidData),
            self.records().len() <= MAX_STRING_REF ==> match spec_pool_strings(
                self.spec_codepage(),
                self.records(),
                data@,
            ) {
                Some(entries) => r matches Ok(p) && p.wf() && p.entries() == entries
                    && p.spec_codepage() == self.spec_codepage() && p.spec_long_string_refs()
                    == self.spec_long_string_refs() && !p.spec_is_modified(),
                None => r matches Err(e) && e.kind == ErrorKind::UnexpectedEof,
            },
    {
        if self.lengths_and_refcounts.len() > MAX_STRING_REF as usize {
            return Err(Error::with_text(ErrorKind::InvalidData, "Too many strings in string pool"));
        }
        let mut strings: Vec<(String, u16)> = Vec::new();
        let mut pos: usize = 0;
        let mut i: usize = 0;
        let ghost records = self.records();
        proof {
            assert(records.skip(0) =~= records);
            assert(data@.skip(0) =~= data@);
        }
        while i < self.lengths_and_refcounts.len()
            invariant
                i <= records.len(),
                records == self.lengths_and_refcounts@,
                records.len() <= MAX_STRING_REF,
                strings@.len() == i,
                pos <= data@.len(),
                spec_pool_strings(self.codepage, records, data@) matches Some(all) ==> (spec_pool_strings(
                    self.codepage,
                    records.skip(i as int),
                    data@.skip(pos as int),
                ) matches Some(rest) && all == entries_view(strings@) + rest),
                spec_pool_strings(self.codepage, records, data@) is None <==> spec_pool_strings(
                    self.codepage,
                    records.skip(i as int),
                    data@.skip(pos as int),
                ) is None,
            decreases records.len() - i,
        {
            let (length, refcount) = self.lengths_and_refcounts[i];
            let ghost tail = records.skip(i as int);
            proof {
                assert(tail[0] == (length, refcount));
                assert(tail.drop_first() =~= records.skip(i + 1));
            }
            if length as usize > data.len() - pos {
                return Err(Error::with_text(ErrorKind::UnexpectedEof, "failed to fill whole buffer"));
            }
            let end = pos + length as usize;
            let mut buffer: Vec<u8> = Vec::new();
            let mut k: usize = pos;
            while k < end
                invariant
                    pos <= k <= end,
                    end <= data@.len(),
                    buffer@ == data@.subrange(pos as int, k as int),
                decreases end - k,
            {
                buffer.push(data[k]);
                proof {
                    assert(data@.subrange(pos as int, k + 1) =~= data@.subrange(pos as int, k as int).push(
                        data@[k as int],
                    ));
                }
                k = k + 1;
            }
            let text = self.codepage.decode(buffer.as_slice());
            let ghost before = strings@;
            strings.push((text, refcount));
            proof {
                assert(data@.skip(pos as int).take(length as int) =~= buffer@);
                assert(data@.skip(pos as int).skip(length as int) =~= data@.skip(end as int));
                assert(entries_view(strings@) =~= entries_view(before).push((text@, refcount)));
                match spec_pool_strings(self.codepage, records, data@) {
                    Some(all) => {
                        let rest = spec_pool_strings(
                            self.codepage,
                            records.skip(i + 1),
                            data@.skip(end as int),
                        )->0;
                        assert(all =~= entries_view(strings@) + rest);
                    },
                    None => {},
                }
            }
            pos = end;
            i = i + 1;
        }
        proof {
            assert(records.skip(i as int) =~= Seq::<(u32, u16)>::empty());
            assert(entries_view(strings@) + Seq::<(Seq<char>, u16)>::empty() =~= entries_view(
                strings@,
            ));
        }
        Ok(
            StringPool {
                codepage: self.codepage,
                strings,
                long_string_refs: self.long_string_refs,
                is_modified: false,
            },
        )
    }
}


/// The records that writing some entries puts in the `_StringPool` table:
/// each string's encoded length, kept to 32 bits, and its refcount.
pub open spec fn written_records(c: CodePage, entries: Seq<(Seq<char>, u16)>) -> Seq<(u32, u16)> {
    entries.map_values(
        |e: (Seq<char>, u16)| ((spec_encode(c, e.0).len() as int % 0x1_0000_0000) as u32, e.1),
    )
}

/// Whether the records of some entries read back as they were written:
/// every encoded string is shorter than 2^32 bytes, and no string in use
/// encodes to nothing (a zero length with a nonzero refcount reads as the
/// start of a record for a string longer than 65535 bytes).
pub open spec fn records_read_back(c: CodePage, entries: Seq<(Seq<char>, u16)>) -> bool {
    forall|i: int|
        0 <= i < entries.len() ==> {
            &&& spec_encode(c, (#[trigger] entries[i]).0).len() < 0x1_0000_0000
            &&& (spec_encode(c, entries[i].0).len() == 0 ==> entries[i].1 == 0)
        }
}

/// The records of a list of entries start with the first entry's record.
#[verifier::spinoff_prover]
proof fn lemma_pool_lengths_front(c: CodePage, entries: Seq<(Seq<char>, u16)>)
    requires
        entries.len() > 0,
    ensures
        pool_lengths_bytes(c, entries) == pool_record_bytes(
            spec_encode(c, entries[0].0).len() as int % 0x1_0000_0000,
            entries[0].1,
        ) + pool_lengths_bytes(c, entries.drop_first()),
    decreases entries.len(),
{
    if entries.len() == 1 {
        assert(entries.drop_last() =~= Seq::<(Seq<char>, u16)>::empty());
        assert(entries.drop_first() =~= Seq::<(Seq<char>, u16)>::empty());
        assert(pool_lengths_bytes(c, entries.drop_last()) == Seq::<u8>::empty());
        assert(pool_lengths_bytes(c, entries.drop_first()) == Seq::<u8>::empty());
        assert(pool_lengths_bytes(c, entries) =~= pool_record_bytes(
            spec_encode(c, entries[0].0).len() as int % 0x1_0000_0000,
            entries[0].1,
        ));
    } else {
        lemma_pool_lengths_front(c, entries.drop_last());
        assert(entries.drop_last().drop_first() =~= entries.drop_first().drop_last());
        assert(entries.drop_first().last() == entries.last());
        assert(pool_lengths_bytes(c, entries) =~= pool_record_bytes(
            spec_encode(c, entries[0].0).len() as int % 0x1_0000_0000,
            entries[0].1,
        ) + pool_lengths_bytes(c, entries.drop_first()));
    }
}

/// The string data of a list of entries starts with the first string's
/// encoding.
#[verifier::spinoff_prover]
proof fn lemma_string_data_front(c: CodePage, entries: Seq<(Seq<char>, u16)>)
    requires
        entries.len() > 0,
    ensures
        string_data_bytes(c, entries) == spec_encode(c, entries[0].0) + string_data_bytes(
            c,
            entries.drop_first(),
        ),
    decreases entries.len(),
{
    if entries.len() == 1 {
        assert(entries.drop_last() =~= Seq::<(Seq<char>, u16)>::empty());
        assert(entries.drop_first() =~= Seq::<(Seq<char>, u16)>::empty());
        assert(string_data_bytes(c, entries.drop_last()) == Seq::<u8>::empty());
        assert(string_data_bytes(c, entries.drop_first()) == Seq::<u8>::empty());
        assert(string_data_bytes(c, entries) =~= spec_encode(c, entries[0].0));
    } else {
        lemma_string_data_front(c, entries.drop_last());
        assert(entries.drop_last().drop_first() =~= entries.drop_first().drop_last());
        assert(entries.drop_first().last() == entries.last());
        assert(string_data_bytes(c, entries) =~= spec_encode(c, entries[0].0) + string_data_bytes(
            c,
            entries.drop_first(),
        ));
    }
}

/// Reading a record that stands in some bytes gives its length and
/// refcount, followed by what reading the bytes after it gives.
#[verifier::spinoff_prover]
proof fn lemma_read_record(data: Seq<u8>, pos: int, length: int, refcount: u16)
    requires
        0 <= pos,
        0 <= length < 0x1_0000_0000,
        length == 0 ==> refcount == 0,
        pos + pool_record_bytes(length, refcount).len() <= data.len(),
        data.subrange(pos, pos + pool_record_bytes(length, refcount).len()) == pool_record_bytes(length, refcount),
    ensures
        spec_pool_records(data, pos) == match spec_pool_records(
            data,
            pos + pool_record_bytes(length, refcount).len(),
        ) {
            Some(r) => Some(seq![(length as u32, refcount)] + r),
            None => None,
        },
{
    reveal(spec_pool_records);
    reveal(pool_record_bytes);
    let record = pool_record_bytes(length, refcount);
    let rc = refcount as int;
    if length > 65535 {
        let hi = length / 65536;
        let lo = length % 65536;
        assert(record =~= le16_bytes(0) + le16_bytes(hi) + le16_bytes(lo) + le16_bytes(rc));
        assert(record.subrange(0, 2) =~= le16_bytes(0));
        assert(record.subrange(2, 4) =~= le16_bytes(hi));
        assert(record.subrange(4, 6) =~= le16_bytes(lo));
        assert(record.subrange(6, 8) =~= le16_bytes(rc));
        assert(data.subrange(pos, pos + 2) =~= record.subrange(0, 2));
        lemma_le16_at(data, pos, 0);
        assert(data.subrange(pos + 2, pos + 4) =~= record.subrange(2, 4));
        lemma_le16_at(data, pos + 2, hi);
        assert(data.subrange(pos + 4, pos + 6) =~= record.subrange(4, 6));
        lemma_le16_at(data, pos + 4, lo);
        assert(data.subrange(pos + 6, pos + 8) =~= record.subrange(6, 8));
        lemma_le16_at(data, pos + 6, rc);
        assert(hi * 65536 + lo == length);
    } else {
        assert(record =~= le16_bytes(length) + le16_bytes(rc));
        assert(record.subrange(0, 2) =~= le16_bytes(length));
        assert(record.subrange(2, 4) =~= le16_bytes(rc));
        assert(data.subrange(pos, pos + 2) =~= record.subrange(0, 2));
        lemma_le16_at(data, pos, length);
        assert(data.subrange(pos + 2, pos + 4) =~= record.subrange(2, 4));
        lemma_le16_at(data, pos + 2, rc);
    }
}

/// What `records_read_back` says of the first entry, and that it holds of
/// the others.
proof fn lemma_read_back_parts(c: CodePage, entries: Seq<(Seq<char>, u16)>)
    requires
        records_read_back(c, entries),
        entries.len() > 0,
    ensures
        spec_encode(c, entries[0].0).len() < 0x1_0000_0000,
        spec_encode(c, entries[0].0).len() == 0 ==> entries[0].1 == 0,
        records_read_back(c, entries.drop_first()),
{
    assert forall|i: int| 0 <= i < entries.drop_first().len() implies {
        &&& spec_encode(c, (#[trigger] entries.drop_first()[i]).0).len() < 0x1_0000_0000
        &&& (spec_encode(c, entries.drop_first()[i].0).len() == 0 ==> entries.drop_first()[i].1 == 0)
    } by {
        assert(entries.drop_first()[i] == entries[i + 1]);
    }
}

/// The middle part of three joined sequences is where it was put.
proof fn lemma_middle_of_three(a: Seq<u8>, b: Seq<u8>, c: Seq<u8>)
    ensures
        (a + b + c).subrange(a.len() as int, (a.len() + b.len()) as int) == b,
        a + (b + c) == a + b + c,
{
    assert((a + b + c).subrange(a.len() as int, (a.len() + b.len()) as int) =~= b);
    assert(a + (b + c) =~= a + b + c);
}

/// Reading the records that follow some bytes gives the records of the
/// entries that were written there.
#[verifier::spinoff_prover]
proof fn lemma_read_written_records(c: CodePage, entries: Seq<(Seq<char>, u16)>, pre: Seq<u8>)
    requires
        records_read_back(c, entries),
    ensures
        spec_pool_records(pre + pool_lengths_bytes(c, entries), pre.len() as int) == Some(
            written_records(c, entries),
        ),
    decreases entries.len(),
{
    if entries.len() == 0 {
        reveal(spec_pool_records);
        assert(written_records(c, entries) =~= Seq::<(u32, u16)>::empty());
        assert(pre + pool_lengths_bytes(c, entries) =~= pre);
    } else {
        lemma_pool_lengths_front(c, entries);
        lemma_read_back_parts(c, entries);
        let e = entries[0];
        let length = spec_encode(c, e.0).len() as int;
        let rest = pool_lengths_bytes(c, entries.drop_first());
        let record = pool_record_bytes(length, e.1);
        assert(length % 0x1_0000_0000 == length);
        assert(pool_lengths_bytes(c, entries) == record + rest);
        lemma_middle_of_three(pre, record, rest);
        let data = pre + record + rest;
        lemma_read_record(data, pre.len() as int, length, e.1);
        lemma_read_written_records(c, entries.drop_first(), pre + record);
        assert(written_records(c, entries) =~= seq![(length as u32, e.1)] + written_records(
            c,
            entries.drop_first(),
        ));
    }
}

/// Reading the string data of some entries with their records gives each
/// entry's string as its encoding decodes, with its refcount.
#[verifier::spinoff_prover]
proof fn lemma_read_written_strings(c: CodePage, entries: Seq<(Seq<char>, u16)>)
    requires
        records_read_back(c, entries),
    ensures
        spec_pool_strings(c, written_records(c, entries), string_data_bytes(c, entries)) == Some(
            entries.map_values(|e: (Seq<char>, u16)| (spec_decode(c, spec_encode(c, e.0)), e.1)),
        ),
    decreases entries.len(),
{
    let records = written_records(c, entries);
    let data = string_data_bytes(c, entries);
    if entries.len() == 0 {
        assert(entries.map_values(|e: (Seq<char>, u16)| (spec_decode(c, spec_encode(c, e.0)), e.1))
            =~= Seq::<(Seq<char>, u16)>::empty());
    } else {
        lemma_string_data_front(c, entries);
        let e = entries[0];
        let encoded = spec_encode(c, e.0);
        lemma_read_back_parts(c, entries);
        let rest = string_data_bytes(c, entries.drop_first());
        assert(records[0].0 as int == encoded.len());
        assert(records.drop_first() =~= written_records(c, entries.drop_first()));
        assert(data.take(encoded.len() as int) =~= encoded);
        assert(data.skip(encoded.len() as int) =~= rest);
        lemma_read_written_strings(c, entries.drop_first());
        assert(entries.map_values(|e: (Seq<char>, u16)| (spec_decode(c, spec_encode(c, e.0)), e.1))
            =~= seq![(spec_decode(c, encoded), e.1)] + entries.drop_first().map_values(
            |e: (Seq<char>, u16)| (spec_decode(c, spec_encode(c, e.0)), e.1),
        ));
    }
}

/// Reading back what a string pool writes gives its code page, whether its
/// references are long, its records and, from the records and the string
/// data, each entry's string as its encoding decodes with the entry's
/// refcount; for pools whose records read back as written.
pub proof fn lemma_pool_round_trip(c: CodePage, long_string_refs: bool, entries: Seq<(Seq<char>, u16)>)
    requires
        records_read_back(c, entries),
    ensures
        spec_read_pool(string_pool_bytes(c, long_string_refs, entries)) == Ok::<
            (CodePage, bool, Seq<(u32, u16)>),
            ErrorKind,
        >((c, long_string_refs, written_records(c, entries))),
        spec_pool_strings(c, written_records(c, entries), string_data_bytes(c, entries)) == Some(
            entries.map_values(|e: (Seq<char>, u16)| (spec_decode(c, spec_encode(c, e.0)), e.1)),
        ),
{
    let header = pool_header(c, long_string_refs);
    let lengths = pool_lengths_bytes(c, entries);
    let data = string_pool_bytes(c, long_string_refs, entries);
    assert(0 < codepage_id(c) < 0x8000_0000);
    lemma_le32_round_trip(Seq::empty(), header, lengths);
    assert(data =~= Seq::<u8>::empty() + le32_bytes(header) + lengths);
    assert(le32(data, 0) == header);
    crate::codepage::lemma_codepage_id_round_trip(c);
    lemma_read_written_records(c, entries, le32_bytes(header));
    assert(le32_bytes(header).len() == 4);
    lemma_read_written_strings(c, entries);
}

} // verus!
