//! Database tables: their columns, and the layout of their rows in a table
//! stream.

use crate::category::{spec_validate, str_equal, Category};
use crate::column::{
    can_write, lemma_value_round_trip, spec_read_value, spec_value_bytes, spec_width, Column,
    ColumnType, ColumnView,
};
use crate::error::{Error, ErrorKind};
use crate::stringpool::MAX_STRING_REF;
use crate::streamname::{self, spec_encode, spec_is_valid};
use crate::stringpool::StringPool;
use crate::value::{spec_to_value, Value, ValueRef, ValueView};
use std::rc::Rc;
use vstd::prelude::*;

verus! {

/// A database table.
pub struct Table {
    name: String,
    columns: Vec<Column>,
    long_string_refs: bool,
}

/// The mathematical model of a [`Table`].
pub struct TableView {
    /// The table's name.
    pub name: Seq<char>,
    /// The table's columns, in order.
    pub columns: Seq<ColumnView>,
    /// Whether string references in the table's stream take three bytes.
    pub long_string_refs: bool,
}

/// The models of a sequence of columns.
pub open spec fn columns_view(v: Seq<Column>) -> Seq<ColumnView> {
    v.map_values(|c: Column| c@)
}

impl View for Table {
    type V = TableView;

    closed spec fn view(&self) -> TableView {
        TableView {
            name: self.name@,
            columns: columns_view(self.columns@),
            long_string_refs: self.long_string_refs,
        }
    }
}

/// Whether column `i` is the first one with the given name.
pub open spec fn is_first_named(cols: Seq<ColumnView>, name: Seq<char>, i: int) -> bool {
    &&& 0 <= i < cols.len()
    &&& cols[i].name == name
    &&& forall|j: int| 0 <= j < i ==> cols[j].name != name
}

/// Whether some column has the given name.
pub open spec fn has_named(cols: Seq<ColumnView>, name: Seq<char>) -> bool {
    exists|i: int| 0 <= i < cols.len() && cols[i].name == name
}

/// The index of the first column with the given name, if any.
pub open spec fn column_index(cols: Seq<ColumnView>, name: Seq<char>) -> Option<int> {
    if has_named(cols, name) {
        Some(choose|i: int| is_first_named(cols, name, i))
    } else {
        None
    }
}

/// The indices of the primary key columns among the first `n` columns.
pub open spec fn primary_key_indices_upto(cols: Seq<ColumnView>, n: int) -> Seq<usize>
    decreases n,
{
    if n <= 0 {
        Seq::empty()
    } else {
        let before = primary_key_indices_upto(cols, n - 1);
        if cols[n - 1].is_primary_key {
            before.push((n - 1) as usize)
        } else {
            before
        }
    }
}

/// The number of bytes that one value of each of the first `j` columns
/// takes together.
pub open spec fn col_offset(cols: Seq<ColumnView>, j: int, long_string_refs: bool) -> int
    decreases j,
{
    if j <= 0 {
        0
    } else {
        col_offset(cols, j - 1, long_string_refs) + spec_width(cols[j - 1].coltype, long_string_refs)
    }
}

/// The number of bytes one row takes.
pub open spec fn row_size(cols: Seq<ColumnView>, long_string_refs: bool) -> int {
    col_offset(cols, cols.len() as int, long_string_refs)
}

/// The number of complete rows in a table stream of `len` bytes.
pub open spec fn num_rows(cols: Seq<ColumnView>, long_string_refs: bool, len: int) -> int {
    if row_size(cols, long_string_refs) > 0 {
        len / row_size(cols, long_string_refs)
    } else {
        0
    }
}

/// Where the value of row `i` in column `j` starts in a table stream that
/// holds `n` rows: the stream holds all the values of the first column,
/// then all those of the second, and so on.
pub open spec fn value_pos(cols: Seq<ColumnView>, long_string_refs: bool, n: int, i: int, j: int) -> int {
    n * col_offset(cols, j, long_string_refs) + i * spec_width(cols[j].coltype, long_string_refs)
}

/// The value of row `i` in column `j` of a table stream.
pub open spec fn stored_value(cols: Seq<ColumnView>, long_string_refs: bool, data: Seq<u8>, i: int, j: int) -> ValueRef {
    let n = num_rows(cols, long_string_refs, data.len() as int);
    match spec_read_value(cols[j].coltype, data, value_pos(cols, long_string_refs, n, i, j), long_string_refs) {
        Some((v, _)) => v,
        None => ValueRef::Null,
    }
}

/// The rows that a table stream holds.
pub open spec fn decoded_rows(t: TableView, data: Seq<u8>) -> Seq<Seq<ValueRef>> {
    Seq::new(
        num_rows(t.columns, t.long_string_refs, data.len() as int) as nat,
        |i: int| Seq::new(t.columns.len(), |j: int| stored_value(t.columns, t.long_string_refs, data, i, j)),
    )
}

/// The contents of rows as sequences of values.
pub open spec fn rows_view(rows: Seq<Vec<ValueRef>>) -> Seq<Seq<ValueRef>> {
    rows.map_values(|r: Vec<ValueRef>| r@)
}

/// The bytes that the values of column `j` in the first `n` rows take, in
/// row order.
pub open spec fn column_bytes(t: ColumnType, long_string_refs: bool, rows: Seq<Seq<ValueRef>>, j: int, n: int) -> Seq<u8>
    decreases n,
{
    if n <= 0 {
        Seq::empty()
    } else {
        column_bytes(t, long_string_refs, rows, j, n - 1) + spec_value_bytes(t, rows[n - 1][j], long_string_refs)
    }
}

/// The bytes that the first `m` columns of the rows take, one column after
/// the other.
pub open spec fn table_bytes_upto(cols: Seq<ColumnView>, long_string_refs: bool, rows: Seq<Seq<ValueRef>>, m: int) -> Seq<u8>
    decreases m,
{
    if m <= 0 {
        Seq::empty()
    } else {
        table_bytes_upto(cols, long_string_refs, rows, m - 1) + column_bytes(
            cols[m - 1].coltype,
            long_string_refs,
            rows,
            m - 1,
            rows.len() as int,
        )
    }
}

/// The table stream that holds the rows.
pub open spec fn table_bytes(cols: Seq<ColumnView>, long_string_refs: bool, rows: Seq<Seq<ValueRef>>) -> Seq<u8> {
    table_bytes_upto(cols, long_string_refs, rows, cols.len() as int)
}

/// Whether every value of the rows can be written to its column.
pub open spec fn all_writable(cols: Seq<ColumnView>, long_string_refs: bool, rows: Seq<Seq<ValueRef>>) -> bool {
    forall|i: int, j: int|
        0 <= i < rows.len() && 0 <= j < cols.len() ==> #[trigger] can_write(cols[j].coltype, rows[i][j], long_string_refs)
}

/// Whether a value reads back as itself once written to a column of the
/// type: it can be written, an integer is in the range whose stored form
/// is not the null marker, and a string reference is a valid one.
pub open spec fn survives(t: ColumnType, v: ValueRef, long_string_refs: bool) -> bool {
    &&& can_write(t, v, long_string_refs)
    &&& t is Int16 ==> (v matches ValueRef::Int(n) ==> -32768 < n <= 32767)
    &&& t is Int32 ==> (v matches ValueRef::Int(n) ==> n != i32::MIN)
    &&& v matches ValueRef::Str(s) ==> 0 < s.spec_number() <= MAX_STRING_REF
}

impl Table {
    /// Creates a new table object with the given name and columns.  The
    /// `long_string_refs` argument indicates the size of any encoded string
    /// refs.
    pub fn new(name: String, columns: Vec<Column>, long_string_refs: bool) -> (r: Rc<Table>)
        ensures
            (*r)@ == (TableView { name: name@, columns: columns_view(columns@), long_string_refs }),
    {
        Rc::new(Table { name, columns, long_string_refs })
    }

    /// Returns the name of the table.
    pub fn name(&self) -> (r: &str)
        ensures
            r@ == self@.name,
    {
        self.name.as_str()
    }

    /// Returns the name of the CFB stream that holds this table's data.
    pub fn stream_name(&self) -> (r: String)
        ensures
            r@ == spec_encode(self@.name, true),
    {
        streamname::encode(self.name.as_str(), true)
    }

    /// Returns true if the given string is a valid table name.
    pub fn is_valid_name(name: &str) -> (r: bool)
        ensures
            r == (spec_validate(Category::Identifier, name@) && spec_is_valid(name@, true)),
    {
        Category::Identifier.validate(name) && streamname::is_valid(name, true)
    }

    /// Returns whether string references in this table take three bytes.
    pub fn long_string_refs(&self) -> (r: bool)
        ensures
            r == self@.long_string_refs,
    {
        self.long_string_refs
    }

    /// Returns the list of columns in this table.
    pub fn columns(&self) -> (r: &[Column])
        ensures
            columns_view(r@) == self@.columns,
    {
        self.columns.as_slice()
    }

    /// Returns true if this table has a column with the given name.
    pub fn has_column(&self, column_name: &str) -> (r: bool)
        ensures
            r == has_named(self@.columns, column_name@),
    {
        self.index_for_column_name(column_name).is_some()
    }

    /// Returns the column with the given name, if any.
    pub fn get_column(&self, column_name: &str) -> (r: Option<&Column>)
        ensures
            match column_index(self@.columns, column_name@) {
                Some(i) => r matches Some(c) && c@ == self@.columns[i],
                None => r is None,
            },
    {
        match self.index_for_column_name(column_name) {
            Some(index) => Some(&self.columns[index]),
            None => None,
        }
    }

    /// Returns the indices of table's primary key columns.
    pub fn primary_key_indices(&self) -> (r: Vec<usize>)
        ensures
            r@ == primary_key_indices_upto(self@.columns, self@.columns.len() as int),
    {
        let mut indices: Vec<usize> = Vec::new();
        let mut index: usize = 0;
        while index < self.columns.len()
            invariant
                index <= self.columns@.len(),
                indices@ == primary_key_indices_upto(columns_view(self.columns@), index as int),
            decreases self.columns@.len() - index,
        {
            if self.columns[index].is_primary_key() {
                indices.push(index);
            }
            index = index + 1;
        }
        indices
    }

    /// Returns the index of the first column with the given name, if any.
    pub fn index_for_column_name(&self, column_name: &str) -> (r: Option<usize>)
        ensures
            r matches Some(i) ==> column_index(self@.columns, column_name@) == Some(i as int)
                && is_first_named(self@.columns, column_name@, i as int),
            r is None ==> column_index(self@.columns, column_name@) is None,
    {
        let ghost cols = self@.columns;
        let mut index: usize = 0;
        while index < self.columns.len()
            invariant
                index <= self.columns@.len(),
                cols == columns_view(self.columns@),
                forall|j: int| 0 <= j < index ==> cols[j].name != column_name@,
            decreases self.columns@.len() - index,
        {
            if str_equal(self.columns[index].name(), column_name) {
                proof {
                    lemma_first_named_unique(cols, column_name@, index as int);
                }
                return Some(index);
            }
            index = index + 1;
        }
        None
    }

    /// Parses the rows of a table stream.  The stream holds the values of
    /// the first column for every row, then those of the second column, and
    /// so on; any bytes after the last complete row are ignored.
    pub fn read_rows(&self, data: &[u8]) -> (r: Vec<Vec<ValueRef>>)
        ensures
            r@.len() == num_rows(self@.columns, self@.long_string_refs, data@.len() as int),
            forall|i: int| 0 <= i < r@.len() ==> #[trigger] r@[i]@.len() == self@.columns.len(),
            forall|i: int, j: int|
                0 <= i < r@.len() && 0 <= j < self@.columns.len() ==> #[trigger] r@[i]@[j]
                    == stored_value(self@.columns, self@.long_string_refs, data@, i, j),
            rows_view(r@) == decoded_rows(self@, data@),
    {
        let ghost cols = self@.columns;
        let lsr = self.long_string_refs;
        let mut widths: Vec<u128> = Vec::new();
        let mut offsets: Vec<u128> = Vec::new();
        let mut total: u128 = 0;
        let mut j: usize = 0;
        while j < self.columns.len()
            invariant
                j <= self.columns@.len(),
                cols == columns_view(self.columns@),
                lsr == self@.long_string_refs,
                widths@.len() == j,
                offsets@.len() == j,
                total == col_offset(cols, j as int, lsr),
                forall|k: int|
                    0 <= k < j ==> widths@[k] == spec_width(cols[k].coltype, lsr) && offsets@[k]
                        == col_offset(cols, k, lsr),
            decreases self.columns@.len() - j,
        {
            proof {
                lemma_col_offset_bounds(cols, lsr, j as int, j as int);
            }
            let w = self.columns[j].coltype().width(lsr) as u128;
            widths.push(w);
            offsets.push(total);
            total = total + w;
            j = j + 1;
        }
        let n: usize = if total > 0 {
            (data.len() as u128 / total) as usize
        } else {
            0
        };
        let ghost size = row_size(cols, lsr);
        assert(n == num_rows(cols, lsr, data@.len() as int)) by {
            if total > 0 {
                assert(data.len() as u128 / total <= data.len() as u128) by (nonlinear_arith)
                    requires
                        total > 0,
                ;
            }
        }
        let dlen = data.len();
        let mut rows: Vec<Vec<ValueRef>> = Vec::new();
        let mut i: usize = 0;
        while i < n
            invariant
                dlen == data@.len(),
                i <= n,
                n == num_rows(cols, lsr, data@.len() as int),
                size == row_size(cols, lsr),
                total == size,
                cols == columns_view(self.columns@),
                lsr == self@.long_string_refs,
                widths@.len() == cols.len(),
                offsets@.len() == cols.len(),
                forall|k: int|
                    0 <= k < cols.len() ==> widths@[k] == spec_width(cols[k].coltype, lsr) && offsets@[k]
                        == col_offset(cols, k, lsr),
                rows@.len() == i,
                forall|a: int| 0 <= a < i ==> #[trigger] rows@[a]@.len() == cols.len(),
                forall|a: int, b: int|
                    0 <= a < i && 0 <= b < cols.len() ==> #[trigger] rows@[a]@[b] == stored_value(
                        cols,
                        lsr,
                        data@,
                        a,
                        b,
                    ),
            decreases n - i,
        {
            let mut row: Vec<ValueRef> = Vec::new();
            let mut j: usize = 0;
            while j < self.columns.len()
                invariant
                    dlen == data@.len(),
                    i < n,
                    n == num_rows(cols, lsr, data@.len() as int),
                    size == row_size(cols, lsr),
                    total == size,
                    cols == columns_view(self.columns@),
                    lsr == self@.long_string_refs,
                    widths@.len() == cols.len(),
                    offsets@.len() == cols.len(),
                    forall|k: int|
                        0 <= k < cols.len() ==> widths@[k] == spec_width(cols[k].coltype, lsr)
                            && offsets@[k] == col_offset(cols, k, lsr),
                    j <= cols.len(),
                    row@.len() == j,
                    forall|b: int| 0 <= b < j ==> #[trigger] row@[b] == stored_value(cols, lsr, data@, i as int, b),
                decreases cols.len() - j,
            {
                let ghost off = col_offset(cols, j as int, lsr);
                let ghost w = spec_width(cols[j as int].coltype, lsr);
                proof {
                    lemma_col_offset_bounds(cols, lsr, j as int, j as int + 1);
                    lemma_col_offset_bounds(cols, lsr, j as int + 1, cols.len() as int);
                    lemma_value_in_stream(n as int, i as int, off, w, size, data@.len() as int);
                    assert(offsets@[j as int] == off);
                    assert(widths@[j as int] == w);
                    assert(n * off + i * w + w <= data@.len());
                    assert(0 <= n * off <= n * off + i * w);
                }
                let pos = (n as u128 * offsets[j] + i as u128 * widths[j]) as usize;
                assert(pos == value_pos(cols, lsr, n as int, i as int, j as int));
                let coltype = self.columns[j].coltype();
                match coltype.read_value(data, pos, lsr) {
                    Ok((value, _)) => {
                        row.push(value);
                    },
                    Err(_) => {
                        assert(false);
                        row.push(ValueRef::Null);
                    },
                }
                j = j + 1;
            }
            rows.push(row);
            i = i + 1;
        }
        proof {
            assert forall|a: int| 0 <= a < rows@.len() implies rows_view(rows@)[a] == decoded_rows(
                self@,
                data@,
            )[a] by {
                assert(rows_view(rows@)[a] =~= decoded_rows(self@, data@)[a]);
            }
            assert(rows_view(rows@) =~= decoded_rows(self@, data@));
        }
        rows
    }

    /// Serializes rows into a table stream: the values of the first column
    /// for every row, then those of the second column, and so on.  Fails
    /// with `InvalidInput` when a value cannot be stored in its column.
    pub fn write_rows(&self, rows: &Vec<Vec<ValueRef>>) -> (r: Result<Vec<u8>, Error>)
        requires
            forall|i: int| 0 <= i < rows@.len() ==> #[trigger] rows@[i]@.len() >= self@.columns.len(),
        ensures
            r is Ok <==> all_writable(self@.columns, self@.long_string_refs, rows_view(rows@)),
            r matches Ok(bytes) ==> bytes@ == table_bytes(self@.columns, self@.long_string_refs, rows_view(rows@)),
            r matches Err(e) ==> e.kind == ErrorKind::InvalidInput,
    {
        let ghost cols = self@.columns;
        let ghost rv = rows_view(rows@);
        let lsr = self.long_string_refs;
        let mut out: Vec<u8> = Vec::new();
        let mut j: usize = 0;
        while j < self.columns.len()
            invariant
                j <= cols.len(),
                cols == columns_view(self.columns@),
                lsr == self@.long_string_refs,
                rv == rows_view(rows@),
                forall|i: int| 0 <= i < rows@.len() ==> #[trigger] rows@[i]@.len() >= cols.len(),
                out@ == table_bytes_upto(cols, lsr, rv, j as int),
                forall|a: int, b: int|
                    0 <= a < rv.len() && 0 <= b < j ==> #[trigger] can_write(cols[b].coltype, rv[a][b], lsr),
            decreases cols.len() - j,
        {
            let coltype = self.columns[j].coltype();
            let ghost before = out@;
            let mut i: usize = 0;
            while i < rows.len()
                invariant
                    j < cols.len(),
                    i <= rows@.len(),
                    cols == columns_view(self.columns@),
                    lsr == self@.long_string_refs,
                    rv == rows_view(rows@),
                    coltype == cols[j as int].coltype,
                    forall|i: int| 0 <= i < rows@.len() ==> #[trigger] rows@[i]@.len() >= cols.len(),
                    before == table_bytes_upto(cols, lsr, rv, j as int),
                    out@ == before + column_bytes(coltype, lsr, rv, j as int, i as int),
                    forall|a: int, b: int|
                        0 <= a < rv.len() && 0 <= b < j ==> #[trigger] can_write(cols[b].coltype, rv[a][b], lsr),
                    forall|a: int| 0 <= a < i ==> #[trigger] can_write(coltype, rv[a][j as int], lsr),
                decreases rows@.len() - i,
            {
                assert(rows@[i as int]@.len() >= cols.len());
                let value = rows[i][j];
                assert(value == rv[i as int][j as int]);
                match coltype.write_value(&mut out, value, lsr) {
                    Ok(()) => {
                        assert(out@ == before + column_bytes(coltype, lsr, rv, j as int, i as int + 1));
                    },
                    Err(e) => {
                        assert(!can_write(cols[j as int].coltype, rv[i as int][j as int], lsr));
                        return Err(e);
                    },
                }
                i = i + 1;
            }
            assert(rv.len() == rows@.len());
            j = j + 1;
        }
        Ok(out)
    }
}

/// A column's offset grows with its index, by at most four bytes a column.
proof fn lemma_col_offset_bounds(cols: Seq<ColumnView>, long_string_refs: bool, j: int, k: int)
    requires
        0 <= j <= k,
    ensures
        0 <= col_offset(cols, j, long_string_refs) <= col_offset(cols, k, long_string_refs),
        col_offset(cols, k, long_string_refs) <= 4 * k,
        col_offset(cols, k, long_string_refs) >= 2 * k,
    decreases k,
{
    if k > 0 {
        lemma_col_offset_bounds(cols, long_string_refs, if j < k { j } else { k - 1 }, k - 1);
    }
}

/// A value of a row that a stream holds ends within the stream.
proof fn lemma_value_in_stream(n: int, i: int, off: int, w: int, size: int, len: int)
    by (nonlinear_arith)
    requires
        0 <= i < n,
        0 <= off,
        0 <= w,
        off + w <= size,
        size > 0,
        n == len / size,
        len >= 0,
    ensures
        0 <= n * off + i * w,
        n * off + i * w + w <= len,
        n * size <= len,
{
}

/// The bytes of a value take the width of its column type.
proof fn lemma_value_bytes_len(t: ColumnType, v: ValueRef, long_string_refs: bool)
    ensures
        spec_value_bytes(t, v, long_string_refs).len() == spec_width(t, long_string_refs),
{
}

/// The values of `n` rows in one column take `n` times the column's width.
proof fn lemma_column_bytes_len(t: ColumnType, long_string_refs: bool, rows: Seq<Seq<ValueRef>>, j: int, n: int)
    requires
        n >= 0,
    ensures
        column_bytes(t, long_string_refs, rows, j, n).len() == n * spec_width(t, long_string_refs),
    decreases n,
{
    if n > 0 {
        let w = spec_width(t, long_string_refs);
        lemma_column_bytes_len(t, long_string_refs, rows, j, n - 1);
        lemma_value_bytes_len(t, rows[n - 1][j], long_string_refs);
        assert((n - 1) * w + w == n * w) by (nonlinear_arith);
    }
}

/// The first `m` columns of `n` rows take `n` times their offset.
proof fn lemma_table_bytes_len(cols: Seq<ColumnView>, long_string_refs: bool, rows: Seq<Seq<ValueRef>>, m: int)
    requires
        m >= 0,
    ensures
        table_bytes_upto(cols, long_string_refs, rows, m).len() == rows.len() * col_offset(
            cols,
            m,
            long_string_refs,
        ),
    decreases m,
{
    if m > 0 {
        let n = rows.len() as int;
        let w = spec_width(cols[m - 1].coltype, long_string_refs);
        let off = col_offset(cols, m - 1, long_string_refs);
        lemma_table_bytes_len(cols, long_string_refs, rows, m - 1);
        lemma_column_bytes_len(cols[m - 1].coltype, long_string_refs, rows, m - 1, n);
        assert(n * off + n * w == n * (off + w)) by (nonlinear_arith);
    }
}

/// Row `i` of a column's bytes holds the bytes of the row's value.
proof fn lemma_column_bytes_at(t: ColumnType, long_string_refs: bool, rows: Seq<Seq<ValueRef>>, j: int, n: int, i: int)
    requires
        0 <= i < n,
    ensures
        ({
            let w = spec_width(t, long_string_refs);
            &&& i * w + w <= n * w
            &&& column_bytes(t, long_string_refs, rows, j, n).subrange(i * w, i * w + w)
                == spec_value_bytes(t, rows[i][j], long_string_refs)
        }),
    decreases n,
{
    let w = spec_width(t, long_string_refs);
    let prev = column_bytes(t, long_string_refs, rows, j, n - 1);
    let last = spec_value_bytes(t, rows[n - 1][j], long_string_refs);
    lemma_column_bytes_len(t, long_string_refs, rows, j, n - 1);
    lemma_value_bytes_len(t, rows[n - 1][j], long_string_refs);
    assert(w >= 0);
    assert((n - 1) * w + w == n * w) by (nonlinear_arith);
    if i == n - 1 {
        assert((prev + last).subrange(i * w, i * w + w) =~= last);
    } else {
        lemma_column_bytes_at(t, long_string_refs, rows, j, n - 1, i);
        assert((prev + last).subrange(i * w, i * w + w) =~= prev.subrange(i * w, i * w + w));
    }
}

/// Column `j` of a table stream holds the column's bytes.
proof fn lemma_table_bytes_at(cols: Seq<ColumnView>, long_string_refs: bool, rows: Seq<Seq<ValueRef>>, m: int, j: int)
    requires
        0 <= j < m,
    ensures
        ({
            let n = rows.len() as int;
            let off = col_offset(cols, j, long_string_refs);
            let w = spec_width(cols[j].coltype, long_string_refs);
            &&& n * off + n * w <= table_bytes_upto(cols, long_string_refs, rows, m).len()
            &&& table_bytes_upto(cols, long_string_refs, rows, m).subrange(n * off, n * off + n * w)
                == column_bytes(cols[j].coltype, long_string_refs, rows, j, n)
        }),
    decreases m,
{
    let n = rows.len() as int;
    let off = col_offset(cols, j, long_string_refs);
    let w = spec_width(cols[j].coltype, long_string_refs);
    let prev = table_bytes_upto(cols, long_string_refs, rows, m - 1);
    let last = column_bytes(cols[m - 1].coltype, long_string_refs, rows, m - 1, n);
    lemma_table_bytes_len(cols, long_string_refs, rows, m - 1);
    lemma_column_bytes_len(cols[m - 1].coltype, long_string_refs, rows, m - 1, n);
    lemma_column_bytes_len(cols[j].coltype, long_string_refs, rows, j, n);
    assert(n * off + n * w == n * (off + w)) by (nonlinear_arith);
    if j == m - 1 {
        assert((prev + last).subrange(n * off, n * off + n * w) =~= last);
    } else {
        let end = col_offset(cols, m - 1, long_string_refs);
        lemma_col_offset_bounds(cols, long_string_refs, j + 1, m - 1);
        assert(n * (off + w) <= n * end) by (nonlinear_arith)
            requires
                off + w <= end,
                n >= 0,
        ;
        lemma_table_bytes_at(cols, long_string_refs, rows, m - 1, j);
        lemma_col_offset_bounds(cols, long_string_refs, j, j);
        assert(0 <= n * off) by (nonlinear_arith)
            requires
                n >= 0,
                off >= 0,
        ;
        assert(n * off + n * w <= prev.len());
        assert((prev + last).subrange(n * off, n * off + n * w) =~= prev.subrange(n * off, n * off + n * w));
    }
}

/// A stream of whole rows holds as many rows as it was written with.
proof fn lemma_whole_rows(n: int, size: int)
    by (nonlinear_arith)
    requires
        n >= 0,
        size > 0,
    ensures
        (n * size) / size == n,
{
}

/// Reading the table stream that holds rows gives back the rows, when the
/// table has a column and every value survives being stored in its column.
pub proof fn lemma_rows_round_trip(cols: Seq<ColumnView>, long_string_refs: bool, rows: Seq<Seq<ValueRef>>)
    requires
        cols.len() > 0,
        forall|i: int| 0 <= i < rows.len() ==> #[trigger] rows[i].len() >= cols.len(),
        forall|i: int, j: int|
            0 <= i < rows.len() && 0 <= j < cols.len() ==> #[trigger] survives(cols[j].coltype, rows[i][j], long_string_refs),
    ensures
        all_writable(cols, long_string_refs, rows),
        num_rows(cols, long_string_refs, table_bytes(cols, long_string_refs, rows).len() as int) == rows.len(),
        forall|i: int, j: int|
            0 <= i < rows.len() && 0 <= j < cols.len() ==> #[trigger] stored_value(
                cols,
                long_string_refs,
                table_bytes(cols, long_string_refs, rows),
                i,
                j,
            ) == rows[i][j],
{
    let lsr = long_string_refs;
    let data = table_bytes(cols, lsr, rows);
    let n = rows.len() as int;
    let m = cols.len() as int;
    let size = row_size(cols, lsr);
    lemma_col_offset_bounds(cols, lsr, 0, m);
    lemma_table_bytes_len(cols, lsr, rows, m);
    lemma_whole_rows(n, size);
    assert(num_rows(cols, lsr, data.len() as int) == n);
    assert forall|i: int, j: int| 0 <= i < rows.len() && 0 <= j < cols.len() implies #[trigger] can_write(
        cols[j].coltype,
        rows[i][j],
        lsr,
    ) by {
        assert(survives(cols[j].coltype, rows[i][j], lsr));
    }
    assert forall|i: int, j: int| 0 <= i < rows.len() && 0 <= j < cols.len() implies #[trigger] stored_value(
        cols,
        lsr,
        data,
        i,
        j,
    ) == rows[i][j] by {
        let t = cols[j].coltype;
        let v = rows[i][j];
        let w = spec_width(t, lsr);
        let off = col_offset(cols, j, lsr);
        let pos = value_pos(cols, lsr, n, i, j);
        assert(survives(t, v, lsr));
        lemma_col_offset_bounds(cols, lsr, j, m);
        lemma_table_bytes_at(cols, lsr, rows, m, j);
        lemma_column_bytes_at(t, lsr, rows, j, n, i);
        let column = column_bytes(t, lsr, rows, j, n);
        assert(data == table_bytes_upto(cols, lsr, rows, m));
        assert(table_bytes_upto(cols, lsr, rows, m).subrange(n * off, n * off + n * w) == column);
        assert(data.subrange(n * off, n * off + n * w) == column);
        assert(0 <= i * w) by (nonlinear_arith)
            requires
                i >= 0,
                w >= 0,
        ;
        assert(0 <= n * off) by (nonlinear_arith)
            requires
                n >= 0,
                off >= 0,
        ;
        assert(pos == n * off + i * w);
        assert(i * w + w <= n * w);
        assert(data.subrange(pos, pos + w) =~= data.subrange(n * off, n * off + n * w).subrange(
            i * w,
            i * w + w,
        ));
        assert(data.subrange(pos, pos + w) == column.subrange(i * w, i * w + w));
        let bytes = spec_value_bytes(t, v, lsr);
        let pre = data.subrange(0, pos);
        let post = data.subrange(pos + w, data.len() as int);
        assert(data =~= pre + bytes + post);
        lemma_value_round_trip(pre, t, v, lsr, post);
    }
}

/// When some column has a name, a first one has it, and `column_index`
/// finds it.
pub proof fn lemma_column_index_first(cols: Seq<ColumnView>, name: Seq<char>)
    requires
        has_named(cols, name),
    ensures
        column_index(cols, name) matches Some(i) && is_first_named(cols, name, i),
{
    let i = choose|i: int| 0 <= i < cols.len() && cols[i].name == name;
    lemma_first_named_exists(cols, name, i);
}

proof fn lemma_first_named_exists(cols: Seq<ColumnView>, name: Seq<char>, i: int)
    requires
        0 <= i < cols.len(),
        cols[i].name == name,
    ensures
        exists|k: int| is_first_named(cols, name, k),
    decreases i,
{
    if exists|j: int| 0 <= j < i && cols[j].name == name {
        let j = choose|j: int| 0 <= j < i && cols[j].name == name;
        lemma_first_named_exists(cols, name, j);
    } else {
        assert(is_first_named(cols, name, i));
    }
}

/// The first column with a name is the one `column_index` picks.
proof fn lemma_first_named_unique(cols: Seq<ColumnView>, name: Seq<char>, i: int)
    requires
        is_first_named(cols, name, i),
    ensures
        column_index(cols, name) == Some(i),
{
    assert(has_named(cols, name));
    let c = choose|k: int| is_first_named(cols, name, k);
    assert(is_first_named(cols, name, c));
    if c < i {
        assert(cols[c].name != name);
    } else if c > i {
        assert(cols[i].name != name);
    }
}


/// Makes another pointer to a table.  `Rc::clone` adds an owner to the
/// allocation and returns a pointer to it, so the result leads to the same
/// table.
#[verifier::external_body]
pub(crate) fn share(table: &Rc<Table>) -> (r: Rc<Table>)
    ensures
        r == *table,
{
    Rc::clone(table)
}

/// One row from a database table.
pub struct Row {
    table: Rc<Table>,
    values: Vec<Value>,
}

/// The mathematical model of a [`Row`].
pub struct RowView {
    /// The table the row belongs to.
    pub table: TableView,
    /// The row's values, one for each column of the table.
    pub values: Seq<ValueView>,
}

/// The models of a sequence of values.
pub open spec fn values_view(v: Seq<Value>) -> Seq<ValueView> {
    v.map_values(|x: Value| x@)
}

impl View for Row {
    type V = RowView;

    closed spec fn view(&self) -> RowView {
        RowView { table: (*self.table)@, values: values_view(self.values@) }
    }
}

impl Row {
    /// A row has one value for each column of its table.
    #[verifier::type_invariant]
    spec fn wf(&self) -> bool {
        self.values@.len() == (*self.table)@.columns.len()
    }

    /// Creates a row of the table with the given values, one for each
    /// column.
    pub fn new(table: Rc<Table>, values: Vec<Value>) -> (r: Row)
        requires
            values@.len() == (*table)@.columns.len(),
        ensures
            r@ == (RowView { table: (*table)@, values: values_view(values@) }),
    {
        Row { table, values }
    }

    /// Returns the number of values in the row.
    pub fn len(&self) -> (r: usize)
        ensures
            r == self@.values.len(),
            r == self@.table.columns.len(),
    {
        proof {
            use_type_invariant(self);
        }
        self.values.len()
    }

    /// Returns values in the row is empty
    pub fn is_empty(&self) -> (r: bool)
        ensures
            r == (self@.values.len() == 0),
    {
        self.len() == 0
    }

    /// Returns the list of columns in this row.
    pub fn columns(&self) -> (r: &[Column])
        ensures
            columns_view(r@) == self@.table.columns,
    {
        self.table.columns()
    }

    /// Returns true if this row has a column with the given name.
    pub fn has_column(&self, column_name: &str) -> (r: bool)
        ensures
            r == has_named(self@.table.columns, column_name@),
    {
        self.table.has_column(column_name)
    }

    /// Gets the value of the column with the given index.
    pub fn get(&self, index: usize) -> (r: &Value)
        requires
            index < self@.values.len(),
        ensures
            r@ == self@.values[index as int],
    {
        &self.values[index]
    }

    /// Gets the value of the column with the given name.
    pub fn get_named(&self, column_name: &str) -> (r: &Value)
        requires
            has_named(self@.table.columns, column_name@),
        ensures
            column_index(self@.table.columns, column_name@) matches Some(i) && r@ == self@.values[i],
    {
        proof {
            use_type_invariant(self);
        }
        match self.table.index_for_column_name(column_name) {
            Some(index) => &self.values[index],
            None => {
                assert(false);
                &self.values[0]
            },
        }
    }
}

/// The rows of a database table, with the string pool that their string
/// values refer to.
pub struct Rows<'a> {
    string_pool: &'a StringPool,
    table: Rc<Table>,
    rows: Vec<Vec<ValueRef>>,
    next_row_index: usize,
}

impl<'a> Rows<'a> {
    /// Every row has one value for each column, and the next row to hand
    /// out is at most one past the last.
    #[verifier::type_invariant]
    spec fn wf(&self) -> bool {
        &&& self.next_row_index <= self.rows@.len()
        &&& forall|i: int|
            0 <= i < self.rows@.len() ==> #[trigger] self.rows@[i]@.len() == (*self.table)@.columns.len()
    }

    /// The table the rows belong to.
    pub closed spec fn spec_table(&self) -> TableView {
        (*self.table)@
    }

    /// The rows, as value references.
    pub closed spec fn spec_rows(&self) -> Seq<Seq<ValueRef>> {
        rows_view(self.rows@)
    }

    /// The index of the next row to hand out.
    pub closed spec fn spec_next(&self) -> int {
        self.next_row_index as int
    }

    /// The entries of the string pool the rows refer to.
    pub closed spec fn spec_pool(&self) -> Seq<(Seq<char>, u16)> {
        self.string_pool.entries()
    }

    /// Creates the rows of a table, each with one value for each column.
    pub fn new(string_pool: &'a StringPool, table: Rc<Table>, rows: Vec<Vec<ValueRef>>) -> (r: Rows<'a>)
        requires
            forall|i: int| 0 <= i < rows@.len() ==> #[trigger] rows@[i]@.len() == (*table)@.columns.len(),
        ensures
            r.spec_table() == (*table)@,
            r.spec_rows() == rows_view(rows@),
            r.spec_next() == 0,
            r.spec_pool() == string_pool.entries(),
    {
        Rows { table, string_pool, rows, next_row_index: 0 }
    }

    /// Returns the list of columns for these rows.
    pub fn columns(&self) -> (r: &[Column])
        ensures
            columns_view(r@) == self.spec_table().columns,
    {
        self.table.columns()
    }

    /// Returns the number of rows not handed out yet.
    pub fn remaining(&self) -> (r: usize)
        ensures
            r == self.spec_rows().len() - self.spec_next(),
    {
        proof {
            use_type_invariant(self);
        }
        self.rows.len() - self.next_row_index
    }

    /// Gives back the table and all the rows.
    pub fn into_table_and_values(self) -> (r: (Rc<Table>, Vec<Vec<ValueRef>>))
        ensures
            (*r.0)@ == self.spec_table(),
            rows_view(r.1@) == self.spec_rows(),
            forall|i: int| 0 <= i < r.1@.len() ==> #[trigger] r.1@[i]@.len() == (*r.0)@.columns.len(),
    {
        proof {
            use_type_invariant(&self);
        }
        (self.table, self.rows)
    }

    /// Hands out the next row, with its values looked up in the string
    /// pool, or `None` once every row has been handed out.
    pub fn next_row(&mut self) -> (r: Option<Row>)
        ensures
            final(self).spec_table() == old(self).spec_table(),
            final(self).spec_rows() == old(self).spec_rows(),
            final(self).spec_pool() == old(self).spec_pool(),
            old(self).spec_next() < old(self).spec_rows().len() ==> {
                &&& final(self).spec_next() == old(self).spec_next() + 1
                &&& r matches Some(row) && row@.table == old(self).spec_table() && row@.values
                    == old(self).spec_rows()[old(self).spec_next()].map_values(
                    |v: ValueRef| spec_to_value(v, old(self).spec_pool()),
                )
            },
            old(self).spec_next() >= old(self).spec_rows().len() ==> r is None && final(self).spec_next()
                == old(self).spec_next(),
    {
        proof {
            use_type_invariant(&*self);
        }
        if self.next_row_index < self.rows.len() {
            let refs = &self.rows[self.next_row_index];
            let mut values: Vec<Value> = Vec::new();
            let mut k: usize = 0;
            while k < refs.len()
                invariant
                    k <= refs@.len(),
                    values@.len() == k,
                    forall|a: int|
                        0 <= a < k ==> #[trigger] values@[a]@ == spec_to_value(refs@[a], self.string_pool.entries()),
                decreases refs@.len() - k,
            {
                values.push(refs[k].to_value(self.string_pool));
                k = k + 1;
            }
            let ghost idx = self.next_row_index as int;
            assert(self.rows@[idx]@.len() == (*self.table)@.columns.len());
            let row = Row::new(share(&self.table), values);
            self.next_row_index = self.next_row_index + 1;
            assert(values_view(values@) =~= rows_view(self.rows@)[idx].map_values(
                |v: ValueRef| spec_to_value(v, self.string_pool.entries()),
            ));
            Some(row)
        } else {
            None
        }
    }
}

} // verus!
