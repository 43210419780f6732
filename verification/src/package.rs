//! The database of an MSI package: its type, its summary information, its
//! string pool and its tables, with the rules by which a package is loaded,
//! changed and written back.  The compound file that holds the streams is
//! outside this module: the caller reads the streams and hands over their
//! bytes, and writes back the bytes that the database gives.

use crate::category::{spec_validate, str_equal, Category};
use crate::codepage::{codepage_id, CodePage};
use crate::column::{
    built_column, spec_column_bits, spec_from_bitfield, BuilderView, Column, ColumnType, ColumnView,
    COL_LOCALIZABLE_BIT, COL_NULLABLE_BIT, COL_PRIMARY_KEY_BIT,
};
use crate::error::{Error, ErrorKind};
use crate::propset::{
    can_write_set, set_named, set_reads_back, spec_read_set, spec_set_bytes, OperatingSystem,
    PropertySetView, PropertyValueView, PROPERTY_CODEPAGE,
};
use crate::query::{
    delete_result, find_table, insert_result, select_result, streams_view, table_index, tables_view,
    update_result, Delete, Insert, InsertView, Select, Update,
};
use crate::stringpool::{
    records_read_back, spec_pool_strings, spec_read_pool, string_data_bytes, string_pool_bytes,
    written_records, StringPool, StringPoolBuilder, MAX_STRING_REF,
};
use crate::summary::{spec_fmtid, SummaryInfo, PROPERTY_TITLE};
use crate::table::{columns_view, decoded_rows, rows_view, Rows, Table, TableView};
use crate::value::{debug_quoted, debug_text, spec_to_value, Value, ValueRef, ValueView};
use std::rc::Rc;
use vstd::prelude::*;

verus! {

/// The type of MSI package (e.g. installer or patch).
#[derive(Clone, Copy, Debug, Eq, PartialEq, Structural)]
pub enum PackageType {
    /// An installer package, which installs a new application.
    Installer,
    /// A patch package, which provides an update to an application.
    Patch,
    /// A transform, which is a collection of changes applied to an
    /// installation.
    Transform,
}

/// The class identifier that marks a package of each type, as the 16
/// bytes of the UUID in the order in which it is written out
/// (000C1084-0000-0000-C000-000000000046 for an installer, 000C1086-... for
/// a patch, 000C1082-... for a transform).
pub open spec fn spec_clsid(t: PackageType) -> Seq<u8> {
    let kind: u8 = match t {
        PackageType::Installer => 0x84u8,
        PackageType::Patch => 0x86u8,
        PackageType::Transform => 0x82u8,
    };
    seq![
        0x00u8, 0x0cu8, 0x10u8, kind, 0x00u8, 0x00u8, 0x00u8, 0x00u8, 0xc0u8, 0x00u8, 0x00u8, 0x00u8,
        0x00u8, 0x00u8, 0x00u8, 0x46u8
    ]
}

/// The package type that a class identifier marks, if any.
pub open spec fn spec_from_clsid(clsid: Seq<u8>) -> Option<PackageType> {
    if clsid == spec_clsid(PackageType::Installer) {
        Some(PackageType::Installer)
    } else if clsid == spec_clsid(PackageType::Patch) {
        Some(PackageType::Patch)
    } else if clsid == spec_clsid(PackageType::Transform) {
        Some(PackageType::Transform)
    } else {
        None
    }
}

/// The title that a new package of each type gets.
pub open spec fn spec_default_title(t: PackageType) -> Seq<char> {
    match t {
        PackageType::Installer => "Installation Database"@,
        PackageType::Patch => "Patch"@,
        PackageType::Transform => "Transform"@,
    }
}

/// Whether two class identifiers are the same.
fn same_clsid(a: &[u8; 16], b: &[u8; 16]) -> (r: bool)
    ensures
        r == (a@ == b@),
{
    let mut i: usize = 0;
    while i < 16
        invariant
            i <= 16,
            a@.len() == 16,
            b@.len() == 16,
            forall|k: int| 0 <= k < i ==> a@[k] == b@[k],
        decreases 16 - i,
    {
        if a[i] != b[i] {
            return false;
        }
        i = i + 1;
    }
    assert(a@ =~= b@);
    true
}

impl PackageType {
    /// Returns the package type that a class identifier marks, if any.
    pub fn from_clsid(clsid: &[u8; 16]) -> (r: Option<PackageType>)
        ensures
            r == spec_from_clsid(clsid@),
    {
        if same_clsid(clsid, &PackageType::Installer.clsid()) {
            Some(PackageType::Installer)
        } else if same_clsid(clsid, &PackageType::Patch.clsid()) {
            Some(PackageType::Patch)
        } else if same_clsid(clsid, &PackageType::Transform.clsid()) {
            Some(PackageType::Transform)
        } else {
            None
        }
    }

    /// Returns the class identifier that marks a package of this type.
    pub fn clsid(&self) -> (r: [u8; 16])
        ensures
            r@ == spec_clsid(*self),
    {
        let kind: u8 = match self {
            PackageType::Installer => 0x84,
            PackageType::Patch => 0x86,
            PackageType::Transform => 0x82,
        };
        let r: [u8; 16] = [
            0x00, 0x0c, 0x10, kind, 0x00, 0x00, 0x00, 0x00, 0xc0, 0x00, 0x00, 0x00, 0x00, 0x00, 0x00, 0x46,
        ];
        assert(r@ =~= spec_clsid(*self));
        r
    }

    /// Returns the title that a new package of this type gets.
    pub fn default_title(&self) -> (r: &'static str)
        ensures
            r@ == spec_default_title(*self),
    {
        match self {
            PackageType::Installer => "Installation Database",
            PackageType::Patch => "Patch",
            PackageType::Transform => "Transform",
        }
    }
}

/// A column builder with nothing set but the name.
pub open spec fn plain_builder(name: Seq<char>) -> BuilderView {
    BuilderView {
        name,
        is_localizable: false,
        is_nullable: false,
        is_primary_key: false,
        value_range: None,
        foreign_key: None,
        category: None,
        enum_values: Seq::empty(),
    }
}

/// A primary key column with nothing else set.
pub open spec fn key_column(name: Seq<char>, t: ColumnType) -> ColumnView {
    built_column(BuilderView { is_primary_key: true, ..plain_builder(name) }, t)
}

/// The name of the table that lists the tables of a database.
pub open spec fn tables_table_name() -> Seq<char> {
    "_Tables"@
}

/// The name of the table that lists the columns of every table.
pub open spec fn columns_table_name() -> Seq<char> {
    "_Columns"@
}

/// The `_Tables` table: the name of each table.
pub open spec fn spec_tables_table(long_string_refs: bool) -> TableView {
    TableView {
        name: tables_table_name(),
        columns: seq![key_column("Name"@, ColumnType::Str(64))],
        long_string_refs,
    }
}

/// The `_Columns` table: for each column of each table, the table's name,
/// the column's number (from 1), its name and its type bits.
pub open spec fn spec_columns_table(long_string_refs: bool) -> TableView {
    TableView {
        name: columns_table_name(),
        columns: seq![
            key_column("Table"@, ColumnType::Str(64)),
            key_column("Number"@, ColumnType::Int16),
            built_column(plain_builder("Name"@), ColumnType::Str(64)),
            built_column(plain_builder("Type"@), ColumnType::Int16)
        ],
        long_string_refs,
    }
}

/// Returns the `_Tables` table.
pub fn tables_table(long_string_refs: bool) -> (r: Rc<Table>)
    ensures
        (*r)@ == spec_tables_table(long_string_refs),
{
    let columns = vec![Column::build("Name").primary_key().string(64)];
    assert(columns_view(columns@) =~= spec_tables_table(long_string_refs).columns);
    Table::new("_Tables".to_owned(), columns, long_string_refs)
}

/// Returns the `_Columns` table.
pub fn columns_table(long_string_refs: bool) -> (r: Rc<Table>)
    ensures
        (*r)@ == spec_columns_table(long_string_refs),
{
    let columns = vec![
        Column::build("Table").primary_key().string(64),
        Column::build("Number").primary_key().int16(),
        Column::build("Name").string(64),
        Column::build("Type").int16(),
    ];
    assert(columns_view(columns@) =~= spec_columns_table(long_string_refs).columns);
    Table::new("_Columns".to_owned(), columns, long_string_refs)
}

/// The text that a value reference stands for, if it is a string.
pub open spec fn ref_text(r: ValueRef, entries: Seq<(Seq<char>, u16)>) -> Option<Seq<char>> {
    match spec_to_value(r, entries) {
        ValueView::Str(s) => Some(s),
        _ => None,
    }
}

/// The integer that a value reference holds, if any.
pub open spec fn ref_int(r: ValueRef) -> Option<i32> {
    match r {
        ValueRef::Int(n) => Some(n),
        _ => None,
    }
}

/// The table names listed in the first `n` rows of `_Tables`, each once, in
/// the order in which they first appear; `None` when one of those rows
/// holds no name.
pub open spec fn listed_names(rows: Seq<Seq<ValueRef>>, entries: Seq<(Seq<char>, u16)>, n: int) -> Option<
    Seq<Seq<char>>,
>
    decreases n,
{
    if n <= 0 {
        Some(Seq::empty())
    } else {
        match listed_names(rows, entries, n - 1) {
            None => None,
            Some(names) => match ref_text(rows[n - 1][0], entries) {
                None => None,
                Some(s) => if names.contains(s) {
                    Some(names)
                } else {
                    Some(names.push(s))
                },
            },
        }
    }
}

/// The column that a `_Columns` row describes, with its table's name and
/// its number; `None` when a value is missing or the type bits name no
/// type.
pub open spec fn column_entry(row: Seq<ValueRef>, entries: Seq<(Seq<char>, u16)>) -> Option<
    (Seq<char>, i32, ColumnView),
> {
    match (ref_text(row[0], entries), ref_int(row[1]), ref_text(row[2], entries), ref_int(row[3])) {
        (Some(table), Some(number), Some(name), Some(bits)) => match spec_from_bitfield(bits) {
            Some(t) => Some(
                (
                    table,
                    number,
                    ColumnView {
                        is_localizable: (bits & COL_LOCALIZABLE_BIT) != 0,
                        is_nullable: (bits & COL_NULLABLE_BIT) != 0 || plain_builder(name).is_nullable,
                        is_primary_key: (bits & COL_PRIMARY_KEY_BIT) != 0,
                        ..built_column(plain_builder(name), t)
                    },
                ),
            ),
            None => None,
        },
        _ => None,
    }
}

/// Whether a list of numbered columns has a column with this number.
pub open spec fn has_number(cols: Seq<(i32, ColumnView)>, number: int) -> bool {
    exists|j: int| 0 <= j < cols.len() && cols[j].0 == number
}

/// Whether no two columns of a list have the same number.
pub open spec fn distinct_numbers(cols: Seq<(i32, ColumnView)>) -> bool {
    forall|a: int, b: int| 0 <= a < b < cols.len() ==> cols[a].0 != cols[b].0
}

/// The numbered columns of each listed table that the first `n` rows of
/// `_Columns` give, in the order read; `None` when one of those rows is
/// unusable, names a table that is not listed, or repeats a number.
pub open spec fn gathered_columns(
    rows: Seq<Seq<ValueRef>>,
    entries: Seq<(Seq<char>, u16)>,
    names: Seq<Seq<char>>,
    n: int,
) -> Option<Seq<Seq<(i32, ColumnView)>>>
    decreases n,
{
    if n <= 0 {
        Some(Seq::new(names.len(), |i: int| Seq::<(i32, ColumnView)>::empty()))
    } else {
        match gathered_columns(rows, entries, names, n - 1) {
            None => None,
            Some(g) => match column_entry(rows[n - 1], entries) {
                None => None,
                Some((table, number, column)) => if !names.contains(table) {
                    None
                } else {
                    let i = names.index_of(table);
                    if has_number(g[i], number as int) {
                        None
                    } else {
                        Some(g.update(i, g[i].push((number, column))))
                    }
                },
            },
        }
    }
}

/// Whether a table's numbered columns are numbered 1 to their count.
pub open spec fn is_complete(cols: Seq<(i32, ColumnView)>) -> bool {
    &&& cols.len() > 0
    &&& forall|p: int| 1 <= p <= cols.len() ==> #[trigger] has_number(cols, p)
}

/// The column with the given number.
pub open spec fn numbered_column(cols: Seq<(i32, ColumnView)>, number: int) -> ColumnView {
    cols[choose|j: int| 0 <= j < cols.len() && cols[j].0 == number].1
}

/// A table's columns in the order of their numbers.
pub open spec fn ordered_columns(cols: Seq<(i32, ColumnView)>) -> Seq<ColumnView> {
    Seq::new(cols.len(), |p: int| numbered_column(cols, p + 1))
}

/// The system tables that the listed tables do not replace.
pub open spec fn system_tables(names: Seq<Seq<char>>, long_string_refs: bool) -> Seq<TableView> {
    (if names.contains(tables_table_name()) {
        Seq::empty()
    } else {
        seq![spec_tables_table(long_string_refs)]
    }) + (if names.contains(columns_table_name()) {
        Seq::empty()
    } else {
        seq![spec_columns_table(long_string_refs)]
    })
}

/// The rows of a system table's stream, or none when there is no stream.
pub open spec fn stream_rows(t: TableView, data: Option<Seq<u8>>) -> Seq<Seq<ValueRef>> {
    match data {
        Some(d) => decoded_rows(t, d),
        None => Seq::empty(),
    }
}

/// The tables of a database whose `_Tables` and `_Columns` streams hold
/// these rows: the system tables, then each listed table with its columns
/// in the order of their numbers; `None` when a row is unusable or a
/// listed table lacks some of its columns.
pub open spec fn spec_load_tables(
    tables_rows: Seq<Seq<ValueRef>>,
    columns_rows: Seq<Seq<ValueRef>>,
    entries: Seq<(Seq<char>, u16)>,
    long_string_refs: bool,
) -> Option<Seq<TableView>> {
    match listed_names(tables_rows, entries, tables_rows.len() as int) {
        None => None,
        Some(names) => match gathered_columns(columns_rows, entries, names, columns_rows.len() as int) {
            None => None,
            Some(g) => if forall|i: int| 0 <= i < names.len() ==> #[trigger] is_complete(g[i]) {
                Some(
                    system_tables(names, long_string_refs) + Seq::new(
                        names.len(),
                        |i: int|
                            TableView {
                                name: names[i],
                                columns: ordered_columns(g[i]),
                                long_string_refs,
                            },
                    ),
                )
            } else {
                None
            },
        },
    }
}

/// Once a row of `_Tables` holds no name, the listing fails for every
/// longer prefix too; and a listing names each table once.
proof fn lemma_listed_names(rows: Seq<Seq<ValueRef>>, entries: Seq<(Seq<char>, u16)>, k: int, n: int)
    requires
        0 <= k <= n,
    ensures
        listed_names(rows, entries, k) is None ==> listed_names(rows, entries, n) is None,
        listed_names(rows, entries, n) matches Some(names) ==> names.no_duplicates(),
    decreases n,
{
    if n > 0 {
        if k < n {
            lemma_listed_names(rows, entries, k, n - 1);
        } else {
            lemma_listed_names(rows, entries, n - 1, n - 1);
        }
        if let Some(names) = listed_names(rows, entries, n - 1) {
            if let Some(s) = ref_text(rows[n - 1][0], entries) {
                if !names.contains(s) {
                    let ext = names.push(s);
                    assert forall|i: int, j: int|
                        0 <= i < ext.len() && 0 <= j < ext.len() && i != j implies ext[i] != ext[j] by {
                        if i == names.len() as int {
                            assert(names[j] == ext[j]);
                        } else if j == names.len() as int {
                            assert(names[i] == ext[i]);
                        }
                    }
                }
            }
        }
    }
}

/// Once a row of `_Columns` fails, gathering fails for every longer prefix
/// too; and what is gathered has one list for each name, with no number
/// twice in a list.
proof fn lemma_gathered_columns(
    rows: Seq<Seq<ValueRef>>,
    entries: Seq<(Seq<char>, u16)>,
    names: Seq<Seq<char>>,
    k: int,
    n: int,
)
    requires
        0 <= k <= n,
    ensures
        gathered_columns(rows, entries, names, k) is None ==> gathered_columns(rows, entries, names, n) is None,
        gathered_columns(rows, entries, names, n) matches Some(g) ==> g.len() == names.len() && forall|i: int|
            0 <= i < g.len() ==> #[trigger] distinct_numbers(g[i]),
    decreases n,
{
    if n > 0 {
        if k < n {
            lemma_gathered_columns(rows, entries, names, k, n - 1);
        } else {
            lemma_gathered_columns(rows, entries, names, n - 1, n - 1);
        }
        if let Some(g) = gathered_columns(rows, entries, names, n - 1) {
            if let Some((table, number, column)) = column_entry(rows[n - 1], entries) {
                if names.contains(table) {
                    let i = names.index_of(table);
                    if !has_number(g[i], number as int) {
                        let g2 = g.update(i, g[i].push((number, column)));
                        assert forall|m: int| 0 <= m < g2.len() implies #[trigger] distinct_numbers(g2[m]) by {
                            if m == i {
                                assert(distinct_numbers(g[i]));
                                assert forall|a: int, b: int| 0 <= a < b < g2[m].len() implies g2[m][a].0
                                    != g2[m][b].0 by {
                                    if b == g[i].len() as int {
                                        assert(g2[m][a] == g[i][a]);
                                    } else {
                                        assert(g2[m][a] == g[i][a]);
                                        assert(g2[m][b] == g[i][b]);
                                    }
                                }
                            } else {
                                assert(g2[m] == g[m]);
                            }
                        }
                    }
                }
            }
        }
    }
}

/// The text that a value reference stands for, if it is a string.
fn ref_string(r: ValueRef, string_pool: &StringPool) -> (s: Option<String>)
    ensures
        match ref_text(r, string_pool.entries()) {
            Some(t) => s matches Some(x) && x@ == t,
            None => s is None,
        },
{
    match r.to_value(string_pool) {
        Value::Str(s) => Some(s),
        _ => None,
    }
}

/// The position of a name in a list of names, if it is there.
fn find_name(names: &Vec<String>, name: &str) -> (r: Option<usize>)
    ensures
        match r {
            Some(i) => i < names@.len() && names@[i as int]@ == name@,
            None => !names@.map_values(|s: String| s@).contains(name@),
        },
{
    let ghost view = names@.map_values(|s: String| s@);
    let mut i: usize = 0;
    while i < names.len()
        invariant
            i <= names@.len(),
            view == names@.map_values(|s: String| s@),
            forall|k: int| 0 <= k < i ==> view[k] != name@,
        decreases names@.len() - i,
    {
        if str_equal(names[i].as_str(), name) {
            return Some(i);
        }
        i = i + 1;
    }
    None
}

/// The error for a `_Tables` or `_Columns` row that lacks a value.
fn incomplete_row(table_name: &str) -> (r: Error)
    ensures
        r.kind == ErrorKind::InvalidData,
{
    Error::new(ErrorKind::InvalidData, crate::text::concat2("Incomplete row in ", table_name))
}

/// Reads the table names of the rows of `_Tables`, each once.  Fails with
/// `InvalidData` when a row holds no name.
fn read_listed_names(string_pool: &StringPool, rows: &Vec<Vec<ValueRef>>) -> (r: Result<Vec<String>, Error>)
    requires
        forall|i: int| 0 <= i < rows@.len() ==> #[trigger] rows@[i]@.len() == 1,
    ensures
        match listed_names(rows_view(rows@), string_pool.entries(), rows@.len() as int) {
            Some(names) => r matches Ok(v) && v@.map_values(|s: String| s@) == names,
            None => r matches Err(e) && e.kind == ErrorKind::InvalidData,
        },
{
    let ghost rv = rows_view(rows@);
    let ghost entries = string_pool.entries();
    let mut names: Vec<String> = Vec::new();
    let mut i: usize = 0;
    while i < rows.len()
        invariant
            i <= rows@.len(),
            rv == rows_view(rows@),
            entries == string_pool.entries(),
            forall|k: int| 0 <= k < rows@.len() ==> #[trigger] rows@[k]@.len() == 1,
            listed_names(rv, entries, i as int) == Some(names@.map_values(|s: String| s@)),
        decreases rows@.len() - i,
    {
        let ghost before = names@.map_values(|s: String| s@);
        assert(rv[i as int] == rows@[i as int]@);
        let name = match ref_string(rows[i][0], string_pool) {
            Some(name) => name,
            None => {
                proof {
                    lemma_listed_names(rv, entries, i + 1, rows@.len() as int);
                }
                return Err(incomplete_row("_Tables"));
            },
        };
        let ghost t = name@;
        assert(ref_text(rv[i as int][0], entries) == Some(t));
        match find_name(&names, name.as_str()) {
            Some(j) => {
                assert(before[j as int] == t);
            },
            None => {
                names.push(name);
                assert(names@.map_values(|s: String| s@) =~= before.push(t));
            },
        }
        i = i + 1;
    }
    Ok(names)
}

/// The models of a table's numbered columns.
pub open spec fn numbered_view(v: Seq<(i32, Column)>) -> Seq<(i32, ColumnView)> {
    v.map_values(|p: (i32, Column)| (p.0, p.1@))
}

/// The models of the numbered columns of each table.
pub open spec fn gathered_view(g: Seq<Vec<(i32, Column)>>) -> Seq<Seq<(i32, ColumnView)>> {
    g.map_values(|v: Vec<(i32, Column)>| numbered_view(v@))
}

/// Whether a list of numbered columns has a column with this number.
fn has_column_number(cols: &Vec<(i32, Column)>, number: i32) -> (r: bool)
    ensures
        r == has_number(numbered_view(cols@), number as int),
{
    let ghost view = numbered_view(cols@);
    let mut j: usize = 0;
    while j < cols.len()
        invariant
            j <= cols@.len(),
            view == numbered_view(cols@),
            forall|k: int| 0 <= k < j ==> view[k].0 != number,
        decreases cols@.len() - j,
    {
        if cols[j].0 == number {
            assert(view[j as int].0 == number);
            return true;
        }
        j = j + 1;
    }
    false
}

/// Gathers the numbered columns of each listed table from the rows of
/// `_Columns`.  Fails with `InvalidData` when a row lacks a value, names a
/// table that is not listed, repeats a column number, or has type bits
/// that name no type.
fn gather_columns(string_pool: &StringPool, rows: &Vec<Vec<ValueRef>>, names: &Vec<String>) -> (r: Result<
    Vec<Vec<(i32, Column)>>,
    Error,
>)
    requires
        forall|i: int| 0 <= i < rows@.len() ==> #[trigger] rows@[i]@.len() == 4,
        names@.map_values(|s: String| s@).no_duplicates(),
    ensures
        match gathered_columns(
            rows_view(rows@),
            string_pool.entries(),
            names@.map_values(|s: String| s@),
            rows@.len() as int,
        ) {
            Some(g) => r matches Ok(v) && gathered_view(v@) == g,
            None => r matches Err(e) && e.kind == ErrorKind::InvalidData,
        },
{
    let ghost rv = rows_view(rows@);
    let ghost entries = string_pool.entries();
    let ghost nv = names@.map_values(|s: String| s@);
    let ghost n = rows@.len() as int;
    let mut g: Vec<Vec<(i32, Column)>> = Vec::new();
    let mut k: usize = 0;
    while k < names.len()
        invariant
            k <= names@.len(),
            g@.len() == k,
            forall|m: int| 0 <= m < k ==> (#[trigger] g@[m])@.len() == 0,
        decreases names@.len() - k,
    {
        g.push(Vec::new());
        k = k + 1;
    }
    assert forall|m: int| 0 <= m < g@.len() implies #[trigger] gathered_view(g@)[m] =~= Seq::<
        (i32, ColumnView),
    >::empty() by {
        assert(numbered_view(g@[m]@).len() == 0);
    }
    assert(gathered_view(g@) =~= Seq::new(nv.len(), |i: int| Seq::<(i32, ColumnView)>::empty()));
    let mut i: usize = 0;
    while i < rows.len()
        invariant
            i <= rows@.len(),
            n == rows@.len(),
            rv == rows_view(rows@),
            entries == string_pool.entries(),
            nv == names@.map_values(|s: String| s@),
            nv.no_duplicates(),
            forall|m: int| 0 <= m < rows@.len() ==> #[trigger] rows@[m]@.len() == 4,
            gathered_columns(rv, entries, nv, i as int) == Some(gathered_view(g@)),
        decreases rows@.len() - i,
    {
        proof {
            lemma_gathered_columns(rv, entries, nv, i as int, i as int);
        }
        let ghost before = gathered_view(g@);
        let ghost row = rv[i as int];
        assert(row == rows@[i as int]@);
        let table = match ref_string(rows[i][0], string_pool) {
            Some(t) => t,
            None => {
                proof {
                    lemma_gathered_columns(rv, entries, nv, i + 1, n);
                }
                return Err(incomplete_row("_Columns"));
            },
        };
        let index = match find_name(names, table.as_str()) {
            Some(j) => j,
            None => {
                proof {
                    lemma_gathered_columns(rv, entries, nv, i + 1, n);
                }
                let quoted = debug_text(table.as_str());
                return Err(
                    Error::new(
                        ErrorKind::InvalidData,
                        crate::text::concat3("_Columns mentions table ", quoted.as_str(), ", which isn't in _Tables"),
                    ),
                );
            },
        };
        proof {
            assert(nv[index as int] == table@);
            assert(nv.contains(table@));
            let c = nv.index_of(table@);
            assert(c == index as int);
        }
        let number = match rows[i][1] {
            ValueRef::Int(number) => number,
            _ => {
                proof {
                    lemma_gathered_columns(rv, entries, nv, i + 1, n);
                }
                return Err(incomplete_row("_Columns"));
            },
        };
        assert(gathered_view(g@)[index as int] == numbered_view(g@[index as int]@));
        if has_column_number(&g[index], number) {
            proof {
                lemma_gathered_columns(rv, entries, nv, i + 1, n);
            }
            let quoted = debug_text(table.as_str());
            let message = crate::text::concat3("Repeat in _Columns: ", quoted.as_str(), " column ");
            let number_text = crate::text::int_to_string(number as i64);
            return Err(Error::new(ErrorKind::InvalidData, crate::text::concat2(message.as_str(), number_text.as_str())));
        }
        let name = match ref_string(rows[i][2], string_pool) {
            Some(name) => name,
            None => {
                proof {
                    lemma_gathered_columns(rv, entries, nv, i + 1, n);
                }
                return Err(incomplete_row("_Columns"));
            },
        };
        let bits = match rows[i][3] {
            ValueRef::Int(bits) => bits,
            _ => {
                proof {
                    lemma_gathered_columns(rv, entries, nv, i + 1, n);
                }
                return Err(incomplete_row("_Columns"));
            },
        };
        let column = match Column::build(name.as_str()).with_bitfield(bits) {
            Ok(column) => column,
            Err(e) => {
                proof {
                    lemma_gathered_columns(rv, entries, nv, i + 1, n);
                }
                return Err(e);
            },
        };
        let ghost entry = (number, column@);
        assert(column_entry(row, entries) == Some((table@, number, column@)));
        let mut list = g.remove(index);
        let ghost old_list = numbered_view(list@);
        list.push((number, column));
        assert(numbered_view(list@) =~= old_list.push(entry));
        g.insert(index, list);
        assert(gathered_view(g@) =~= before.update(index as int, before[index as int].push(entry)));
        i = i + 1;
    }
    Ok(g)
}

/// The position of the column with the given number, if there is one.
fn find_number(cols: &Vec<(i32, Column)>, number: i128) -> (r: Option<usize>)
    ensures
        match r {
            Some(j) => j < cols@.len() && numbered_view(cols@)[j as int].0 == number,
            None => !has_number(numbered_view(cols@), number as int),
        },
{
    let ghost view = numbered_view(cols@);
    let mut j: usize = 0;
    while j < cols.len()
        invariant
            j <= cols@.len(),
            view == numbered_view(cols@),
            forall|k: int| 0 <= k < j ==> view[k].0 != number,
        decreases cols@.len() - j,
    {
        if cols[j].0 as i128 == number {
            return Some(j);
        }
        j = j + 1;
    }
    None
}

/// Builds a table from its numbered columns, in the order of their
/// numbers.  Fails with `InvalidData` when there are no columns or their
/// numbers are not 1 to their count.
fn build_table(name: &String, cols: &Vec<(i32, Column)>, long_string_refs: bool) -> (r: Result<Rc<Table>, Error>)
    requires
        distinct_numbers(numbered_view(cols@)),
    ensures
        is_complete(numbered_view(cols@)) ==> (r matches Ok(t) && (*t)@ == (TableView {
            name: name@,
            columns: ordered_columns(numbered_view(cols@)),
            long_string_refs,
        })),
        !is_complete(numbered_view(cols@)) ==> (r matches Err(e) && e.kind == ErrorKind::InvalidData),
{
    let ghost view = numbered_view(cols@);
    if cols.len() == 0 {
        let quoted = debug_text(name.as_str());
        return Err(Error::new(ErrorKind::InvalidData, crate::text::concat2("No columns found for table ", quoted.as_str())));
    }
    let n = cols.len();
    let mut ordered: Vec<Column> = Vec::new();
    let mut p: usize = 0;
    while p < n
        invariant
            p <= n,
            n == cols@.len(),
            view == numbered_view(cols@),
            distinct_numbers(view),
            columns_view(ordered@) == Seq::new(p as nat, |q: int| numbered_column(view, q + 1)),
            forall|q: int| 1 <= q <= p ==> #[trigger] has_number(view, q),
        decreases n - p,
    {
        let j = match find_number(cols, p as i128 + 1) {
            Some(j) => j,
            None => {
                let quoted = debug_text(name.as_str());
                return Err(
                    Error::new(
                        ErrorKind::InvalidData,
                        crate::text::concat3("Table ", quoted.as_str(), " does not have a complete set of columns"),
                    ),
                );
            },
        };
        proof {
            assert(has_number(view, p + 1));
            let c = choose|c: int| 0 <= c < view.len() && view[c].0 == p + 1;
            if c != j as int {
                if c < j as int {
                    assert(view[c].0 != view[j as int].0);
                } else {
                    assert(view[j as int].0 != view[c].0);
                }
            }
            assert(numbered_column(view, p + 1) == view[j as int].1);
        }
        let ghost before = columns_view(ordered@);
        let column = cols[j].1.duplicate();
        assert(view[j as int].1 == cols@[j as int].1@);
        assert(before.len() == p);
        ordered.push(column);
        assert(ordered@[p as int]@ == view[j as int].1);
        assert(columns_view(ordered@) =~= before.push(view[j as int].1));
        assert(columns_view(ordered@) =~= Seq::new((p + 1) as nat, |q: int| numbered_column(view, q + 1)));
        p = p + 1;
    }
    assert(Seq::new(n as nat, |q: int| numbered_column(view, q + 1)) =~= ordered_columns(view));
    Ok(Table::new(name.clone(), ordered, long_string_refs))
}

/// The bytes of a stream that may not exist.
pub open spec fn stream_view(data: Option<&[u8]>) -> Option<Seq<u8>> {
    match data {
        Some(d) => Some(d@),
        None => None,
    }
}

/// The rows of a system table's stream.
fn read_stream_rows(table: &Table, data: Option<&[u8]>) -> (r: Vec<Vec<ValueRef>>)
    ensures
        rows_view(r@) == stream_rows(table@, stream_view(data)),
        forall|i: int| 0 <= i < r@.len() ==> #[trigger] r@[i]@.len() == table@.columns.len(),
{
    match data {
        Some(d) => table.read_rows(d),
        None => {
            let r: Vec<Vec<ValueRef>> = Vec::new();
            assert(rows_view(r@) =~= Seq::<Seq<ValueRef>>::empty());
            r
        },
    }
}

/// Builds the tables of a database from the contents of its `_Tables` and
/// `_Columns` streams (`None` for a stream that does not exist): the two
/// system tables, unless listed tables replace them, and each table that
/// `_Tables` lists, with the columns that `_Columns` gives it in the order
/// of their numbers.  Fails with `InvalidData` when a row lacks a value,
/// `_Columns` names a table that `_Tables` does not list or repeats a column
/// number, type bits name no type, or a listed table's column numbers are
/// not 1 to their count.
pub fn load_tables(string_pool: &StringPool, tables_data: Option<&[u8]>, columns_data: Option<&[u8]>) -> (r:
    Result<Vec<Rc<Table>>, Error>)
    ensures
        match spec_load_tables(
            stream_rows(spec_tables_table(string_pool.spec_long_string_refs()), stream_view(tables_data)),
            stream_rows(spec_columns_table(string_pool.spec_long_string_refs()), stream_view(columns_data)),
            string_pool.entries(),
            string_pool.spec_long_string_refs(),
        ) {
            Some(ts) => r matches Ok(v) && tables_view(v@) == ts,
            None => r matches Err(e) && e.kind == ErrorKind::InvalidData,
        },
{
    let lsr = string_pool.long_string_refs();
    let ghost entries = string_pool.entries();
    let tables = tables_table(lsr);
    let table_rows = read_stream_rows(&tables, tables_data);
    let ghost trv = rows_view(table_rows@);
    let names = match read_listed_names(string_pool, &table_rows) {
        Ok(names) => names,
        Err(e) => {
            return Err(e);
        },
    };
    let ghost nv = names@.map_values(|s: String| s@);
    proof {
        lemma_listed_names(trv, entries, trv.len() as int, trv.len() as int);
    }
    let columns = columns_table(lsr);
    let column_rows = read_stream_rows(&columns, columns_data);
    let ghost crv = rows_view(column_rows@);
    let gathered = match gather_columns(string_pool, &column_rows, &names) {
        Ok(g) => g,
        Err(e) => {
            return Err(e);
        },
    };
    let ghost gv = gathered_view(gathered@);
    proof {
        lemma_gathered_columns(crv, entries, nv, crv.len() as int, crv.len() as int);
    }
    let mut result: Vec<Rc<Table>> = Vec::new();
    let has_tables = match find_name(&names, "_Tables") {
        Some(j) => {
            assert(nv[j as int] == tables_table_name());
            true
        },
        None => false,
    };
    let has_columns = match find_name(&names, "_Columns") {
        Some(j) => {
            assert(nv[j as int] == columns_table_name());
            true
        },
        None => false,
    };
    assert(has_tables == nv.contains(tables_table_name()));
    assert(has_columns == nv.contains(columns_table_name()));
    let ghost tables_model = (*tables)@;
    let ghost columns_model = (*columns)@;
    if !has_tables {
        result.push(tables);
        assert(tables_view(result@) =~= seq![tables_model]);
    }
    assert(tables_view(result@) =~= (if nv.contains(tables_table_name()) {
        Seq::empty()
    } else {
        seq![spec_tables_table(lsr)]
    }));
    let ghost first = tables_view(result@);
    if !has_columns {
        result.push(columns);
        assert(tables_view(result@) =~= first.push(columns_model));
    }
    assert(tables_view(result@) =~= system_tables(nv, lsr));
    let ghost sys = tables_view(result@);
    let mut i: usize = 0;
    while i < names.len()
        invariant
            i <= names@.len(),
            lsr == string_pool.spec_long_string_refs(),
            entries == string_pool.entries(),
            trv == stream_rows(spec_tables_table(lsr), stream_view(tables_data)),
            crv == stream_rows(spec_columns_table(lsr), stream_view(columns_data)),
            listed_names(trv, entries, trv.len() as int) == Some(nv),
            gathered_columns(crv, entries, nv, crv.len() as int) == Some(gv),
            nv == names@.map_values(|s: String| s@),
            gv == gathered_view(gathered@),
            gv.len() == nv.len(),
            forall|k: int| 0 <= k < gv.len() ==> #[trigger] distinct_numbers(gv[k]),
            forall|k: int| 0 <= k < i ==> #[trigger] is_complete(gv[k]),
            sys == system_tables(nv, lsr),
            tables_view(result@) == sys + Seq::new(
                i as nat,
                |k: int| TableView { name: nv[k], columns: ordered_columns(gv[k]), long_string_refs: lsr },
            ),
        decreases names@.len() - i,
    {
        assert(gv[i as int] == numbered_view(gathered@[i as int]@));
        assert(distinct_numbers(gv[i as int]));
        let table = match build_table(&names[i], &gathered[i], lsr) {
            Ok(t) => t,
            Err(e) => {
                assert(!is_complete(gv[i as int]));
                return Err(e);
            },
        };
        let ghost before = tables_view(result@);
        let ghost model = (*table)@;
        assert(model == TableView { name: nv[i as int], columns: ordered_columns(gv[i as int]), long_string_refs: lsr });
        result.push(table);
        assert(tables_view(result@) =~= before.push(model));
        assert(tables_view(result@) =~= sys + Seq::new(
            (i + 1) as nat,
            |k: int| TableView { name: nv[k], columns: ordered_columns(gv[k]), long_string_refs: lsr },
        ));
        i = i + 1;
    }
    Ok(result)
}

/// The name of the stream that holds the `_StringPool` table.
pub fn string_pool_stream_name() -> (r: String)
    ensures
        r@ == crate::streamname::spec_encode("_StringPool"@, true),
{
    crate::streamname::encode("_StringPool", true)
}

/// The name of the stream that holds the `_StringData` table.
pub fn string_data_stream_name() -> (r: String)
    ensures
        r@ == crate::streamname::spec_encode("_StringData"@, true),
{
    crate::streamname::encode("_StringData", true)
}

/// The mathematical model of a [`Database`].
pub struct DatabaseView {
    /// The type of the package.
    pub package_type: PackageType,
    /// The summary information.
    pub summary_info: PropertySetView,
    /// Whether the summary information changed since it was last written.
    pub summary_modified: bool,
    /// The code page of the string pool.
    pub codepage: CodePage,
    /// Whether string references take three bytes.
    pub long_string_refs: bool,
    /// The entries of the string pool: each string with its refcount.
    pub strings: Seq<(Seq<char>, u16)>,
    /// Whether the string pool changed since it was last written.
    pub strings_modified: bool,
    /// The tables.
    pub tables: Seq<TableView>,
    /// Whether changes may be waiting to be written.
    pub needs_flush: bool,
}

/// The database of an MSI package: its type, summary information, string
/// pool and tables.  The contents of the tables live in streams of the
/// package, which the caller hands to the queries; a query that changes a
/// table gives back the new contents of that table's stream.
pub struct Database {
    package_type: PackageType,
    summary_info: SummaryInfo,
    is_summary_info_modified: bool,
    string_pool: StringPool,
    tables: Vec<Rc<Table>>,
    needs_flush: bool,
}

impl View for Database {
    type V = DatabaseView;

    closed spec fn view(&self) -> DatabaseView {
        DatabaseView {
            package_type: self.package_type,
            summary_info: self.summary_info@,
            summary_modified: self.is_summary_info_modified,
            codepage: self.string_pool.spec_codepage(),
            long_string_refs: self.string_pool.spec_long_string_refs(),
            strings: self.string_pool.entries(),
            strings_modified: self.string_pool.spec_is_modified(),
            tables: tables_view(self.tables@),
            needs_flush: self.needs_flush,
        }
    }
}

/// The tables of a database, handed out one by one.
pub struct Tables<'a> {
    tables: &'a [Rc<Table>],
    next: usize,
}

impl<'a> Tables<'a> {
    /// The tables to hand out.
    pub closed spec fn spec_tables(&self) -> Seq<TableView> {
        tables_view(self.tables@)
    }

    /// The index of the next table to hand out.
    pub closed spec fn spec_next(&self) -> int {
        self.next as int
    }

    /// Hands out the next table, or `None` once every table has been
    /// handed out.
    pub fn next_table(&mut self) -> (r: Option<&'a Table>)
        ensures
            final(self).spec_tables() == old(self).spec_tables(),
            old(self).spec_next() < old(self).spec_tables().len() ==> (r matches Some(t) && t@
                == old(self).spec_tables()[old(self).spec_next()] && final(self).spec_next() == old(
                self,
            ).spec_next() + 1),
            old(self).spec_next() >= old(self).spec_tables().len() ==> (r is None && final(self).spec_next()
                == old(self).spec_next()),
    {
        if self.next < self.tables.len() {
            let t: &'a Rc<Table> = &self.tables[self.next];
            self.next = self.next + 1;
            Some(&**t)
        } else {
            None
        }
    }

    /// Returns the number of tables not handed out yet.
    pub fn remaining(&self) -> (r: usize)
        ensures
            r == if self.spec_next() < self.spec_tables().len() {
                self.spec_tables().len() - self.spec_next()
            } else {
                0
            },
    {
        if self.next < self.tables.len() {
            self.tables.len() - self.next
        } else {
            0
        }
    }
}

/// The streams to write to persist a database's buffered changes: each is
/// `None` when it has not changed.
pub struct PendingWrites {
    /// The new contents of the summary information stream.
    pub summary_info: Option<Vec<u8>>,
    /// The new contents of the `_StringPool` stream.
    pub string_pool: Option<Vec<u8>>,
    /// The new contents of the `_StringData` stream.
    pub string_data: Option<Vec<u8>>,
}

/// What reading a summary information stream gives: the property set,
/// which must have the summary information's format identifier.
pub open spec fn spec_read_summary(data: Seq<u8>) -> Result<PropertySetView, ErrorKind> {
    match spec_read_set(data) {
        Ok(p) => if p.fmtid == spec_fmtid() {
            Ok(p)
        } else {
            Err(ErrorKind::InvalidData)
        },
        Err(kind) => Err(kind),
    }
}

/// What opening a package gives, from its class identifier and the contents
/// of its summary information, `_StringPool`, `_StringData`, `_Tables` and
/// `_Columns` streams (`None` for a stream that does not exist): the
/// database, or the kind of the first error met.
pub open spec fn spec_open(
    clsid: Seq<u8>,
    summary: Option<Seq<u8>>,
    pool: Option<Seq<u8>>,
    data: Option<Seq<u8>>,
    tables: Option<Seq<u8>>,
    columns: Option<Seq<u8>>,
) -> Result<DatabaseView, ErrorKind> {
    match spec_from_clsid(clsid) {
        None => Err(ErrorKind::InvalidData),
        Some(t) => match summary {
            None => Err(ErrorKind::NotFound),
            Some(sd) => match spec_read_summary(sd) {
                Err(kind) => Err(kind),
                Ok(info) => match pool {
                    None => Err(ErrorKind::NotFound),
                    Some(pd) => match spec_read_pool(pd) {
                        Err(kind) => Err(kind),
                        Ok((c, long, records)) => match data {
                            None => Err(ErrorKind::NotFound),
                            Some(dd) => if records.len() > MAX_STRING_REF {
                                Err(ErrorKind::InvalidData)
                            } else {
                                match spec_pool_strings(c, records, dd) {
                                    None => Err(ErrorKind::UnexpectedEof),
                                    Some(entries) => match spec_load_tables(
                                        stream_rows(spec_tables_table(long), tables),
                                        stream_rows(spec_columns_table(long), columns),
                                        entries,
                                        long,
                                    ) {
                                        None => Err(ErrorKind::InvalidData),
                                        Some(ts) => Ok(
                                            DatabaseView {
                                                package_type: t,
                                                summary_info: info,
                                                summary_modified: false,
                                                codepage: c,
                                                long_string_refs: long,
                                                strings: entries,
                                                strings_modified: false,
                                                tables: ts,
                                                needs_flush: false,
                                            },
                                        ),
                                    },
                                }
                            },
                        },
                    },
                },
            },
        },
    }
}

/// A new, empty database of the given type: summary information with the
/// code page and the type's title, an empty string pool, and the two system
/// tables, all waiting to be written.
pub open spec fn spec_create(t: PackageType) -> DatabaseView {
    DatabaseView {
        package_type: t,
        summary_info: PropertySetView {
            os: OperatingSystem::Win32,
            os_version: 10,
            clsid: Seq::new(16, |i: int| 0u8),
            fmtid: spec_fmtid(),
            codepage: CodePage::Utf8,
            properties: set_named(
                set_named(
                    Seq::<(u32, PropertyValueView)>::empty(),
                    PROPERTY_CODEPAGE,
                    PropertyValueView::I2(codepage_id(CodePage::Utf8) as i16),
                ),
                PROPERTY_TITLE,
                PropertyValueView::LpStr(spec_default_title(t)),
            ),
        },
        summary_modified: true,
        codepage: CodePage::Utf8,
        long_string_refs: false,
        strings: Seq::empty(),
        strings_modified: true,
        tables: seq![spec_tables_table(false), spec_columns_table(false)],
        needs_flush: true,
    }
}

/// The rows that `_Columns` gets for a new table's columns.
pub open spec fn column_rows(name: Seq<char>, cols: Seq<ColumnView>) -> Seq<Seq<ValueView>> {
    Seq::new(
        cols.len(),
        |i: int|
            seq![
                ValueView::Str(name),
                ValueView::Int((i + 1) as i32),
                ValueView::Str(cols[i].name),
                ValueView::Int(spec_column_bits(cols[i]))
            ],
    )
}

/// Whether some column is part of the primary key.
pub open spec fn has_primary_key(cols: Seq<ColumnView>) -> bool {
    exists|i: int| 0 <= i < cols.len() && cols[i].is_primary_key
}

/// Whether two columns have the same name.
pub open spec fn has_repeated_name(cols: Seq<ColumnView>) -> bool {
    exists|i: int, j: int| 0 <= i < j < cols.len() && cols[i].name == cols[j].name
}

/// Whether a name can name a table: an identifier whose stream name fits.
pub open spec fn is_valid_table_name(name: Seq<char>) -> bool {
    spec_validate(Category::Identifier, name) && crate::streamname::spec_is_valid(name, true)
}

/// Whether some column's name is not an identifier.
pub open spec fn has_invalid_column_name(cols: Seq<ColumnView>) -> bool {
    exists|i: int| 0 <= i < cols.len() && !spec_validate(Category::Identifier, #[trigger] cols[i].name)
}

/// Whether column `i` is the first whose name is not an identifier.
pub open spec fn is_first_invalid_column(cols: Seq<ColumnView>, i: int) -> bool {
    &&& 0 <= i < cols.len()
    &&& !spec_validate(Category::Identifier, cols[i].name)
    &&& forall|k: int| 0 <= k < i ==> spec_validate(Category::Identifier, #[trigger] cols[k].name)
}

/// Whether column `j` has the name of an earlier column.
pub open spec fn repeats_earlier(cols: Seq<ColumnView>, j: int) -> bool {
    exists|i: int| 0 <= i < j && cols[i].name == cols[j].name
}

/// Whether column `j` is the first that has the name of an earlier column.
pub open spec fn is_first_repeat(cols: Seq<ColumnView>, j: int) -> bool {
    &&& 0 <= j < cols.len()
    &&& repeats_earlier(cols, j)
    &&& forall|k: int| 0 <= k < j ==> !repeats_earlier(cols, k)
}

/// Whether creating a table is refused before anything is written: an
/// invalid table name, no columns, no primary key column, an invalid or a
/// repeated column name, or a table of that name that exists already.
pub open spec fn create_table_refused(db: DatabaseView, name: Seq<char>, cols: Seq<ColumnView>) -> bool {
    !is_valid_table_name(name) || cols.len() == 0 || !has_primary_key(cols) || has_invalid_column_name(cols)
        || has_repeated_name(cols) || table_index(db.tables, name) is Some
}

/// The message of the error with which creating a table is refused, by the
/// first check that fails.
pub open spec fn create_table_message(name: Seq<char>, cols: Seq<ColumnView>) -> Seq<char> {
    if !is_valid_table_name(name) {
        debug_quoted(name) + " is not a valid table name"@
    } else if cols.len() == 0 {
        "Cannot create a table with no columns"@
    } else if !has_primary_key(cols) {
        "Cannot create a table without at least one primary key column"@
    } else if has_invalid_column_name(cols) {
        let i = choose|i: int| is_first_invalid_column(cols, i);
        debug_quoted(cols[i].name) + " is not a valid column name"@
    } else if has_repeated_name(cols) {
        let j = choose|j: int| is_first_repeat(cols, j);
        "Cannot create a table with multiple columns with the same name ("@ + debug_quoted(cols[j].name) + ")"@
    } else {
        "Table "@ + debug_quoted(name) + " already exists"@
    }
}

/// What creating a table gives: the new contents of the `_Columns` and
/// `_Tables` streams, or the kind of error; and the database afterwards.
pub open spec fn spec_create_table(
    db: DatabaseView,
    name: Seq<char>,
    cols: Seq<ColumnView>,
    streams: Seq<(Seq<char>, Seq<u8>)>,
) -> (Result<(Seq<u8>, Seq<u8>), ErrorKind>, DatabaseView) {
    if !is_valid_table_name(name) || cols.len() == 0 || !has_primary_key(cols)
        || has_invalid_column_name(cols) || has_repeated_name(cols) {
        (Err(ErrorKind::InvalidInput), db)
    } else if table_index(db.tables, name) is Some {
        (Err(ErrorKind::AlreadyExists), db)
    } else {
        let touched = DatabaseView { needs_flush: true, ..db };
        let lsr = db.long_string_refs;
        match insert_result(
            InsertView { table_name: columns_table_name(), new_rows: column_rows(name, cols) },
            db.tables,
            streams,
            (db.strings, db.strings_modified),
            lsr,
        ) {
            Err(kind) => (Err(kind), touched),
            Ok((column_bytes, s1)) => match insert_result(
                InsertView { table_name: tables_table_name(), new_rows: seq![seq![ValueView::Str(name)]] },
                db.tables,
                streams,
                s1,
                lsr,
            ) {
                Err(kind) => (Err(kind), touched),
                Ok((table_bytes, s2)) => (
                    Ok((column_bytes, table_bytes)),
                    DatabaseView {
                        strings: s2.0,
                        strings_modified: s2.1,
                        tables: db.tables.push(
                            TableView { name, columns: cols, long_string_refs: lsr },
                        ),
                        ..touched
                    },
                ),
            },
        }
    }
}

/// Whether some column is part of the primary key.
fn any_primary_key(columns: &Vec<Column>) -> (r: bool)
    ensures
        r == has_primary_key(columns_view(columns@)),
{
    let ghost cv = columns_view(columns@);
    let mut k: usize = 0;
    while k < columns.len()
        invariant
            k <= columns@.len(),
            cv == columns_view(columns@),
            forall|j: int| 0 <= j < k ==> !cv[j].is_primary_key,
        decreases columns@.len() - k,
    {
        if columns[k].is_primary_key() {
            assert(cv[k as int].is_primary_key);
            return true;
        }
        k = k + 1;
    }
    false
}

/// The first column whose name is not an identifier, if any.
fn first_invalid_column(columns: &Vec<Column>) -> (r: Option<usize>)
    ensures
        match r {
            Some(i) => is_first_invalid_column(columns_view(columns@), i as int),
            None => !has_invalid_column_name(columns_view(columns@)),
        },
{
    let ghost cv = columns_view(columns@);
    let mut k: usize = 0;
    while k < columns.len()
        invariant
            k <= columns@.len(),
            cv == columns_view(columns@),
            forall|j: int| 0 <= j < k ==> spec_validate(Category::Identifier, #[trigger] cv[j].name),
        decreases columns@.len() - k,
    {
        if !Column::is_valid_name(columns[k].name()) {
            return Some(k);
        }
        k = k + 1;
    }
    None
}

/// The first column that has the name of an earlier column, if any.
fn first_repeated_name(columns: &Vec<Column>) -> (r: Option<usize>)
    ensures
        match r {
            Some(j) => is_first_repeat(columns_view(columns@), j as int),
            None => !has_repeated_name(columns_view(columns@)),
        },
{
    let ghost cv = columns_view(columns@);
    let mut j: usize = 1;
    while j < columns.len()
        invariant
            1 <= j,
            j <= columns@.len() || columns@.len() == 0,
            cv == columns_view(columns@),
            forall|a: int, b: int| 0 <= a < b < j && b < cv.len() ==> cv[a].name != cv[b].name,
        decreases columns@.len() - j,
    {
        let mut i: usize = 0;
        while i < j
            invariant
                i <= j < columns@.len(),
                cv == columns_view(columns@),
                forall|a: int| 0 <= a < i ==> cv[a].name != cv[j as int].name,
                forall|a: int, b: int| 0 <= a < b < j && b < cv.len() ==> cv[a].name != cv[b].name,
            decreases j - i,
        {
            if str_equal(columns[i].name(), columns[j].name()) {
                assert(cv[i as int].name == cv[j as int].name);
                assert(repeats_earlier(cv, j as int));
                assert forall|k: int| 0 <= k < j implies !repeats_earlier(cv, k) by {
                    if repeats_earlier(cv, k) {
                        let a = choose|a: int| 0 <= a < k && cv[a].name == cv[k].name;
                        assert(cv[a].name != cv[k].name);
                    }
                }
                return Some(j);
            }
            i = i + 1;
        }
        j = j + 1;
    }
    None
}

/// The error for a stream that a package lacks.
fn missing_stream(name: &str) -> (r: Error)
    ensures
        r.kind == ErrorKind::NotFound,
        r.message@ == "Stream "@ + debug_quoted(name@) + " does not exist"@,
{
    let quoted = debug_text(name);
    Error::new(ErrorKind::NotFound, crate::text::concat3("Stream ", quoted.as_str(), " does not exist"))
}

impl Database {
    /// Whether the string pool holds no more strings than references can
    /// number, as every database that `open` and `create` give does.
    pub closed spec fn wf(&self) -> bool {
        self.string_pool.wf()
    }

    /// Opens the database of a package from its class identifier and the
    /// contents of its summary information, `_StringPool`, `_StringData`,
    /// `_Tables` and `_Columns` streams (`None` for a stream that does not
    /// exist).  Fails with `InvalidData` for a class identifier of no
    /// package type, with `NotFound` when the summary information or the
    /// string pool is missing, as reading those streams fails, and as
    /// loading the tables fails.
    pub fn open(
        clsid: &[u8; 16],
        summary_data: Option<&[u8]>,
        pool_data: Option<&[u8]>,
        string_data: Option<&[u8]>,
        tables_data: Option<&[u8]>,
        columns_data: Option<&[u8]>,
    ) -> (r: Result<Database, Error>)
        ensures
            match spec_open(
                clsid@,
                stream_view(summary_data),
                stream_view(pool_data),
                stream_view(string_data),
                stream_view(tables_data),
                stream_view(columns_data),
            ) {
                Ok(db) => r matches Ok(d) && d@ == db && d.wf(),
                Err(kind) => r matches Err(e) && e.kind == kind,
            },
    {
        let package_type = match PackageType::from_clsid(clsid) {
            Some(t) => t,
            None => {
                return Err(Error::with_text(ErrorKind::InvalidData, "Unrecognized package CLSID"));
            },
        };
        let summary_info = match summary_data {
            Some(d) => match SummaryInfo::read(d) {
                Ok(info) => info,
                Err(e) => {
                    return Err(e);
                },
            },
            None => {
                return Err(missing_stream("\u{5}SummaryInformation"));
            },
        };
        let builder = match pool_data {
            Some(d) => match StringPoolBuilder::read_from_pool(d) {
                Ok(b) => b,
                Err(e) => {
                    return Err(e);
                },
            },
            None => {
                return Err(missing_stream("_StringPool"));
            },
        };
        let string_pool = match string_data {
            Some(d) => match builder.build_from_data(d) {
                Ok(p) => p,
                Err(e) => {
                    return Err(e);
                },
            },
            None => {
                return Err(missing_stream("_StringData"));
            },
        };
        let tables = match load_tables(&string_pool, tables_data, columns_data) {
            Ok(t) => t,
            Err(e) => {
                return Err(e);
            },
        };
        Ok(
            Database {
                package_type,
                summary_info,
                is_summary_info_modified: false,
                string_pool,
                tables,
                needs_flush: false,
            },
        )
    }

    /// Creates a new, empty database of the given type, with its changes
    /// waiting to be written.
    pub fn create(package_type: PackageType) -> (r: Database)
        ensures
            r@ == spec_create(package_type),
            r.wf(),
    {
        let mut summary_info = SummaryInfo::new();
        summary_info.set_title(package_type.default_title());
        let string_pool = StringPool::new(summary_info.codepage());
        let lsr = string_pool.long_string_refs();
        let mut tables: Vec<Rc<Table>> = Vec::new();
        tables.push(tables_table(lsr));
        tables.push(columns_table(lsr));
        let r = Database {
            package_type,
            summary_info,
            is_summary_info_modified: true,
            string_pool,
            tables,
            needs_flush: true,
        };
        assert(r@.tables =~= spec_create(package_type).tables);
        assert(r@.summary_info == spec_create(package_type).summary_info);
        r
    }

    /// Returns what type of package this is.
    pub fn package_type(&self) -> (r: PackageType)
        ensures
            r == self@.package_type,
    {
        self.package_type
    }

    /// Returns summary information for this package.
    pub fn summary_info(&self) -> (r: &SummaryInfo)
        ensures
            r@ == self@.summary_info,
    {
        &self.summary_info
    }

    /// Returns the code page used for serializing strings in the database.
    pub fn database_codepage(&self) -> (r: CodePage)
        ensures
            r == self@.codepage,
    {
        self.string_pool.codepage()
    }

    /// Returns true if the database has a table with the given name.
    pub fn has_table(&self, table_name: &str) -> (r: bool)
        ensures
            r == (table_index(self@.tables, table_name@) is Some),
    {
        find_table(self.tables.as_slice(), table_name).is_some()
    }

    /// Returns the database table with the given name (if any).
    pub fn get_table(&self, table_name: &str) -> (r: Option<&Table>)
        ensures
            match table_index(self@.tables, table_name@) {
                Some(i) => r matches Some(t) && t@ == self@.tables[i],
                None => r is None,
            },
    {
        let slice = self.tables.as_slice();
        assert(tables_view(slice@) == self@.tables);
        match find_table(slice, table_name) {
            Some(i) => {
                let t: &Rc<Table> = &self.tables[i];
                assert(tables_view(self.tables@)[i as int] == (**t)@);
                assert(table_index(self@.tables, table_name@) == Some(i as int));
                Some(&**t)
            },
            None => None,
        }
    }

    /// Returns the database tables, to be handed out one by one.
    pub fn tables(&self) -> (r: Tables<'_>)
        ensures
            r.spec_tables() == self@.tables,
            r.spec_next() == 0,
    {
        Tables { tables: self.tables.as_slice(), next: 0 }
    }

    /// Returns a mutable reference to the summary information, which is
    /// then marked as changed.
    pub fn summary_info_mut(&mut self) -> (r: &mut SummaryInfo)
        ensures
            final(self).wf() == old(self).wf(),
            r@ == old(self)@.summary_info,
            final(self)@ == (DatabaseView {
                summary_info: final(r)@,
                summary_modified: true,
                needs_flush: true,
                ..old(self)@
            }),
    {
        self.is_summary_info_modified = true;
        self.needs_flush = true;
        &mut self.summary_info
    }

    /// Gives the streams to write to persist the buffered changes, and marks
    /// them written: the summary information when it changed, and the
    /// string pool's two streams when the pool changed.  Fails with
    /// `InvalidInput` when the summary information cannot be written; the
    /// string pool is then left as it is.
    pub fn flush(&mut self) -> (r: Result<PendingWrites, Error>)
        ensures
            old(self).wf() ==> final(self).wf(),
            !old(self)@.needs_flush ==> (r matches Ok(w) && w.summary_info is None && w.string_pool is None
                && w.string_data is None && final(self)@ == old(self)@),
            old(self)@.needs_flush && old(self)@.summary_modified && !can_write_set(old(self)@.summary_info)
                ==> (r matches Err(e) && e.kind == ErrorKind::InvalidInput && final(self)@ == (DatabaseView {
                needs_flush: false,
                ..old(self)@
            })),
            old(self)@.needs_flush && (old(self)@.summary_modified ==> can_write_set(old(self)@.summary_info))
                ==> {
                &&& r matches Ok(w)
                &&& (w.summary_info is Some) == old(self)@.summary_modified
                &&& (w.summary_info matches Some(b) ==> b@ == spec_set_bytes(old(self)@.summary_info))
                &&& (w.string_pool is Some) == old(self)@.strings_modified
                &&& (w.string_pool matches Some(b) ==> b@ == string_pool_bytes(
                    old(self)@.codepage,
                    old(self)@.long_string_refs,
                    old(self)@.strings,
                ))
                &&& (w.string_data is Some) == old(self)@.strings_modified
                &&& (w.string_data matches Some(b) ==> b@ == string_data_bytes(old(self)@.codepage, old(self)@.strings))
                &&& final(self)@ == (DatabaseView {
                    summary_modified: false,
                    strings_modified: false,
                    needs_flush: false,
                    ..old(self)@
                })
            },
    {
        let mut writes = PendingWrites { summary_info: None, string_pool: None, string_data: None };
        if !self.needs_flush {
            return Ok(writes);
        }
        self.needs_flush = false;
        if self.is_summary_info_modified {
            match self.summary_info.write() {
                Ok(bytes) => {
                    writes.summary_info = Some(bytes);
                },
                Err(e) => {
                    return Err(e);
                },
            }
            self.is_summary_info_modified = false;
        }
        if self.string_pool.is_modified() {
            writes.string_pool = Some(self.string_pool.write_pool());
            writes.string_data = Some(self.string_pool.write_data());
            self.string_pool.mark_unmodified();
        }
        Ok(writes)
    }

    /// Runs a select query on the tables, whose streams' contents are given
    /// by table name.  Fails as the query does.
    pub fn select_rows<'a>(&'a self, query: Select, streams: &[(String, Vec<u8>)]) -> (r: Result<Rows<'a>, Error>)
        ensures
            match select_result(
                query@,
                self@.tables,
                streams_view(streams@),
                self@.strings,
                self@.long_string_refs,
            ) {
                Ok((t, rows)) => r matches Ok(rs) && rs.spec_table() == t && rs.spec_rows() == rows
                    && rs.spec_next() == 0 && rs.spec_pool() == self@.strings,
                Err(kind) => r matches Err(e) && e.kind == kind,
            },
            match crate::query::join_result(
                query@.from,
                self@.tables,
                streams_view(streams@),
                self@.strings,
                self@.long_string_refs,
            ) {
                Ok((t, _)) => {
                    &&& !crate::query::names_present(query@.column_names, t.columns) ==> (r matches Err(e)
                        && e.message@ == crate::query::no_column_message(
                        t.name,
                        query@.column_names[choose|k: int|
                            crate::query::is_first_missing_name(query@.column_names, t.columns, k)],
                    ))
                    &&& crate::query::names_present(query@.column_names, t.columns)
                        && !crate::query::condition_columns_present(query@.condition, t.columns) ==> (r matches Err(e)
                        && crate::query::names_missing_column(t.name, query@.condition, t.columns, e.message@))
                },
                Err(_) => true,
            },
    {
        query.exec(&self.string_pool, self.tables.as_slice(), streams)
    }

    /// Runs a delete query, giving the new contents of the table's stream.
    /// Fails as the query does, leaving the string pool as it was.
    pub fn delete_rows(&mut self, query: Delete, streams: &[(String, Vec<u8>)]) -> (r: Result<Vec<u8>, Error>)
        requires
            old(self).wf(),
        ensures
            final(self).wf(),
            match delete_result(
                query@,
                old(self)@.tables,
                streams_view(streams@),
                (old(self)@.strings, old(self)@.strings_modified),
            ) {
                Ok((bytes, state)) => r matches Ok(b) && b@ == bytes && final(self)@ == (DatabaseView {
                    strings: state.0,
                    strings_modified: state.1,
                    needs_flush: true,
                    ..old(self)@
                }),
                Err(kind) => r matches Err(e) && e.kind == kind && final(self)@ == (DatabaseView {
                    needs_flush: true,
                    ..old(self)@
                }),
            },
            table_index(old(self)@.tables, query@.table_name) is None ==> (r matches Err(e) && e.message@
                == crate::query::no_table_message(query@.table_name)),
            match table_index(old(self)@.tables, query@.table_name) {
                Some(i) => !crate::query::condition_columns_present(query@.condition, old(self)@.tables[i].columns)
                    ==> (r matches Err(e) && crate::query::names_missing_column(
                    query@.table_name,
                    query@.condition,
                    old(self)@.tables[i].columns,
                    e.message@,
                )),
                None => true,
            },
    {
        self.needs_flush = true;
        query.exec(&mut self.string_pool, self.tables.as_slice(), streams)
    }

    /// Runs an insert query, giving the new contents of the table's stream.
    /// Fails as the query does, leaving the string pool as it was.
    pub fn insert_rows(&mut self, query: Insert, streams: &[(String, Vec<u8>)]) -> (r: Result<Vec<u8>, Error>)
        requires
            old(self).wf(),
        ensures
            final(self).wf(),
            match insert_result(
                query@,
                old(self)@.tables,
                streams_view(streams@),
                (old(self)@.strings, old(self)@.strings_modified),
                old(self)@.long_string_refs,
            ) {
                Ok((bytes, state)) => r matches Ok(b) && b@ == bytes && final(self)@ == (DatabaseView {
                    strings: state.0,
                    strings_modified: state.1,
                    needs_flush: true,
                    ..old(self)@
                }),
                Err(kind) => r matches Err(e) && e.kind == kind && final(self)@ == (DatabaseView {
                    needs_flush: true,
                    ..old(self)@
                }),
            },
            table_index(old(self)@.tables, query@.table_name) is None ==> (r matches Err(e) && e.message@
                == crate::query::no_table_message(query@.table_name)),
            match table_index(old(self)@.tables, query@.table_name) {
                Some(i) => !crate::query::new_rows_valid(query@.new_rows, old(self)@.tables[i].columns) ==> (r matches Err(e)
                    && e.message@ == crate::query::misfit_message(old(self)@.tables[i].name, query@.new_rows, old(self)@.tables[i].columns)),
                None => true,
            },
            match table_index(old(self)@.tables, query@.table_name) {
                Some(i) => {
                    let t = old(self)@.tables[i];
                    let keys = crate::table::primary_key_indices_upto(t.columns, t.columns.len() as int);
                    let rows = crate::query::stored_rows(t, crate::query::stored_data(streams_view(streams@), t.name));
                    crate::query::new_rows_valid(query@.new_rows, t.columns) ==> match crate::query::sorted_rows(
                        rows,
                        keys,
                        old(self)@.strings,
                        rows.len() as int,
                    ) {
                        None => r matches Err(e) && e.message@ == crate::query::malformed_message(t.name, rows, keys, old(self)@.strings),
                        Some(stored) => crate::query::key_conflict(query@.new_rows, keys, stored, query@.new_rows.len() as int) is Some
                            ==> (r matches Err(e) && e.message@ == crate::query::conflict_message(
                            t.name,
                            query@.new_rows,
                            keys,
                            stored,
                        )),
                    }
                },
                None => true,
            },
    {
        self.needs_flush = true;
        query.exec(&mut self.string_pool, self.tables.as_slice(), streams)
    }

    /// Runs an update query, giving the new contents of the table's stream.
    /// Fails as the query does, leaving the string pool as it was.
    pub fn update_rows(&mut self, query: Update, streams: &[(String, Vec<u8>)]) -> (r: Result<Vec<u8>, Error>)
        requires
            old(self).wf(),
        ensures
            final(self).wf(),
            match update_result(
                query@,
                old(self)@.tables,
                streams_view(streams@),
                (old(self)@.strings, old(self)@.strings_modified),
                old(self)@.long_string_refs,
            ) {
                Ok((bytes, state)) => r matches Ok(b) && b@ == bytes && final(self)@ == (DatabaseView {
                    strings: state.0,
                    strings_modified: state.1,
                    needs_flush: true,
                    ..old(self)@
                }),
                Err(kind) => r matches Err(e) && e.kind == kind && final(self)@ == (DatabaseView {
                    needs_flush: true,
                    ..old(self)@
                }),
            },
            table_index(old(self)@.tables, query@.table_name) is None ==> (r matches Err(e) && e.message@
                == crate::query::no_table_message(query@.table_name)),
            match table_index(old(self)@.tables, query@.table_name) {
                Some(i) => {
                    &&& !crate::query::updates_valid(query@.updates, old(self)@.tables[i].columns) ==> (r matches Err(
                        e,
                    ) && e.message@ == crate::query::update_message(
                        query@.table_name,
                        query@.updates,
                        old(self)@.tables[i].columns,
                    ))
                    &&& crate::query::updates_valid(query@.updates, old(self)@.tables[i].columns)
                        && !crate::query::condition_columns_present(query@.condition, old(self)@.tables[i].columns)
                        ==> (r matches Err(e) && crate::query::names_missing_column(
                        query@.table_name,
                        query@.condition,
                        old(self)@.tables[i].columns,
                        e.message@,
                    ))
                },
                None => true,
            },
    {
        self.needs_flush = true;
        query.exec(&mut self.string_pool, self.tables.as_slice(), streams)
    }

    /// Creates a new database table, giving the new contents of the
    /// `_Columns` and `_Tables` streams.  Fails with `InvalidInput` when
    /// there are no columns, no primary key column or two columns with one
    /// name, with `AlreadyExists` when a table with that name exists, and as
    /// inserting the table's rows into `_Columns` and `_Tables` fails; the
    /// string pool and the tables are then left as they were.
    pub fn create_table(&mut self, table_name: String, columns: Vec<Column>, streams: &[(String, Vec<u8>)]) -> (r:
        Result<(Vec<u8>, Vec<u8>), Error>)
        requires
            old(self).wf(),
            columns@.len() < 0x7fff_ffff,
        ensures
            final(self).wf(),
            final(self)@ == spec_create_table(
                old(self)@,
                table_name@,
                columns_view(columns@),
                streams_view(streams@),
            ).1,
            match spec_create_table(old(self)@, table_name@, columns_view(columns@), streams_view(streams@)).0 {
                Ok((column_bytes, table_bytes)) => r matches Ok((c, t)) && c@ == column_bytes && t@ == table_bytes,
                Err(kind) => r matches Err(e) && e.kind == kind,
            },
            create_table_refused(old(self)@, table_name@, columns_view(columns@)) ==> (r matches Err(e)
                && e.message@ == create_table_message(table_name@, columns_view(columns@))),
    {
        let ghost cv = columns_view(columns@);
        let ghost name = table_name@;
        if !Table::is_valid_name(table_name.as_str()) {
            let quoted = debug_text(table_name.as_str());
            return Err(
                Error::new(ErrorKind::InvalidInput, crate::text::concat2(quoted.as_str(), " is not a valid table name")),
            );
        }
        if columns.len() == 0 {
            return Err(Error::with_text(ErrorKind::InvalidInput, "Cannot create a table with no columns"));
        }
        if !any_primary_key(&columns) {
            return Err(
                Error::with_text(
                    ErrorKind::InvalidInput,
                    "Cannot create a table without at least one primary key column",
                ),
            );
        }
        match first_invalid_column(&columns) {
            Some(i) => {
                assert(!spec_validate(Category::Identifier, cv[i as int].name));
                proof {
                    let c = choose|c: int| is_first_invalid_column(cv, c);
                    if c < i {
                        assert(spec_validate(Category::Identifier, cv[c].name));
                    } else if i < c {
                        assert(spec_validate(Category::Identifier, cv[i as int].name));
                    }
                }
                let quoted = debug_text(columns[i].name());
                return Err(
                    Error::new(
                        ErrorKind::InvalidInput,
                        crate::text::concat2(quoted.as_str(), " is not a valid column name"),
                    ),
                );
            },
            None => {},
        }
        match first_repeated_name(&columns) {
            Some(j) => {
                proof {
                    assert(has_repeated_name(cv)) by {
                        let i = choose|i: int| 0 <= i < j && cv[i].name == cv[j as int].name;
                        assert(0 <= i < j < cv.len() && cv[i].name == cv[j as int].name);
                    }
                    let c = choose|c: int| is_first_repeat(cv, c);
                    if c < j {
                        assert(!repeats_earlier(cv, c));
                    } else if j < c {
                        assert(!repeats_earlier(cv, j as int));
                    }
                }
                let quoted = debug_text(columns[j].name());
                return Err(
                    Error::new(
                        ErrorKind::InvalidInput,
                        crate::text::concat3(
                            "Cannot create a table with multiple columns with the same name (",
                            quoted.as_str(),
                            ")",
                        ),
                    ),
                );
            },
            None => {},
        }
        if find_table(self.tables.as_slice(), table_name.as_str()).is_some() {
            let quoted = debug_text(table_name.as_str());
            return Err(
                Error::new(
                    ErrorKind::AlreadyExists,
                    crate::text::concat3("Table ", quoted.as_str(), " already exists"),
                ),
            );
        }
        self.needs_flush = true;
        let lsr = self.string_pool.long_string_refs();
        let saved = self.string_pool.duplicate();
        let mut rows: Vec<Vec<Value>> = Vec::new();
        let mut index: usize = 0;
        while index < columns.len()
            invariant
                index <= columns@.len() < 0x7fff_ffff,
                cv == columns_view(columns@),
                name == table_name@,
                rows@.len() == index,
                forall|j: int| 0 <= j < index ==> crate::table::values_view(#[trigger] rows@[j]@) == column_rows(name, cv)[j],
            decreases columns@.len() - index,
        {
            let row = vec![
                Value::Str(table_name.clone()),
                Value::Int((index + 1) as i32),
                Value::Str(columns[index].name().to_owned()),
                Value::Int(columns[index].bitfield()),
            ];
            assert(crate::table::values_view(row@) =~= column_rows(name, cv)[index as int]);
            rows.push(row);
            index = index + 1;
        }
        let ghost new_rows = crate::query::value_rows_view(rows@);
        assert(new_rows =~= column_rows(name, cv));
        let column_insert = Insert::into("_Columns").rows(rows);
        assert(column_insert@ == InsertView { table_name: columns_table_name(), new_rows: column_rows(name, cv) });
        let column_bytes = match column_insert.exec(&mut self.string_pool, self.tables.as_slice(), streams) {
            Ok(bytes) => bytes,
            Err(e) => {
                return Err(e);
            },
        };
        let table_row = vec![Value::Str(table_name.clone())];
        assert(crate::table::values_view(table_row@) =~= seq![ValueView::Str(name)]);
        let table_insert = Insert::into("_Tables").row(table_row);
        assert(table_insert@.new_rows =~= seq![seq![ValueView::Str(name)]]);
        assert(table_insert@ == InsertView {
            table_name: tables_table_name(),
            new_rows: seq![seq![ValueView::Str(name)]],
        });
        let table_bytes = match table_insert.exec(&mut self.string_pool, self.tables.as_slice(), streams) {
            Ok(bytes) => bytes,
            Err(e) => {
                self.string_pool = saved;
                return Err(e);
            },
        };
        let ghost before = tables_view(self.tables@);
        self.tables.push(Table::new(table_name, columns, lsr));
        assert(tables_view(self.tables@) =~= before.push(TableView { name, columns: cv, long_string_refs: lsr }));
        Ok((column_bytes, table_bytes))
    }
}


/// A table that `create_table` made is then found under its name, as the
/// last table, with the columns it was given.
pub proof fn lemma_created_table_found(
    db: DatabaseView,
    name: Seq<char>,
    cols: Seq<ColumnView>,
    streams: Seq<(Seq<char>, Seq<u8>)>,
)
    requires
        spec_create_table(db, name, cols, streams).0 is Ok,
    ensures
        ({
            let after = spec_create_table(db, name, cols, streams).1;
            &&& table_index(after.tables, name) == Some(db.tables.len() as int)
            &&& after.tables[db.tables.len() as int] == (TableView {
                name,
                columns: cols,
                long_string_refs: db.long_string_refs,
            })
            &&& after.tables.take(db.tables.len() as int) == db.tables
        }),
{
    let after = spec_create_table(db, name, cols, streams).1;
    let n = db.tables.len() as int;
    assert(table_index(db.tables, name) is None);
    assert(forall|k: int| 0 <= k < n ==> db.tables[k].name != name);
    assert(crate::query::is_first_table(after.tables, name, n));
    let c = choose|i: int| crate::query::is_first_table(after.tables, name, i);
    assert(c == n);
    assert(after.tables.take(n) =~= db.tables);
}


/// Opening what a database writes gives it back: its type from its class
/// identifier, its summary information, its code page and the strings of
/// its pool (each as its encoding decodes), with the tables that its
/// `_Tables` and `_Columns` streams describe; for summary information and
/// strings that read back as written.
pub proof fn lemma_reopen(
    db: DatabaseView,
    tables: Option<Seq<u8>>,
    columns: Option<Seq<u8>>,
    loaded: Seq<TableView>,
)
    requires
        set_reads_back(db.summary_info),
        db.summary_info.fmtid == spec_fmtid(),
        records_read_back(db.codepage, db.strings),
        db.strings.len() <= MAX_STRING_REF,
        spec_load_tables(
            stream_rows(spec_tables_table(db.long_string_refs), tables),
            stream_rows(spec_columns_table(db.long_string_refs), columns),
            db.strings.map_values(
                |e: (Seq<char>, u16)| (crate::codepage::spec_decode(db.codepage, crate::codepage::spec_encode(db.codepage, e.0)), e.1),
            ),
            db.long_string_refs,
        ) == Some(loaded),
    ensures
        spec_open(
            spec_clsid(db.package_type),
            Some(spec_set_bytes(db.summary_info)),
            Some(string_pool_bytes(db.codepage, db.long_string_refs, db.strings)),
            Some(string_data_bytes(db.codepage, db.strings)),
            tables,
            columns,
        ) == Ok::<DatabaseView, ErrorKind>(
            DatabaseView {
                summary_modified: false,
                strings: db.strings.map_values(
                    |e: (Seq<char>, u16)| (crate::codepage::spec_decode(db.codepage, crate::codepage::spec_encode(db.codepage, e.0)), e.1),
                ),
                strings_modified: false,
                tables: loaded,
                needs_flush: false,
                ..db
            },
        ),
{
    crate::propset::lemma_set_round_trip(db.summary_info);
    crate::stringpool::lemma_pool_round_trip(db.codepage, db.long_string_refs, db.strings);
    assert(written_records(db.codepage, db.strings).len() == db.strings.len());
}

/// The class identifier of each package type, as the Windows Installer
/// documents it in text: `000C1084-…` for an installation database,
/// `000C1086-…` for a patch and `000C1082-…` for a transform.
pub open spec fn documented_clsid(t: PackageType) -> Seq<char> {
    match t {
        PackageType::Installer => "000C1084-0000-0000-C000-000000000046"@,
        PackageType::Patch => "000C1086-0000-0000-C000-000000000046"@,
        PackageType::Transform => "000C1082-0000-0000-C000-000000000046"@,
    }
}

/// Each package type is marked by its documented class identifier, and a
/// class identifier marks exactly the package type it documents.
pub proof fn lemma_documented_clsids(t: PackageType, clsid: Seq<u8>)
    ensures
        crate::category::spec_parse_uuid(documented_clsid(t)) == Some(spec_clsid(t)),
        spec_from_clsid(clsid) == Some(t) <==> crate::category::spec_parse_uuid(documented_clsid(t)) == Some(
            clsid,
        ),
{
    reveal_strlit("000C1084-0000-0000-C000-000000000046");
    reveal_strlit("000C1086-0000-0000-C000-000000000046");
    reveal_strlit("000C1082-0000-0000-C000-000000000046");
    let s = documented_clsid(t);
    let h = s.subrange(0, 8) + s.subrange(9, 13) + s.subrange(14, 18) + s.subrange(19, 23) + s.subrange(24, 36);
    assert(forall|i: int| 0 <= i < 32 ==> (#[trigger] crate::category::hex_value(h[i])) is Some);
    assert(crate::category::hex_bytes(h) == Some(spec_clsid(t))) by {
        assert(Seq::new(
            16,
            |j: int| (crate::category::hex_value(h[2 * j]).unwrap() * 16 + crate::category::hex_value(
                h[2 * j + 1],
            ).unwrap()) as u8,
        ) =~= spec_clsid(t));
    }
    assert(spec_clsid(PackageType::Installer) != spec_clsid(PackageType::Patch));
    assert(spec_clsid(PackageType::Installer)[3] != spec_clsid(PackageType::Transform)[3]);
    assert(spec_clsid(PackageType::Patch)[3] != spec_clsid(PackageType::Transform)[3]);
}

} // verus!
