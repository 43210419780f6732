//! Database queries: deleting, inserting, selecting and updating rows.
//!
//! A query runs on the package's tables, the contents of their streams
//! (given by table name, for the streams that exist) and the string pool.
//! Queries that change a table give back the new contents of its stream.

use crate::category::str_equal;
use crate::error::{Error, ErrorKind};
use crate::expr::{ast_names, eval_ast, format_ast, names_view, AstView, Expr};
use crate::table::{
    values_view, all_writable, column_index, columns_view, decoded_rows, has_named, rows_view, share, table_bytes, Row,
    primary_key_indices_upto, is_first_named, RowView, Rows, Table, TableView,
};
use crate::column::{strings_view, Column, ColumnView};
use crate::column::spec_is_valid_value;
use crate::stringpool::{lemma_string_ref_number_injective, spec_incref, StringPool, StringRef};
use crate::text::{append_str, string_from_chars};
use crate::value::{
    can_create, can_remove, entries_after_remove, value_less, spec_to_bool, spec_to_value, value_text, Value, ValueRef,
    ValueView,
};
use std::rc::Rc;
use vstd::prelude::*;

verus! {

/// The models of a list of tables.
pub open spec fn tables_view(tables: Seq<Rc<Table>>) -> Seq<TableView> {
    tables.map_values(|t: Rc<Table>| (*t)@)
}

/// Whether table `i` is the first with the given name.
pub open spec fn is_first_table(tables: Seq<TableView>, name: Seq<char>, i: int) -> bool {
    &&& 0 <= i < tables.len()
    &&& tables[i].name == name
    &&& forall|k: int| 0 <= k < i ==> tables[k].name != name
}

/// The index of the first table with the given name, if any.
pub open spec fn table_index(tables: Seq<TableView>, name: Seq<char>) -> Option<int> {
    if exists|i: int| 0 <= i < tables.len() && tables[i].name == name {
        Some(choose|i: int| is_first_table(tables, name, i))
    } else {
        None
    }
}

/// The models of the stream contents handed to a query: each table name
/// with the bytes of its stream.
pub open spec fn streams_view(streams: Seq<(String, Vec<u8>)>) -> Seq<(Seq<char>, Seq<u8>)> {
    streams.map_values(|s: (String, Vec<u8>)| (s.0@, s.1@))
}

/// Whether stream `i` is the first for the given table name.
pub open spec fn is_first_stream(streams: Seq<(Seq<char>, Seq<u8>)>, name: Seq<char>, i: int) -> bool {
    &&& 0 <= i < streams.len()
    &&& streams[i].0 == name
    &&& forall|k: int| 0 <= k < i ==> streams[k].0 != name
}

/// The contents of the stream of the named table, if it exists.
pub open spec fn stored_data(streams: Seq<(Seq<char>, Seq<u8>)>, name: Seq<char>) -> Option<Seq<u8>> {
    if exists|i: int| 0 <= i < streams.len() && streams[i].0 == name {
        Some(streams[choose|i: int| is_first_stream(streams, name, i)].1)
    } else {
        None
    }
}

/// The rows of a table: those its stream holds, or none when it has no
/// stream.
pub open spec fn stored_rows(t: TableView, data: Option<Seq<u8>>) -> Seq<Seq<ValueRef>> {
    match data {
        Some(d) => decoded_rows(t, d),
        None => Seq::empty(),
    }
}

/// The model of an optional condition.
pub open spec fn condition_view(c: Option<Expr>) -> Option<AstView> {
    match c {
        Some(e) => Some(e@),
        None => None,
    }
}

/// Whether the table has every column that a condition refers to.
pub open spec fn condition_columns_present(c: Option<AstView>, cols: Seq<ColumnView>) -> bool {
    match c {
        Some(e) => forall|n: Seq<char>| ast_names(e).contains(n) ==> has_named(cols, n),
        None => true,
    }
}

/// The values that references stand for in a pool with these entries.
pub open spec fn refs_values(row: Seq<ValueRef>, entries: Seq<(Seq<char>, u16)>) -> Seq<ValueView> {
    row.map_values(|v: ValueRef| spec_to_value(v, entries))
}

/// Whether a row of the table matches a condition (every row matches no
/// condition).
pub open spec fn condition_holds(
    c: Option<AstView>,
    t: TableView,
    row: Seq<ValueRef>,
    entries: Seq<(Seq<char>, u16)>,
) -> bool {
    match c {
        Some(e) => spec_to_bool(eval_ast(e, RowView { table: t, values: refs_values(row, entries) })),
        None => true,
    }
}

/// The state of a string pool that queries change: its entries and
/// whether it was modified.
pub open spec fn pool_state(p: StringPool) -> (Seq<(Seq<char>, u16)>, bool) {
    (p.entries(), p.spec_is_modified())
}

/// The pool state after dropping the first `n` references of a row, or
/// `None` when one of them is not to an entry in use.
pub open spec fn after_removing(row: Seq<ValueRef>, n: int, state: (Seq<(Seq<char>, u16)>, bool)) -> Option<
    (Seq<(Seq<char>, u16)>, bool),
>
    decreases n,
{
    if n <= 0 {
        Some(state)
    } else {
        match after_removing(row, n - 1, state) {
            None => None,
            Some(s) => if can_remove(row[n - 1], s.0) {
                Some((entries_after_remove(row[n - 1], s.0), s.1 || row[n - 1] is Str))
            } else {
                None
            },
        }
    }
}

/// The rows kept and the pool state after deleting, among the first `n`
/// rows, those that match the condition (dropping their references), or
/// `None` when a reference cannot be dropped.
pub open spec fn delete_upto(
    c: Option<AstView>,
    t: TableView,
    rows: Seq<Seq<ValueRef>>,
    state: (Seq<(Seq<char>, u16)>, bool),
    n: int,
) -> Option<(Seq<Seq<ValueRef>>, (Seq<(Seq<char>, u16)>, bool))>
    decreases n,
{
    if n <= 0 {
        Some((Seq::empty(), state))
    } else {
        match delete_upto(c, t, rows, state, n - 1) {
            None => None,
            Some((kept, s)) => if condition_holds(c, t, rows[n - 1], s.0) {
                match after_removing(rows[n - 1], rows[n - 1].len() as int, s) {
                    Some(s2) => Some((kept, s2)),
                    None => None,
                }
            } else {
                Some((kept.push(rows[n - 1]), s))
            },
        }
    }
}

/// Finds the first table with the given name.
pub fn find_table(tables: &[Rc<Table>], name: &str) -> (r: Option<usize>)
    ensures
        match table_index(tables_view(tables@), name@) {
            Some(i) => r matches Some(k) && k == i && is_first_table(tables_view(tables@), name@, i),
            None => r is None,
        },
{
    let ghost tv = tables_view(tables@);
    let mut i: usize = 0;
    while i < tables.len()
        invariant
            i <= tables@.len(),
            tv == tables_view(tables@),
            forall|k: int| 0 <= k < i ==> tv[k].name != name@,
        decreases tables@.len() - i,
    {
        if str_equal(tables[i].name(), name) {
            proof {
                assert(is_first_table(tv, name@, i as int));
                let c = choose|k: int| is_first_table(tv, name@, k);
                assert(is_first_table(tv, name@, c));
                if c < i {
                    assert(tv[c].name != name@);
                } else if c > i {
                    assert(tv[i as int].name != name@);
                }
            }
            return Some(i);
        }
        i = i + 1;
    }
    None
}

/// Finds the contents of the stream of the named table.
pub fn find_stream<'b>(streams: &'b [(String, Vec<u8>)], name: &str) -> (r: Option<&'b Vec<u8>>)
    ensures
        match stored_data(streams_view(streams@), name@) {
            Some(d) => r matches Some(v) && v@ == d,
            None => r is None,
        },
{
    let ghost sv = streams_view(streams@);
    let mut i: usize = 0;
    while i < streams.len()
        invariant
            i <= streams@.len(),
            sv == streams_view(streams@),
            forall|k: int| 0 <= k < i ==> sv[k].0 != name@,
        decreases streams@.len() - i,
    {
        if str_equal(streams[i].0.as_str(), name) {
            proof {
                assert(is_first_stream(sv, name@, i as int));
                let c = choose|k: int| is_first_stream(sv, name@, k);
                assert(is_first_stream(sv, name@, c));
                if c < i {
                    assert(sv[c].0 != name@);
                } else if c > i {
                    assert(sv[i as int].0 != name@);
                }
            }
            return Some(&streams[i].1);
        }
        i = i + 1;
    }
    None
}

/// Reads the rows of a table from the contents of its stream, if any.
pub fn load_rows(table: &Table, data: Option<&Vec<u8>>) -> (r: Vec<Vec<ValueRef>>)
    ensures
        rows_view(r@) == stored_rows(
            table@,
            match data {
                Some(d) => Some(d@),
                None => None,
            },
        ),
        forall|i: int| 0 <= i < r@.len() ==> #[trigger] r@[i]@.len() == table@.columns.len(),
{
    match data {
        Some(bytes) => table.read_rows(bytes.as_slice()),
        None => {
            let r: Vec<Vec<ValueRef>> = Vec::new();
            assert(rows_view(r@) =~= Seq::<Seq<ValueRef>>::empty());
            r
        },
    }
}

/// Checks that the table has every column that an expression refers to.
pub fn check_expr(table: &Table, expr: &Expr) -> (r: bool)
    ensures
        r == condition_columns_present(Some(expr@), table@.columns),
{
    let names = expr.column_names();
    let ghost nv = names_view(names@);
    let mut i: usize = 0;
    while i < names.len()
        invariant
            i <= names@.len(),
            nv == names_view(names@),
            nv.to_set() == ast_names(expr@),
            forall|k: int| 0 <= k < i ==> has_named(table@.columns, #[trigger] nv[k]),
        decreases names@.len() - i,
    {
        if !table.has_column(names[i]) {
            assert(nv.contains(nv[i as int]));
            assert(nv.to_set().contains(nv[i as int]));
            assert(nv[i as int] == names@[i as int]@);
            return false;
        }
        i = i + 1;
    }
    assert forall|n: Seq<char>| ast_names(expr@).contains(n) implies has_named(table@.columns, n) by {
        assert(nv.to_set().contains(n));
        let k = choose|k: int| 0 <= k < nv.len() && nv[k] == n;
        assert(has_named(table@.columns, nv[k]));
    }
    true
}

/// Checks that the table has every column that a condition refers to.
pub fn check_condition(table: &Table, condition: &Option<Expr>) -> (r: bool)
    ensures
        r == condition_columns_present(condition_view(*condition), table@.columns),
{
    match condition {
        None => true,
        Some(expr) => check_expr(table, expr),
    }
}

/// Looks up the values that references stand for.
pub fn ref_values(refs: &Vec<ValueRef>, string_pool: &StringPool) -> (r: Vec<Value>)
    ensures
        crate::table::values_view(r@) == refs_values(refs@, string_pool.entries()),
{
    let mut values: Vec<Value> = Vec::new();
    let mut k: usize = 0;
    while k < refs.len()
        invariant
            k <= refs@.len(),
            values@.len() == k,
            forall|a: int| 0 <= a < k ==> #[trigger] values@[a]@ == spec_to_value(refs@[a], string_pool.entries()),
        decreases refs@.len() - k,
    {
        values.push(refs[k].to_value(string_pool));
        k = k + 1;
    }
    assert(crate::table::values_view(values@) =~= refs_values(refs@, string_pool.entries()));
    values
}

/// Evaluates an expression on a row of the table, as a condition.
pub fn expr_holds(expr: &Expr, table: &Rc<Table>, refs: &Vec<ValueRef>, string_pool: &StringPool) -> (r: bool)
    requires
        condition_columns_present(Some(expr@), (**table)@.columns),
        refs@.len() == (**table)@.columns.len(),
    ensures
        r == condition_holds(Some(expr@), (**table)@, refs@, string_pool.entries()),
{
    let values = ref_values(refs, string_pool);
    assert(crate::table::values_view(values@).len() == values@.len());
    let row = Row::new(share(table), values);
    proof {
        crate::expr::lemma_present_evaluable(expr@, row@);
    }
    expr.eval(&row).to_bool()
}

/// Evaluates a condition on a row of the table.
pub fn matches_condition(
    condition: &Option<Expr>,
    table: &Rc<Table>,
    refs: &Vec<ValueRef>,
    string_pool: &StringPool,
) -> (r: bool)
    requires
        condition_columns_present(condition_view(*condition), (**table)@.columns),
        refs@.len() == (**table)@.columns.len(),
    ensures
        r == condition_holds(condition_view(*condition), (**table)@, refs@, string_pool.entries()),
{
    match condition {
        None => true,
        Some(expr) => expr_holds(expr, table, refs, string_pool),
    }
}

/// Copies a row of references.
pub fn copy_refs(refs: &Vec<ValueRef>) -> (r: Vec<ValueRef>)
    ensures
        r@ == refs@,
{
    let mut out: Vec<ValueRef> = Vec::new();
    let mut k: usize = 0;
    while k < refs.len()
        invariant
            k <= refs@.len(),
            out@ == refs@.take(k as int),
        decreases refs@.len() - k,
    {
        out.push(refs[k]);
        assert(refs@.take(k + 1) =~= refs@.take(k as int).push(refs@[k as int]));
        k = k + 1;
    }
    assert(refs@.take(k as int) =~= refs@);
    out
}

/// Drops the references of a row from the pool.  Returns false when one of
/// them is not to an entry in use; the pool is then partly changed.
pub fn remove_row(refs: &Vec<ValueRef>, string_pool: &mut StringPool) -> (r: bool)
    requires
        old(string_pool).wf(),
    ensures
        final(string_pool).wf(),
        final(string_pool).spec_codepage() == old(string_pool).spec_codepage(),
        final(string_pool).spec_long_string_refs() == old(string_pool).spec_long_string_refs(),
        r == after_removing(refs@, refs@.len() as int, pool_state(*old(string_pool))) is Some,
        r ==> after_removing(refs@, refs@.len() as int, pool_state(*old(string_pool))) == Some(
            pool_state(*final(string_pool)),
        ),
{
    let ghost start = pool_state(*string_pool);
    let mut k: usize = 0;
    while k < refs.len()
        invariant
            k <= refs@.len(),
            string_pool.wf(),
            string_pool.spec_codepage() == old(string_pool).spec_codepage(),
            string_pool.spec_long_string_refs() == old(string_pool).spec_long_string_refs(),
            start == pool_state(*old(string_pool)),
            after_removing(refs@, k as int, start) == Some(pool_state(*string_pool)),
        decreases refs@.len() - k,
    {
        let value_ref = refs[k];
        let removable = match value_ref {
            ValueRef::Str(string_ref) => string_pool.refcount(string_ref) >= 1,
            _ => true,
        };
        if !removable {
            proof {
                lemma_removing_stays_stuck(refs@, k as int + 1, refs@.len() as int, start);
            }
            return false;
        }
        value_ref.remove(string_pool);
        k = k + 1;
    }
    true
}

/// Once a reference cannot be dropped, no longer prefix of the row can be.
proof fn lemma_removing_stays_stuck(
    row: Seq<ValueRef>,
    k: int,
    n: int,
    state: (Seq<(Seq<char>, u16)>, bool),
)
    requires
        0 < k <= n,
        after_removing(row, k, state) is None,
    ensures
        after_removing(row, n, state) is None,
    decreases n - k,
{
    if k < n {
        lemma_removing_stays_stuck(row, k + 1, n, state);
    }
}

/// What a query that changes one table yields: the new contents of the
/// table's stream and the new pool state, or the kind of error it fails
/// with.
pub type TableChange = Result<(Seq<u8>, (Seq<(Seq<char>, u16)>, bool)), ErrorKind>;

/// The condition after adding a restriction: both must hold.
pub open spec fn and_condition(c: Option<AstView>, more: AstView) -> Option<AstView> {
    match c {
        Some(e) => Some(AstView::And(Box::new(e), Box::new(more))),
        None => Some(more),
    }
}

/// The text of an optional condition: ` WHERE ` and the expression, or
/// nothing.
pub open spec fn where_text(c: Option<AstView>) -> Seq<char> {
    match c {
        Some(e) => " WHERE "@ + format_ast(e, 0),
        None => Seq::empty(),
    }
}

/// The mathematical model of a [`Delete`] query.
pub struct DeleteView {
    /// The table to delete rows from.
    pub table_name: Seq<char>,
    /// The condition that the rows to delete match, if any.
    pub condition: Option<AstView>,
}

/// What running a delete query gives: the table's stream without the rows
/// that match the condition, and the pool without their references.
pub open spec fn delete_result(
    q: DeleteView,
    tables: Seq<TableView>,
    streams: Seq<(Seq<char>, Seq<u8>)>,
    state: (Seq<(Seq<char>, u16)>, bool),
) -> TableChange {
    match table_index(tables, q.table_name) {
        None => Err(ErrorKind::NotFound),
        Some(i) => {
            let t = tables[i];
            if !condition_columns_present(q.condition, t.columns) {
                Err(ErrorKind::InvalidInput)
            } else {
                let rows = stored_rows(t, stored_data(streams, t.name));
                match delete_upto(q.condition, t, rows, state, rows.len() as int) {
                    None => Err(ErrorKind::InvalidData),
                    Some((kept, s)) => if all_writable(t.columns, t.long_string_refs, kept) {
                        Ok((table_bytes(t.columns, t.long_string_refs, kept), s))
                    } else {
                        Err(ErrorKind::InvalidInput)
                    },
                }
            }
        },
    }
}

/// A database query to delete existing rows.
pub struct Delete {
    table_name: String,
    condition: Option<Expr>,
}

impl View for Delete {
    type V = DeleteView;

    closed spec fn view(&self) -> DeleteView {
        DeleteView { table_name: self.table_name@, condition: condition_view(self.condition) }
    }
}

/// Once a reference cannot be dropped, deleting more rows fails too.
proof fn lemma_delete_stays_stuck(
    c: Option<AstView>,
    t: TableView,
    rows: Seq<Seq<ValueRef>>,
    state: (Seq<(Seq<char>, u16)>, bool),
    k: int,
    n: int,
)
    requires
        0 < k <= n,
        delete_upto(c, t, rows, state, k) is None,
    ensures
        delete_upto(c, t, rows, state, n) is None,
    decreases n - k,
{
    if k < n {
        lemma_delete_stays_stuck(c, t, rows, state, k + 1, n);
    }
}

/// The message of the error about a table that is not there.
pub open spec fn no_table_message(name: Seq<char>) -> Seq<char> {
    "Table "@ + crate::value::debug_quoted(name) + " does not exist"@
}

/// An error about a table that is not there.
fn no_such_table(name: &str) -> (r: Error)
    ensures
        r.kind == ErrorKind::NotFound,
        r.message@ == no_table_message(name@),
{
    let quoted = crate::value::debug_text(name);
    Error::new(ErrorKind::NotFound, crate::text::concat3("Table ", quoted.as_str(), " does not exist"))
}

/// The debugging text of a value: its variant, with the number or the
/// quoted string in parentheses.
pub open spec fn value_debug_text(v: ValueView) -> Seq<char> {
    match v {
        ValueView::Null => "Null"@,
        ValueView::Int(n) => "Int("@ + crate::text::int_text(n as int) + ")"@,
        ValueView::Str(s) => "Str("@ + crate::value::debug_quoted(s) + ")"@,
        ValueView::Binary => "Binary"@,
    }
}

/// The debugging texts of the first `n` values, separated by commas.
pub open spec fn values_debug_text(key: Seq<ValueView>, n: int) -> Seq<char>
    decreases n,
{
    if n <= 0 {
        Seq::empty()
    } else if n == 1 {
        value_debug_text(key[0])
    } else {
        values_debug_text(key, n - 1) + ", "@ + value_debug_text(key[n - 1])
    }
}

/// The debugging text of a key: its values in brackets.
pub open spec fn key_debug_text(key: Seq<ValueView>) -> Seq<char> {
    "["@ + values_debug_text(key, key.len() as int) + "]"@
}

/// Whether stored row `i` is the first whose key an earlier row has.
pub open spec fn is_first_repeated_row(
    rows: Seq<Seq<ValueRef>>,
    key_indices: Seq<usize>,
    entries: Seq<(Seq<char>, u16)>,
    i: int,
) -> bool {
    &&& 0 <= i < rows.len()
    &&& sorted_rows(rows, key_indices, entries, i) is Some
    &&& sorted_rows(rows, key_indices, entries, i + 1) is None
}

/// The message of the error about a stored table with two rows of one key.
pub open spec fn malformed_message(
    table_name: Seq<char>,
    rows: Seq<Seq<ValueRef>>,
    key_indices: Seq<usize>,
    entries: Seq<(Seq<char>, u16)>,
) -> Seq<char> {
    let i = choose|i: int| is_first_repeated_row(rows, key_indices, entries, i);
    "Malformed table "@ + crate::value::debug_quoted(table_name) + " contains multiple rows with key "@
        + key_debug_text(refs_key(rows[i], key_indices, entries))
}

/// Whether new row `k` is the first whose key conflicts.
pub open spec fn is_first_conflict(
    new_rows: Seq<Seq<ValueView>>,
    key_indices: Seq<usize>,
    stored: Seq<KeyedRow>,
    k: int,
) -> bool {
    &&& 0 <= k < new_rows.len()
    &&& key_conflict(new_rows, key_indices, stored, k) is None
    &&& key_conflict(new_rows, key_indices, stored, k + 1) is Some
}

/// The message of the error about the first new row whose key conflicts:
/// with a stored row, or with an earlier new row.
pub open spec fn conflict_message(
    table_name: Seq<char>,
    new_rows: Seq<Seq<ValueView>>,
    key_indices: Seq<usize>,
    stored: Seq<KeyedRow>,
) -> Seq<char> {
    let k = choose|k: int| is_first_conflict(new_rows, key_indices, stored, k);
    let key = values_key(new_rows[k], key_indices);
    if has_key(stored, key) {
        "Table "@ + crate::value::debug_quoted(table_name) + " already contains a row with key "@ + key_debug_text(key)
    } else {
        "Cannot insert multiple rows with key "@ + key_debug_text(key)
    }
}

/// The first new row whose key conflicts is the one that `choose` finds.
proof fn lemma_first_conflict(new_rows: Seq<Seq<ValueView>>, key_indices: Seq<usize>, stored: Seq<KeyedRow>, k: int)
    requires
        is_first_conflict(new_rows, key_indices, stored, k),
    ensures
        (choose|c: int| is_first_conflict(new_rows, key_indices, stored, c)) == k,
{
    let c = choose|c: int| is_first_conflict(new_rows, key_indices, stored, c);
    if c < k {
        lemma_key_conflict_stays(new_rows, key_indices, stored, c + 1, k);
    } else if c > k {
        lemma_key_conflict_stays(new_rows, key_indices, stored, k + 1, c);
    }
}

/// Writes the debugging text of a key.
fn key_text(key: &Vec<Value>) -> (r: String)
    ensures
        r@ == key_debug_text(values_view(key@)),
{
    let ghost kv = values_view(key@);
    let mut out: Vec<char> = Vec::new();
    let mut i: usize = 0;
    while i < key.len()
        invariant
            i <= key@.len(),
            kv == values_view(key@),
            out@ == values_debug_text(kv, i as int),
        decreases key@.len() - i,
    {
        if i > 0 {
            crate::text::append_str(&mut out, ", ");
        }
        let text = match &key[i] {
            Value::Null => "Null".to_owned(),
            Value::Int(n) => {
                let digits = crate::text::int_to_string(*n as i64);
                crate::text::concat3("Int(", digits.as_str(), ")")
            },
            Value::Str(s) => {
                let quoted = crate::value::debug_text(s.as_str());
                crate::text::concat3("Str(", quoted.as_str(), ")")
            },
            Value::Binary => "Binary".to_owned(),
        };
        assert(text@ == value_debug_text(kv[i as int]));
        crate::text::append_str(&mut out, text.as_str());
        i = i + 1;
    }
    let inner = string_from_chars(out.as_slice());
    crate::text::concat3("[", inner.as_str(), "]")
}

/// Whether name `k` is the first of the names that the columns lack.
pub open spec fn is_first_missing_name(names: Seq<Seq<char>>, cols: Seq<ColumnView>, k: int) -> bool {
    &&& 0 <= k < names.len()
    &&& !has_named(cols, names[k])
    &&& forall|m: int| 0 <= m < k ==> has_named(cols, #[trigger] names[m])
}

/// The message of the error about a column that a table lacks.
pub open spec fn no_column_message(table_name: Seq<char>, column_name: Seq<char>) -> Seq<char> {
    "Table "@ + crate::value::debug_quoted(table_name) + " has no column named "@ + crate::value::debug_quoted(
        column_name,
    )
}

/// Whether a message names a column that the condition refers to and the
/// columns lack.
pub open spec fn names_missing_column(
    table_name: Seq<char>,
    c: Option<AstView>,
    cols: Seq<ColumnView>,
    message: Seq<char>,
) -> bool {
    match c {
        Some(e) => exists|n: Seq<char>|
            #[trigger] ast_names(e).contains(n) && !has_named(cols, n) && message == no_column_message(table_name, n),
        None => false,
    }
}

/// An error about a column that a table lacks.
fn no_column(table_name: &str, column_name: &str) -> (r: Error)
    ensures
        r.kind == ErrorKind::InvalidInput,
        r.message@ == no_column_message(table_name@, column_name@),
{
    let table = crate::value::debug_text(table_name);
    let column = crate::value::debug_text(column_name);
    let message = crate::text::concat3("Table ", table.as_str(), " has no column named ");
    Error::new(ErrorKind::InvalidInput, crate::text::concat2(message.as_str(), column.as_str()))
}

/// A column that the condition refers to and the table lacks, if any.
fn missing_condition_name(table: &Table, condition: &Option<Expr>) -> (r: Option<String>)
    ensures
        r is None <==> condition_columns_present(condition_view(*condition), table@.columns),
        r matches Some(n) ==> condition_view(*condition) matches Some(e) && ast_names(e).contains(n@)
            && !has_named(table@.columns, n@),
{
    match condition {
        None => None,
        Some(expr) => {
            let names = expr.column_names();
            let ghost nv = names_view(names@);
            let mut i: usize = 0;
            while i < names.len()
                invariant
                    i <= names@.len(),
                    nv == names_view(names@),
                    nv.to_set() == ast_names(expr@),
                    condition_view(*condition) == Some(expr@),
                    forall|k: int| 0 <= k < i ==> has_named(table@.columns, #[trigger] nv[k]),
                decreases names@.len() - i,
            {
                if !table.has_column(names[i]) {
                    assert(nv.contains(nv[i as int]));
                    assert(nv.to_set().contains(nv[i as int]));
                    assert(nv[i as int] == names@[i as int]@);
                    assert(condition_view(*condition) == Some(expr@));
                    assert(!has_named(table@.columns, nv[i as int]));
                    let owned = names[i].to_owned();
                    assert(owned@ == nv[i as int]);
                    assert(ast_names(expr@).contains(owned@));
                    return Some(owned);
                }
                i = i + 1;
            }
            assert forall|n: Seq<char>| ast_names(expr@).contains(n) implies has_named(table@.columns, n) by {
                assert(nv.to_set().contains(n));
                let k = choose|k: int| 0 <= k < nv.len() && nv[k] == n;
                assert(has_named(table@.columns, nv[k]));
            }
            None
        },
    }
}

impl Delete {
    /// Returns the name of the table that the query changes.
    pub fn table_name(&self) -> (r: &str)
        ensures
            r@ == self@.table_name,
    {
        self.table_name.as_str()
    }

    /// Starts building a query that will delete rows from the specified table.
    pub fn from(table_name: &str) -> (r: Delete)
        ensures
            r@ == (DeleteView { table_name: table_name@, condition: None }),
    {
        Delete { table_name: table_name.to_owned(), condition: None }
    }

    /// Adds a restriction on which rows should be deleted by the query; only
    /// rows that match the given boolean expression will be deleted.  (This
    /// method would have been called `where()`, to better match SQL, but
    /// `where` is a reserved word in Rust.)
    pub fn with(self, condition: Expr) -> (r: Delete)
        ensures
            r@ == (DeleteView { condition: and_condition(self@.condition, condition@), ..self@ }),
    {
        let mut q = self;
        q.condition = match q.condition {
            Some(expr) => Some(expr.and(condition)),
            None => Some(condition),
        };
        q
    }

    /// Returns the text of the query (what `Display` writes).
    pub fn to_string(&self) -> (r: String)
        ensures
            r@ == "DELETE FROM "@ + self@.table_name + where_text(self@.condition),
    {
        let mut out: Vec<char> = Vec::new();
        append_str(&mut out, "DELETE FROM ");
        append_str(&mut out, self.table_name.as_str());
        append_condition(&mut out, &self.condition);
        string_from_chars(out.as_slice())
    }

    /// Runs the query on the package's tables, the contents of their
    /// streams and the string pool.  Gives back the new contents of the
    /// table's stream; the pool loses the references of the deleted rows.
    /// Fails with `NotFound` when the table does not exist, with
    /// `InvalidInput` when the condition refers to a column that the table
    /// lacks, and with `InvalidData` when a deleted row refers to a string
    /// the pool does not hold; the pool is then unchanged.
    pub fn exec(self, string_pool: &mut StringPool, tables: &[Rc<Table>], streams: &[(String, Vec<u8>)]) -> (r:
        Result<Vec<u8>, Error>)
        requires
            old(string_pool).wf(),
        ensures
            final(string_pool).wf(),
            final(string_pool).spec_codepage() == old(string_pool).spec_codepage(),
            final(string_pool).spec_long_string_refs() == old(string_pool).spec_long_string_refs(),
            match delete_result(self@, tables_view(tables@), streams_view(streams@), pool_state(*old(string_pool))) {
                Ok((bytes, s)) => r matches Ok(b) && b@ == bytes && pool_state(*final(string_pool)) == s,
                Err(kind) => r matches Err(e) && e.kind == kind && pool_state(*final(string_pool))
                    == pool_state(*old(string_pool)),
            },
            table_index(tables_view(tables@), self@.table_name) is None ==> (r matches Err(e) && e.message@
                == no_table_message(self@.table_name)),
            match table_index(tables_view(tables@), self@.table_name) {
                Some(i) => !condition_columns_present(self@.condition, tables_view(tables@)[i].columns) ==> (r matches Err(
                    e,
                ) && names_missing_column(
                    self@.table_name,
                    self@.condition,
                    tables_view(tables@)[i].columns,
                    e.message@,
                )),
                None => true,
            },
    {
        let ghost tv = tables_view(tables@);
        let ghost q = self@;
        let index = match find_table(tables, self.table_name.as_str()) {
            Some(index) => index,
            None => {
                return Err(no_such_table(self.table_name.as_str()));
            },
        };
        let table = &tables[index];
        let ghost t = (**table)@;
        assert(t == tv[index as int]);
        match missing_condition_name(table, &self.condition) {
            Some(column) => {
                return Err(no_column(self.table_name.as_str(), column.as_str()));
            },
            None => {},
        }
        let rows = load_rows(table, find_stream(streams, table.name()));
        let ghost rv = rows_view(rows@);
        let ghost start = pool_state(*string_pool);
        let mut pool = string_pool.duplicate();
        let mut kept: Vec<Vec<ValueRef>> = Vec::new();
        assert(rows_view(kept@) =~= Seq::<Seq<ValueRef>>::empty());
        let mut i: usize = 0;
        while i < rows.len()
            invariant
                string_pool.wf(),
                *string_pool == *old(string_pool),
                start == pool_state(*old(string_pool)),
                q == self@,
                tv == tables_view(tables@),
                table_index(tv, q.table_name) == Some(index as int),
                t == tv[index as int],
                rv == stored_rows(t, stored_data(streams_view(streams@), t.name)),
                i <= rows@.len(),
                rv == rows_view(rows@),
                t == (**table)@,
                forall|k: int| 0 <= k < rows@.len() ==> #[trigger] rows@[k]@.len() == t.columns.len(),
                forall|k: int| 0 <= k < kept@.len() ==> #[trigger] kept@[k]@.len() == t.columns.len(),
                condition_columns_present(q.condition, t.columns),
                q.condition == condition_view(self.condition),
                pool.wf(),
                pool.spec_codepage() == string_pool.spec_codepage(),
                pool.spec_long_string_refs() == string_pool.spec_long_string_refs(),
                delete_upto(q.condition, t, rv, start, i as int) == Some((rows_view(kept@), pool_state(pool))),
            decreases rows@.len() - i,
        {
            let hit = matches_condition(&self.condition, table, &rows[i], &pool);
            if hit {
                if !remove_row(&rows[i], &mut pool) {
                    proof {
                        lemma_delete_stays_stuck(q.condition, t, rv, start, i as int + 1, rv.len() as int);
                    }
                    return Err(Error::with_text(ErrorKind::InvalidData, "string refcount is already zero"));
                }
            } else {
                let ghost before = kept@;
                kept.push(copy_refs(&rows[i]));
                assert(rows_view(kept@) =~= rows_view(before).push(rv[i as int]));
            }
            i = i + 1;
        }
        match table.write_rows(&kept) {
            Ok(bytes) => {
                *string_pool = pool;
                Ok(bytes)
            },
            Err(e) => Err(e),
        }
    }
}

/// Appends the text of an optional condition.
fn append_condition(out: &mut Vec<char>, condition: &Option<Expr>)
    ensures
        final(out)@ == old(out)@ + where_text(condition_view(*condition)),
{
    match condition {
        Some(expr) => {
            let ghost before = out@;
            append_str(out, " WHERE ");
            append_str(out, expr.to_string().as_str());
            proof {
                reveal_strlit(" WHERE ");
            }
            assert(out@ =~= before + where_text(condition_view(*condition)));
        },
        None => {
            assert(out@ =~= old(out)@ + where_text(condition_view(*condition)));
        },
    }
}

/// The reference that interning a value gives, and the pool state after.
pub open spec fn created_ref(v: ValueView, state: (Seq<(Seq<char>, u16)>, bool)) -> (
    ValueRef,
    (Seq<(Seq<char>, u16)>, bool),
) {
    match v {
        ValueView::Str(text) => {
            let (entries, k) = spec_incref(state.0, text);
            (ValueRef::Str(choose|sr: StringRef| sr.spec_number() == k + 1), (entries, true))
        },
        ValueView::Null => (ValueRef::Null, state),
        ValueView::Int(n) => (ValueRef::Int(n), state),
        ValueView::Binary => (ValueRef::Binary, state),
    }
}

/// Whether every update names a column of the table and gives a value that
/// the column accepts.
pub open spec fn updates_valid(updates: Seq<(Seq<char>, ValueView)>, cols: Seq<ColumnView>) -> bool {
    forall|k: int|
        0 <= k < updates.len() ==> {
            &&& has_named(cols, #[trigger] updates[k].0)
            &&& column_index(cols, updates[k].0) matches Some(i) && spec_is_valid_value(cols[i], updates[k].1)
        }
}

/// A row and the pool state after applying the first `n` updates to it:
/// each drops the reference in its column and interns the new value.
/// Fails with `InvalidData` when a reference to drop is not to an entry in
/// use, and with `InvalidInput` when the pool has no room for a string.
pub open spec fn update_row(
    updates: Seq<(Seq<char>, ValueView)>,
    cols: Seq<ColumnView>,
    row: Seq<ValueRef>,
    state: (Seq<(Seq<char>, u16)>, bool),
    long_string_refs: bool,
    n: int,
) -> Result<(Seq<ValueRef>, (Seq<(Seq<char>, u16)>, bool)), ErrorKind>
    decreases n,
{
    if n <= 0 {
        Ok((row, state))
    } else {
        match update_row(updates, cols, row, state, long_string_refs, n - 1) {
            Err(kind) => Err(kind),
            Ok((r, s)) => {
                let idx = match column_index(cols, updates[n - 1].0) {
                    Some(i) => i,
                    None => 0,
                };
                let old_ref = r[idx];
                if !can_remove(old_ref, s.0) {
                    Err(ErrorKind::InvalidData)
                } else {
                    let s1 = (entries_after_remove(old_ref, s.0), s.1 || old_ref is Str);
                    if !can_create(updates[n - 1].1, s1.0, long_string_refs) {
                        Err(ErrorKind::InvalidInput)
                    } else {
                        let (new_ref, s2) = created_ref(updates[n - 1].1, s1);
                        Ok((r.update(idx, new_ref), s2))
                    }
                }
            },
        }
    }
}

/// The rows and the pool state after updating, among the first `n` rows,
/// those that match the condition.
pub open spec fn update_upto(
    q: UpdateView,
    t: TableView,
    rows: Seq<Seq<ValueRef>>,
    state: (Seq<(Seq<char>, u16)>, bool),
    long_string_refs: bool,
    n: int,
) -> Result<(Seq<Seq<ValueRef>>, (Seq<(Seq<char>, u16)>, bool)), ErrorKind>
    decreases n,
{
    if n <= 0 {
        Ok((Seq::empty(), state))
    } else {
        match update_upto(q, t, rows, state, long_string_refs, n - 1) {
            Err(kind) => Err(kind),
            Ok((done, s)) => if condition_holds(q.condition, t, rows[n - 1], s.0) {
                match update_row(q.updates, t.columns, rows[n - 1], s, long_string_refs, q.updates.len() as int) {
                    Err(kind) => Err(kind),
                    Ok((r, s2)) => Ok((done.push(r), s2)),
                }
            } else {
                Ok((done.push(rows[n - 1]), s))
            },
        }
    }
}

/// The mathematical model of an [`Update`] query.
pub struct UpdateView {
    /// The table to update rows in.
    pub table_name: Seq<char>,
    /// The columns to set, with their new values, in order.
    pub updates: Seq<(Seq<char>, ValueView)>,
    /// The condition that the rows to update match, if any.
    pub condition: Option<AstView>,
}

/// What running an update query gives: the table's stream with the
/// matching rows updated, and the pool with their old references dropped
/// and their new values interned.
pub open spec fn update_result(
    q: UpdateView,
    tables: Seq<TableView>,
    streams: Seq<(Seq<char>, Seq<u8>)>,
    state: (Seq<(Seq<char>, u16)>, bool),
    long_string_refs: bool,
) -> TableChange {
    match table_index(tables, q.table_name) {
        None => Err(ErrorKind::NotFound),
        Some(i) => {
            let t = tables[i];
            if !updates_valid(q.updates, t.columns) {
                Err(ErrorKind::InvalidInput)
            } else if !condition_columns_present(q.condition, t.columns) {
                Err(ErrorKind::InvalidInput)
            } else {
                let rows = stored_rows(t, stored_data(streams, t.name));
                match update_upto(q, t, rows, state, long_string_refs, rows.len() as int) {
                    Err(kind) => Err(kind),
                    Ok((updated, s)) => if all_writable(t.columns, t.long_string_refs, updated) {
                        Ok((table_bytes(t.columns, t.long_string_refs, updated), s))
                    } else {
                        Err(ErrorKind::InvalidInput)
                    },
                }
            }
        },
    }
}

/// The models of a list of updates.
pub open spec fn updates_view(u: Seq<(String, Value)>) -> Seq<(Seq<char>, ValueView)> {
    u.map_values(|x: (String, Value)| (x.0@, x.1@))
}

/// The text of the first `n` updates: `name = value`, separated by commas.
pub open spec fn updates_text(u: Seq<(Seq<char>, ValueView)>, n: int) -> Seq<char>
    decreases n,
{
    if n <= 0 {
        Seq::empty()
    } else if n == 1 {
        u[0].0 + " = "@ + value_text(u[0].1)
    } else {
        updates_text(u, n - 1) + ", "@ + u[n - 1].0 + " = "@ + value_text(u[n - 1].1)
    }
}

/// A database query to update existing rows.
pub struct Update {
    table_name: String,
    updates: Vec<(String, Value)>,
    condition: Option<Expr>,
}

impl View for Update {
    type V = UpdateView;

    closed spec fn view(&self) -> UpdateView {
        UpdateView {
            table_name: self.table_name@,
            updates: updates_view(self.updates@),
            condition: condition_view(self.condition),
        }
    }
}

/// Checks that every update names a column of the table and gives a value
/// that the column accepts.
/// Whether update `k` names a column of the table and gives a value that
/// the column accepts.
pub open spec fn update_fits(u: (Seq<char>, ValueView), cols: Seq<ColumnView>) -> bool {
    &&& has_named(cols, u.0)
    &&& column_index(cols, u.0) matches Some(i) && spec_is_valid_value(cols[i], u.1)
}

/// Whether update `k` is the first that does not fit the table.
pub open spec fn is_first_bad_update(updates: Seq<(Seq<char>, ValueView)>, cols: Seq<ColumnView>, k: int) -> bool {
    &&& 0 <= k < updates.len()
    &&& !update_fits(updates[k], cols)
    &&& forall|m: int| 0 <= m < k ==> update_fits(#[trigger] updates[m], cols)
}

/// The message of the error about the first update that does not fit: the
/// column it names is missing, or the column does not accept its value.
pub open spec fn update_message(
    table_name: Seq<char>,
    updates: Seq<(Seq<char>, ValueView)>,
    cols: Seq<ColumnView>,
) -> Seq<char> {
    let k = choose|k: int| is_first_bad_update(updates, cols, k);
    if !has_named(cols, updates[k].0) {
        no_column_message(table_name, updates[k].0)
    } else {
        invalid_value_message(updates[k].1, updates[k].0)
    }
}

/// The error about the first update that does not fit the table, or `None`
/// when every update fits.
fn check_updates(table: &Table, table_name: &str, updates: &Vec<(String, Value)>) -> (r: Option<Error>)
    ensures
        r is None <==> updates_valid(updates_view(updates@), table@.columns),
        r matches Some(e) ==> e.kind == ErrorKind::InvalidInput && e.message@ == update_message(
            table_name@,
            updates_view(updates@),
            table@.columns,
        ),
{
    let ghost uv = updates_view(updates@);
    let ghost cols = table@.columns;
    let mut k: usize = 0;
    while k < updates.len()
        invariant
            k <= updates@.len(),
            uv == updates_view(updates@),
            cols == table@.columns,
            forall|j: int| 0 <= j < k ==> update_fits(#[trigger] uv[j], cols),
        decreases updates@.len() - k,
    {
        let name = updates[k].0.as_str();
        assert(uv[k as int] == (updates@[k as int].0@, updates@[k as int].1@));
        let fits = match table.get_column(name) {
            Some(column) => column.is_valid_value(&updates[k].1),
            None => false,
        };
        if !fits {
            proof {
                assert(!update_fits(uv[k as int], cols));
                assert(is_first_bad_update(uv, cols, k as int));
                let c = choose|c: int| is_first_bad_update(uv, cols, c);
                if c < k {
                    assert(update_fits(uv[c], cols));
                } else if c > k {
                    assert(update_fits(uv[k as int], cols));
                }
            }
            if table.has_column(name) {
                let text = updates[k].1.to_string();
                let quoted = crate::value::debug_text(name);
                let message = crate::text::concat3(text.as_str(), " is not a valid value for column ", quoted.as_str());
                return Some(Error::new(ErrorKind::InvalidInput, message));
            } else {
                return Some(no_column(table_name, name));
            }
        }
        proof {
            assert(update_fits(uv[k as int], cols));
        }
        k = k + 1;
    }
    proof {
        assert forall|j: int| 0 <= j < uv.len() implies {
            &&& has_named(cols, #[trigger] uv[j].0)
            &&& column_index(cols, uv[j].0) matches Some(i) && spec_is_valid_value(cols[i], uv[j].1)
        } by {
            assert(update_fits(uv[j], cols));
        }
    }
    None
}

/// Applies the updates to a row.
fn apply_updates(
    updates: &Vec<(String, Value)>,
    table: &Table,
    refs: &Vec<ValueRef>,
    string_pool: &mut StringPool,
) -> (r: Result<Vec<ValueRef>, Error>)
    requires
        old(string_pool).wf(),
        updates_valid(updates_view(updates@), table@.columns),
        refs@.len() == table@.columns.len(),
    ensures
        final(string_pool).wf(),
        final(string_pool).spec_codepage() == old(string_pool).spec_codepage(),
        final(string_pool).spec_long_string_refs() == old(string_pool).spec_long_string_refs(),
        match update_row(
            updates_view(updates@),
            table@.columns,
            refs@,
            pool_state(*old(string_pool)),
            old(string_pool).spec_long_string_refs(),
            updates@.len() as int,
        ) {
            Ok((row, s)) => r matches Ok(v) && v@ == row && pool_state(*final(string_pool)) == s,
            Err(kind) => r matches Err(e) && e.kind == kind,
        },
{
    let ghost uv = updates_view(updates@);
    let ghost cols = table@.columns;
    let ghost start = pool_state(*string_pool);
    let ghost lsr = string_pool.spec_long_string_refs();
    let mut row = copy_refs(refs);
    let mut k: usize = 0;
    while k < updates.len()
        invariant
            k <= updates@.len(),
            uv == updates_view(updates@),
            cols == table@.columns,
            updates_valid(uv, cols),
            row@.len() == cols.len(),
            string_pool.wf(),
            string_pool.spec_codepage() == old(string_pool).spec_codepage(),
            string_pool.spec_long_string_refs() == lsr,
            lsr == old(string_pool).spec_long_string_refs(),
            start == pool_state(*old(string_pool)),
            update_row(uv, cols, refs@, start, lsr, k as int) == Ok::<_, ErrorKind>((row@, pool_state(*string_pool))),
        decreases updates@.len() - k,
    {
        assert(has_named(cols, uv[k as int].0));
        let index = match table.index_for_column_name(updates[k].0.as_str()) {
            Some(index) => index,
            None => {
                assert(false);
                0
            },
        };
        let old_ref = row[index];
        let removable = match old_ref {
            ValueRef::Str(string_ref) => string_pool.refcount(string_ref) >= 1,
            _ => true,
        };
        if !removable {
            proof {
                lemma_update_row_stays_failed(uv, cols, refs@, start, lsr, k as int + 1, uv.len() as int);
            }
            return Err(Error::with_text(ErrorKind::InvalidData, "string refcount is already zero"));
        }
        old_ref.remove(string_pool);
        let fits = match &updates[k].1 {
            Value::Str(text) => string_pool.can_intern(text.as_str()),
            _ => true,
        };
        if !fits {
            proof {
                lemma_update_row_stays_failed(uv, cols, refs@, start, lsr, k as int + 1, uv.len() as int);
            }
            return Err(Error::with_text(ErrorKind::InvalidInput, "Too many strings in the string pool"));
        }
        let ghost before = pool_state(*string_pool);
        let new_ref = ValueRef::create(updates[k].1.duplicate(), string_pool);
        proof {
            if let ValueRef::Str(sr) = new_ref {
                let chosen = choose|c: StringRef| c.spec_number() == sr.spec_number();
                assert(chosen.spec_number() == sr.spec_number());
                lemma_string_ref_number_injective(chosen, sr);
            }
        }
        row.set(index, new_ref);
        k = k + 1;
    }
    Ok(row)
}

/// Updating a row keeps its length.
proof fn lemma_update_row_len(
    updates: Seq<(Seq<char>, ValueView)>,
    cols: Seq<ColumnView>,
    row: Seq<ValueRef>,
    state: (Seq<(Seq<char>, u16)>, bool),
    long_string_refs: bool,
    n: int,
)
    requires
        row.len() == cols.len(),
        updates_valid(updates, cols),
        n <= updates.len(),
    ensures
        update_row(updates, cols, row, state, long_string_refs, n) matches Ok((r, _)) ==> r.len() == row.len(),
    decreases n,
{
    if n > 0 {
        lemma_update_row_len(updates, cols, row, state, long_string_refs, n - 1);
        assert(has_named(cols, updates[n - 1].0));
        crate::table::lemma_column_index_first(cols, updates[n - 1].0);
    }
}

/// Once applying an update fails, applying more fails too.
proof fn lemma_update_row_stays_failed(
    updates: Seq<(Seq<char>, ValueView)>,
    cols: Seq<ColumnView>,
    row: Seq<ValueRef>,
    state: (Seq<(Seq<char>, u16)>, bool),
    long_string_refs: bool,
    k: int,
    n: int,
)
    requires
        0 < k <= n,
        update_row(updates, cols, row, state, long_string_refs, k) is Err,
    ensures
        update_row(updates, cols, row, state, long_string_refs, n) == update_row(
            updates,
            cols,
            row,
            state,
            long_string_refs,
            k,
        ),
    decreases n - k,
{
    if k < n {
        lemma_update_row_stays_failed(updates, cols, row, state, long_string_refs, k + 1, n);
    }
}

/// Once updating a row fails, updating more rows fails the same way.
proof fn lemma_update_stays_failed(
    q: UpdateView,
    t: TableView,
    rows: Seq<Seq<ValueRef>>,
    state: (Seq<(Seq<char>, u16)>, bool),
    long_string_refs: bool,
    k: int,
    n: int,
)
    requires
        0 < k <= n,
        update_upto(q, t, rows, state, long_string_refs, k) is Err,
    ensures
        update_upto(q, t, rows, state, long_string_refs, n) == update_upto(q, t, rows, state, long_string_refs, k),
    decreases n - k,
{
    if k < n {
        lemma_update_stays_failed(q, t, rows, state, long_string_refs, k + 1, n);
    }
}

impl Update {
    /// Returns the name of the table that the query changes.
    pub fn table_name(&self) -> (r: &str)
        ensures
            r@ == self@.table_name,
    {
        self.table_name.as_str()
    }

    /// Starts building a query that will update rows in the specified table.
    pub fn table(table_name: &str) -> (r: Update)
        ensures
            r@ == (UpdateView { table_name: table_name@, updates: Seq::empty(), condition: None }),
    {
        let r = Update { table_name: table_name.to_owned(), updates: Vec::new(), condition: None };
        assert(updates_view(r.updates@) =~= Seq::empty());
        r
    }

    /// Adds a column value to be set by the query.
    pub fn set(self, column_name: &str, value: Value) -> (r: Update)
        ensures
            r@ == (UpdateView { updates: self@.updates.push((column_name@, value@)), ..self@ }),
    {
        let mut q = self;
        let ghost before = q.updates@;
        q.updates.push((column_name.to_owned(), value));
        assert(updates_view(q.updates@) =~= updates_view(before).push((column_name@, value@)));
        q
    }

    /// Adds a restriction on which rows should be updated by the query; only
    /// rows that match the given boolean expression will be updated.  (This
    /// method would have been called `where()`, to better match SQL, but
    /// `where` is a reserved word in Rust.)
    pub fn with(self, condition: Expr) -> (r: Update)
        ensures
            r@ == (UpdateView { condition: and_condition(self@.condition, condition@), ..self@ }),
    {
        let mut q = self;
        q.condition = match q.condition {
            Some(expr) => Some(expr.and(condition)),
            None => Some(condition),
        };
        q
    }

    /// Returns the text of the query (what `Display` writes).
    pub fn to_string(&self) -> (r: String)
        ensures
            r@ == "UPDATE "@ + self@.table_name + " SET "@ + updates_text(
                self@.updates,
                self@.updates.len() as int,
            ) + where_text(self@.condition),
    {
        let ghost uv = updates_view(self.updates@);
        let mut out: Vec<char> = Vec::new();
        append_str(&mut out, "UPDATE ");
        append_str(&mut out, self.table_name.as_str());
        append_str(&mut out, " SET ");
        let ghost prefix = out@;
        let mut k: usize = 0;
        while k < self.updates.len()
            invariant
                k <= self.updates@.len(),
                uv == updates_view(self.updates@),
                out@ == prefix + updates_text(uv, k as int),
            decreases self.updates@.len() - k,
        {
            let ghost before = out@;
            if k > 0 {
                append_str(&mut out, ", ");
            }
            append_str(&mut out, self.updates[k].0.as_str());
            append_str(&mut out, " = ");
            append_str(&mut out, self.updates[k].1.to_string().as_str());
            proof {
                reveal_strlit(", ");
                reveal_strlit(" = ");
                assert(uv[k as int] == (self.updates@[k as int].0@, self.updates@[k as int].1@));
            }
            assert(out@ =~= prefix + updates_text(uv, k + 1));
            k = k + 1;
        }
        append_condition(&mut out, &self.condition);
        proof {
            reveal_strlit("UPDATE ");
            reveal_strlit(" SET ");
        }
        assert(out@ =~= "UPDATE "@ + self@.table_name + " SET "@ + updates_text(uv, uv.len() as int)
            + where_text(self@.condition));
        string_from_chars(out.as_slice())
    }

    /// Runs the query on the package's tables, the contents of their
    /// streams and the string pool.  Gives back the new contents of the
    /// table's stream.  Fails with `NotFound` when the table does not
    /// exist; with `InvalidInput` when an update names a column the table
    /// lacks or gives a value the column does not accept, when the
    /// condition refers to a column the table lacks, or when the pool has no
    /// room for a string; and with `InvalidData` when an updated row refers
    /// to a string the pool does not hold.  The pool is unchanged on error.
    pub fn exec(self, string_pool: &mut StringPool, tables: &[Rc<Table>], streams: &[(String, Vec<u8>)]) -> (r:
        Result<Vec<u8>, Error>)
        requires
            old(string_pool).wf(),
        ensures
            final(string_pool).wf(),
            final(string_pool).spec_codepage() == old(string_pool).spec_codepage(),
            final(string_pool).spec_long_string_refs() == old(string_pool).spec_long_string_refs(),
            match update_result(
                self@,
                tables_view(tables@),
                streams_view(streams@),
                pool_state(*old(string_pool)),
                old(string_pool).spec_long_string_refs(),
            ) {
                Ok((bytes, s)) => r matches Ok(b) && b@ == bytes && pool_state(*final(string_pool)) == s,
                Err(kind) => r matches Err(e) && e.kind == kind && pool_state(*final(string_pool))
                    == pool_state(*old(string_pool)),
            },
            table_index(tables_view(tables@), self@.table_name) is None ==> (r matches Err(e) && e.message@
                == no_table_message(self@.table_name)),
            match table_index(tables_view(tables@), self@.table_name) {
                Some(i) => {
                    &&& !updates_valid(self@.updates, tables_view(tables@)[i].columns) ==> (r matches Err(e)
                        && e.message@ == update_message(
                        self@.table_name,
                        self@.updates,
                        tables_view(tables@)[i].columns,
                    ))
                    &&& updates_valid(self@.updates, tables_view(tables@)[i].columns) && !condition_columns_present(
                        self@.condition,
                        tables_view(tables@)[i].columns,
                    ) ==> (r matches Err(e) && names_missing_column(
                        self@.table_name,
                        self@.condition,
                        tables_view(tables@)[i].columns,
                        e.message@,
                    ))
                },
                None => true,
            },
    {
        let ghost tv = tables_view(tables@);
        let ghost q = self@;
        let ghost lsr = string_pool.spec_long_string_refs();
        let index = match find_table(tables, self.table_name.as_str()) {
            Some(index) => index,
            None => {
                return Err(no_such_table(self.table_name.as_str()));
            },
        };
        let table = &tables[index];
        let ghost t = (**table)@;
        assert(t == tv[index as int]);
        match check_updates(table, self.table_name.as_str(), &self.updates) {
            Some(e) => {
                return Err(e);
            },
            None => {},
        }
        match missing_condition_name(table, &self.condition) {
            Some(column) => {
                return Err(no_column(self.table_name.as_str(), column.as_str()));
            },
            None => {},
        }
        let rows = load_rows(table, find_stream(streams, table.name()));
        let ghost rv = rows_view(rows@);
        let ghost start = pool_state(*string_pool);
        let mut pool = string_pool.duplicate();
        let mut updated: Vec<Vec<ValueRef>> = Vec::new();
        assert(rows_view(updated@) =~= Seq::<Seq<ValueRef>>::empty());
        let mut i: usize = 0;
        while i < rows.len()
            invariant
                updated@.len() == i,
                string_pool.wf(),
                *string_pool == *old(string_pool),
                start == pool_state(*old(string_pool)),
                lsr == old(string_pool).spec_long_string_refs(),
                q == self@,
                tv == tables_view(tables@),
                table_index(tv, q.table_name) == Some(index as int),
                t == tv[index as int],
                rv == stored_rows(t, stored_data(streams_view(streams@), t.name)),
                i <= rows@.len(),
                rv == rows_view(rows@),
                t == (**table)@,
                forall|k: int| 0 <= k < rows@.len() ==> #[trigger] rows@[k]@.len() == t.columns.len(),
                forall|k: int| 0 <= k < updated@.len() ==> #[trigger] updated@[k]@.len() == t.columns.len(),
                updates_valid(q.updates, t.columns),
                condition_columns_present(q.condition, t.columns),
                q.condition == condition_view(self.condition),
                q.updates == updates_view(self.updates@),
                pool.wf(),
                pool.spec_codepage() == string_pool.spec_codepage(),
                pool.spec_long_string_refs() == lsr,
                update_upto(q, t, rv, start, lsr, i as int) == Ok::<_, ErrorKind>(
                    (rows_view(updated@), pool_state(pool)),
                ),
            decreases rows@.len() - i,
        {
            let hit = matches_condition(&self.condition, table, &rows[i], &pool);
            let ghost before = updated@;
            if hit {
                let ghost st = pool_state(pool);
                match apply_updates(&self.updates, table, &rows[i], &mut pool) {
                    Ok(row) => {
                        proof {
                            lemma_update_row_len(q.updates, t.columns, rv[i as int], st, lsr, q.updates.len() as int);
                        }
                        updated.push(row);
                    },
                    Err(e) => {
                        proof {
                            lemma_update_stays_failed(q, t, rv, start, lsr, i as int + 1, rv.len() as int);
                        }
                        return Err(e);
                    },
                }
            } else {
                updated.push(copy_refs(&rows[i]));
            }
            assert(rows_view(updated@) =~= rows_view(before).push(updated@[i as int]@));
            i = i + 1;
        }
        match table.write_rows(&updated) {
            Ok(bytes) => {
                *string_pool = pool;
                Ok(bytes)
            },
            Err(e) => Err(e),
        }
    }
}

/// The model of a column renamed with a table's name as prefix (unchanged
/// when the prefix is empty), and made nullable when `nullable` holds.
pub open spec fn prefixed_column(c: ColumnView, prefix: Seq<char>, nullable: bool) -> ColumnView {
    ColumnView {
        name: if prefix.len() == 0 {
            c.name
        } else {
            prefix + "."@ + c.name
        },
        is_nullable: c.is_nullable || nullable,
        ..c
    }
}

/// The columns of a join: those of the left table, then those of the right
/// one, each named after its table; the right ones nullable for a left join.
pub open spec fn joined_columns(t1: TableView, t2: TableView, left: bool) -> Seq<ColumnView> {
    t1.columns.map_values(|c: ColumnView| prefixed_column(c, t1.name, false)) + t2.columns.map_values(
        |c: ColumnView| prefixed_column(c, t2.name, left),
    )
}

/// The table of a join: nameless, with the joined columns.
pub open spec fn joined_table(t1: TableView, t2: TableView, left: bool, long_string_refs: bool) -> TableView {
    TableView { name: Seq::empty(), columns: joined_columns(t1, t2, left), long_string_refs }
}

/// The pairs of a row with the first `j` rows of the right side that match
/// the condition, joined into single rows.
pub open spec fn matching_pairs(
    c: AstView,
    t: TableView,
    a: Seq<ValueRef>,
    rows2: Seq<Seq<ValueRef>>,
    entries: Seq<(Seq<char>, u16)>,
    j: int,
) -> Seq<Seq<ValueRef>>
    decreases j,
{
    if j <= 0 {
        Seq::empty()
    } else {
        let before = matching_pairs(c, t, a, rows2, entries, j - 1);
        if condition_holds(Some(c), t, a + rows2[j - 1], entries) {
            before.push(a + rows2[j - 1])
        } else {
            before
        }
    }
}

/// The rows of a join of the first `i` left rows with the right rows: each
/// matching pair, and for a left join a left row with no match padded with
/// nulls.
pub open spec fn join_rows(
    c: AstView,
    t: TableView,
    rows1: Seq<Seq<ValueRef>>,
    rows2: Seq<Seq<ValueRef>>,
    width2: nat,
    left: bool,
    entries: Seq<(Seq<char>, u16)>,
    i: int,
) -> Seq<Seq<ValueRef>>
    decreases i,
{
    if i <= 0 {
        Seq::empty()
    } else {
        let before = join_rows(c, t, rows1, rows2, width2, left, entries, i - 1);
        let pairs = matching_pairs(c, t, rows1[i - 1], rows2, entries, rows2.len() as int);
        if left && pairs.len() == 0 {
            before.push(rows1[i - 1] + Seq::new(width2, |k: int| ValueRef::Null))
        } else {
            before + pairs
        }
    }
}

/// The first `n` rows that match a condition.
pub open spec fn filter_rows(
    c: Option<AstView>,
    t: TableView,
    rows: Seq<Seq<ValueRef>>,
    entries: Seq<(Seq<char>, u16)>,
    n: int,
) -> Seq<Seq<ValueRef>>
    decreases n,
{
    if n <= 0 {
        Seq::empty()
    } else {
        let before = filter_rows(c, t, rows, entries, n - 1);
        if condition_holds(c, t, rows[n - 1], entries) {
            before.push(rows[n - 1])
        } else {
            before
        }
    }
}

/// Whether the table has every named column.
pub open spec fn names_present(names: Seq<Seq<char>>, cols: Seq<ColumnView>) -> bool {
    forall|k: int| 0 <= k < names.len() ==> has_named(cols, #[trigger] names[k])
}

/// The index of each named column.
pub open spec fn name_indices(names: Seq<Seq<char>>, cols: Seq<ColumnView>) -> Seq<int> {
    names.map_values(
        |n: Seq<char>|
            match column_index(cols, n) {
                Some(i) => i,
                None => 0,
            },
    )
}

/// The mathematical model of a [`Select`] query.
pub struct SelectView {
    /// Where the rows come from.
    pub from: JoinView,
    /// The columns to keep, in order (all of them when empty).
    pub column_names: Seq<Seq<char>>,
    /// The condition that the rows to select match, if any.
    pub condition: Option<AstView>,
}

/// The mathematical model of where a query's rows come from.
pub enum JoinView {
    /// The rows of a table.
    Table(Seq<char>),
    /// The inner join of two queries on a condition.
    Inner(Box<SelectView>, Box<SelectView>, AstView),
    /// The left join of two queries on a condition.
    Left(Box<SelectView>, Box<SelectView>, AstView),
}

/// The table and rows that a query selects, or the kind of error it fails
/// with.
pub open spec fn select_result(
    q: SelectView,
    tables: Seq<TableView>,
    streams: Seq<(Seq<char>, Seq<u8>)>,
    entries: Seq<(Seq<char>, u16)>,
    long_string_refs: bool,
) -> Result<(TableView, Seq<Seq<ValueRef>>), ErrorKind>
    decreases q,
{
    match join_result(q.from, tables, streams, entries, long_string_refs) {
        Err(kind) => Err(kind),
        Ok((t, rows)) => if !names_present(q.column_names, t.columns) {
            Err(ErrorKind::InvalidInput)
        } else if !condition_columns_present(q.condition, t.columns) {
            Err(ErrorKind::InvalidInput)
        } else {
            let kept = filter_rows(q.condition, t, rows, entries, rows.len() as int);
            if q.column_names.len() == 0 {
                Ok((t, kept))
            } else {
                let indices = name_indices(q.column_names, t.columns);
                Ok(
                    (
                        TableView {
                            name: Seq::empty(),
                            columns: indices.map_values(|i: int| t.columns[i]),
                            long_string_refs: t.long_string_refs,
                        },
                        kept.map_values(|r: Seq<ValueRef>| indices.map_values(|i: int| r[i])),
                    ),
                )
            }
        },
    }
}

/// The table and rows that a join gives, or the kind of error it fails
/// with.  A join condition must refer only to columns of the joined table.
pub open spec fn join_result(
    j: JoinView,
    tables: Seq<TableView>,
    streams: Seq<(Seq<char>, Seq<u8>)>,
    entries: Seq<(Seq<char>, u16)>,
    long_string_refs: bool,
) -> Result<(TableView, Seq<Seq<ValueRef>>), ErrorKind>
    decreases j,
{
    match j {
        JoinView::Table(name) => match table_index(tables, name) {
            None => Err(ErrorKind::NotFound),
            Some(i) => Ok((tables[i], stored_rows(tables[i], stored_data(streams, tables[i].name)))),
        },
        JoinView::Inner(s1, s2, c) => join_of(
            select_result(*s1, tables, streams, entries, long_string_refs),
            select_result(*s2, tables, streams, entries, long_string_refs),
            c,
            false,
            entries,
            long_string_refs,
        ),
        JoinView::Left(s1, s2, c) => join_of(
            select_result(*s1, tables, streams, entries, long_string_refs),
            select_result(*s2, tables, streams, entries, long_string_refs),
            c,
            true,
            entries,
            long_string_refs,
        ),
    }
}

/// The join of two query results on a condition.
pub open spec fn join_of(
    a: Result<(TableView, Seq<Seq<ValueRef>>), ErrorKind>,
    b: Result<(TableView, Seq<Seq<ValueRef>>), ErrorKind>,
    c: AstView,
    left: bool,
    entries: Seq<(Seq<char>, u16)>,
    long_string_refs: bool,
) -> Result<(TableView, Seq<Seq<ValueRef>>), ErrorKind> {
    match a {
        Err(kind) => Err(kind),
        Ok((t1, rows1)) => match b {
            Err(kind) => Err(kind),
            Ok((t2, rows2)) => {
                let t = joined_table(t1, t2, left, long_string_refs);
                if !condition_columns_present(Some(c), t.columns) {
                    Err(ErrorKind::InvalidInput)
                } else {
                    Ok((t, join_rows(c, t, rows1, rows2, t2.columns.len(), left, entries, rows1.len() as int)))
                }
            },
        },
    }
}

enum Join {
    Table(String),
    Inner(Box<Select>, Box<Select>, Expr),
    Left(Box<Select>, Box<Select>, Expr),
}

/// A database query to select rows.
pub struct Select {
    from: Join,
    column_names: Vec<String>,
    condition: Option<Expr>,
}

spec fn select_view(s: &Select) -> SelectView
    decreases s,
{
    SelectView {
        from: join_view(&s.from),
        column_names: strings_view(s.column_names@),
        condition: condition_view(s.condition),
    }
}

spec fn join_view(j: &Join) -> JoinView
    decreases j,
{
    match j {
        Join::Table(name) => JoinView::Table(name@),
        Join::Inner(a, b, c) => JoinView::Inner(Box::new(select_view(&**a)), Box::new(select_view(&**b)), c@),
        Join::Left(a, b, c) => JoinView::Left(Box::new(select_view(&**a)), Box::new(select_view(&**b)), c@),
    }
}

impl View for Select {
    type V = SelectView;

    closed spec fn view(&self) -> SelectView {
        select_view(self)
    }
}

/// Joins two rows of references into one.
fn concat_refs(a: &Vec<ValueRef>, b: &Vec<ValueRef>) -> (r: Vec<ValueRef>)
    ensures
        r@ == a@ + b@,
{
    let mut out = copy_refs(a);
    let mut k: usize = 0;
    while k < b.len()
        invariant
            k <= b@.len(),
            out@ == a@ + b@.take(k as int),
        decreases b@.len() - k,
    {
        out.push(b[k]);
        assert(b@.take(k + 1) =~= b@.take(k as int).push(b@[k as int]));
        assert(out@ =~= a@ + b@.take(k + 1));
        k = k + 1;
    }
    assert(b@.take(k as int) =~= b@);
    out
}

/// A row of references padded with `n` nulls.
fn pad_with_nulls(a: &Vec<ValueRef>, n: usize) -> (r: Vec<ValueRef>)
    ensures
        r@ == a@ + Seq::new(n as nat, |k: int| ValueRef::Null),
{
    let mut out = copy_refs(a);
    let mut k: usize = 0;
    while k < n
        invariant
            k <= n,
            out@ == a@ + Seq::new(k as nat, |i: int| ValueRef::Null),
        decreases n - k,
    {
        out.push(ValueRef::Null);
        assert(out@ =~= a@ + Seq::new((k + 1) as nat, |i: int| ValueRef::Null));
        k = k + 1;
    }
    out
}

/// The columns of a join.
fn join_columns(t1: &Table, t2: &Table, left: bool) -> (r: Vec<Column>)
    ensures
        columns_view(r@) == joined_columns(t1@, t2@, left),
{
    let ghost want = joined_columns(t1@, t2@, left);
    let mut columns: Vec<Column> = Vec::new();
    let cols1 = t1.columns();
    let mut k: usize = 0;
    while k < cols1.len()
        invariant
            k <= cols1@.len(),
            columns_view(cols1@) == t1@.columns,
            want == joined_columns(t1@, t2@, left),
            columns_view(columns@) == want.take(k as int),
        decreases cols1@.len() - k,
    {
        let ghost before = columns@;
        let c = cols1[k].with_name_prefix(t1.name());
        columns.push(c);
        assert(columns_view(columns@) =~= want.take(k + 1)) by {
            assert(columns_view(columns@) =~= columns_view(before).push(c@));
        }
        k = k + 1;
    }
    let cols2 = t2.columns();
    let ghost n1 = cols1@.len() as int;
    let mut k: usize = 0;
    while k < cols2.len()
        invariant
            k <= cols2@.len(),
            n1 == t1@.columns.len(),
            columns_view(cols2@) == t2@.columns,
            want == joined_columns(t1@, t2@, left),
            columns_view(columns@) == want.take(n1 + k),
        decreases cols2@.len() - k,
    {
        let ghost before = columns@;
        let mut c = cols2[k].with_name_prefix(t2.name());
        if left {
            c = c.but_nullable();
        }
        columns.push(c);
        assert(columns_view(columns@) =~= want.take(n1 + k + 1)) by {
            assert(columns_view(columns@) =~= columns_view(before).push(c@));
        }
        k = k + 1;
    }
    assert(want.take(n1 + cols2@.len()) =~= want);
    columns
}

impl Join {
    fn exec<'a>(self, string_pool: &'a StringPool, tables: &[Rc<Table>], streams: &[(String, Vec<u8>)]) -> (r:
        Result<Rows<'a>, Error>)
        ensures
            match join_result(
                join_view(&self),
                tables_view(tables@),
                streams_view(streams@),
                string_pool.entries(),
                string_pool.spec_long_string_refs(),
            ) {
                Ok((t, rows)) => r matches Ok(rs) && rs.spec_table() == t && rs.spec_rows() == rows
                    && rs.spec_next() == 0 && rs.spec_pool() == string_pool.entries(),
                Err(kind) => r matches Err(e) && e.kind == kind,
            },
        decreases self,
    {
        match self {
            Join::Table(table_name) => {
                let index = match find_table(tables, table_name.as_str()) {
                    Some(index) => index,
                    None => {
                        return Err(no_such_table(table_name.as_str()));
                    },
                };
                let table = &tables[index];
                let rows = load_rows(table, find_stream(streams, table.name()));
                Ok(Rows::new(string_pool, share(table), rows))
            },
            Join::Inner(select1, select2, condition) => {
                let a = (*select1).exec(string_pool, tables, streams);
                let b = (*select2).exec(string_pool, tables, streams);
                join_exec(a, b, condition, false, string_pool)
            },
            Join::Left(select1, select2, condition) => {
                let a = (*select1).exec(string_pool, tables, streams);
                let b = (*select2).exec(string_pool, tables, streams);
                join_exec(a, b, condition, true, string_pool)
            },
        }
    }
}

/// Joins the results of two queries on a condition.
fn join_exec<'a>(
    a: Result<Rows<'a>, Error>,
    b: Result<Rows<'a>, Error>,
    condition: Expr,
    left: bool,
    string_pool: &'a StringPool,
) -> (r: Result<Rows<'a>, Error>)
    requires
        a matches Ok(rs) ==> rs.spec_pool() == string_pool.entries(),
        b matches Ok(rs) ==> rs.spec_pool() == string_pool.entries(),
    ensures
        match join_of(
            match a {
                Ok(rs) => Ok((rs.spec_table(), rs.spec_rows())),
                Err(e) => Err(e.kind),
            },
            match b {
                Ok(rs) => Ok((rs.spec_table(), rs.spec_rows())),
                Err(e) => Err(e.kind),
            },
            condition@,
            left,
            string_pool.entries(),
            string_pool.spec_long_string_refs(),
        ) {
            Ok((t, rows)) => r matches Ok(rs) && rs.spec_table() == t && rs.spec_rows() == rows && rs.spec_next()
                == 0 && rs.spec_pool() == string_pool.entries(),
            Err(kind) => r matches Err(e) && e.kind == kind,
        },
{
    let rows_a = match a {
        Ok(rows) => rows,
        Err(e) => {
            return Err(e);
        },
    };
    let rows_b = match b {
        Ok(rows) => rows,
        Err(e) => {
            return Err(e);
        },
    };
    let (table1, rows1) = rows_a.into_table_and_values();
    let (table2, rows2) = rows_b.into_table_and_values();
    let columns = join_columns(&table1, &table2, left);
    let nameless = String::new();
    assert(nameless@ =~= Seq::<char>::empty());
    let table = Table::new(nameless, columns, string_pool.long_string_refs());
    let ghost t = (*table)@;
    assert(t == joined_table((*table1)@, (*table2)@, left, string_pool.spec_long_string_refs()));
    if !check_expr(&table, &condition) {
        return Err(Error::with_text(ErrorKind::InvalidInput, "Join condition refers to a column that the joined tables lack"));
    }
    let ghost c = condition@;
    let ghost rv1 = rows_view(rows1@);
    let ghost rv2 = rows_view(rows2@);
    let ghost entries = string_pool.entries();
    let width2 = table2.columns().len();
    let ghost w1 = (*table1)@.columns.len();
    assert(t.columns.len() == w1 + width2);
    let mut out: Vec<Vec<ValueRef>> = Vec::new();
    assert(rows_view(out@) =~= Seq::<Seq<ValueRef>>::empty());
    let mut i: usize = 0;
    while i < rows1.len()
        invariant
            i <= rows1@.len(),
            t == (*table)@,
            c == condition@,
            rv1 == rows_view(rows1@),
            rv2 == rows_view(rows2@),
            entries == string_pool.entries(),
            width2 == (*table2)@.columns.len(),
            t.columns.len() == w1 + width2,
            forall|k: int| 0 <= k < rows1@.len() ==> #[trigger] rows1@[k]@.len() == w1,
            forall|k: int| 0 <= k < rows2@.len() ==> #[trigger] rows2@[k]@.len() == width2,
            forall|k: int| 0 <= k < out@.len() ==> #[trigger] out@[k]@.len() == t.columns.len(),
            condition_columns_present(Some(c), t.columns),
            rows_view(out@) == join_rows(c, t, rv1, rv2, width2 as nat, left, entries, i as int),
        decreases rows1@.len() - i,
    {
        let ghost start = rows_view(out@);
        let mut found = false;
        let mut j: usize = 0;
        while j < rows2.len()
            invariant
                i < rows1@.len(),
                j <= rows2@.len(),
                t == (*table)@,
                c == condition@,
                rv1 == rows_view(rows1@),
                rv2 == rows_view(rows2@),
                entries == string_pool.entries(),
                t.columns.len() == w1 + width2,
                forall|k: int| 0 <= k < rows1@.len() ==> #[trigger] rows1@[k]@.len() == w1,
                forall|k: int| 0 <= k < rows2@.len() ==> #[trigger] rows2@[k]@.len() == width2,
                forall|k: int| 0 <= k < out@.len() ==> #[trigger] out@[k]@.len() == t.columns.len(),
                condition_columns_present(Some(c), t.columns),
                rows_view(out@) == start + matching_pairs(c, t, rv1[i as int], rv2, entries, j as int),
                found == (matching_pairs(c, t, rv1[i as int], rv2, entries, j as int).len() > 0),
            decreases rows2@.len() - j,
        {
            let refs = concat_refs(&rows1[i], &rows2[j]);
            if expr_holds(&condition, &table, &refs, string_pool) {
                let ghost before = out@;
                out.push(refs);
                assert(rows_view(out@) =~= rows_view(before).push(refs@));
                found = true;
            }
            assert(refs@ == rv1[i as int] + rv2[j as int]);
            j = j + 1;
        }
        if left && !found {
            let ghost before = out@;
            let padded = pad_with_nulls(&rows1[i], width2);
            out.push(padded);
            assert(rows_view(out@) =~= rows_view(before).push(padded@));
        }
        proof {
            if !(left && !found) {
                assert(rows_view(out@) =~= join_rows(c, t, rv1, rv2, width2 as nat, left, entries, i + 1));
            }
        }
        i = i + 1;
    }
    Ok(Rows::new(string_pool, table, out))
}

impl Select {
    /// Starts building a query that will select rows from the specified table.
    pub fn table(table_name: &str) -> (r: Select)
        ensures
            r@ == (SelectView { from: JoinView::Table(table_name@), column_names: Seq::empty(), condition: None }),
    {
        let r = Select { from: Join::Table(table_name.to_owned()), column_names: Vec::new(), condition: None };
        assert(strings_view(r.column_names@) =~= Seq::empty());
        r
    }

    /// Performs an inner join between this and another query, producing a row
    /// for each pair of rows from the two tables that matches the expression.
    pub fn inner_join(self, rhs: Select, on: Expr) -> (r: Select)
        ensures
            r@ == (SelectView {
                from: JoinView::Inner(Box::new(self@), Box::new(rhs@), on@),
                column_names: Seq::empty(),
                condition: None,
            }),
    {
        let r = Select { from: Join::Inner(Box::new(self), Box::new(rhs), on), column_names: Vec::new(), condition: None };
        assert(strings_view(r.column_names@) =~= Seq::empty());
        r
    }

    /// Performs a left join between this and another query: as an inner
    /// join, plus each row of this query that matches no row of the other,
    /// padded with nulls.
    pub fn left_join(self, rhs: Select, on: Expr) -> (r: Select)
        ensures
            r@ == (SelectView {
                from: JoinView::Left(Box::new(self@), Box::new(rhs@), on@),
                column_names: Seq::empty(),
                condition: None,
            }),
    {
        let r = Select { from: Join::Left(Box::new(self), Box::new(rhs), on), column_names: Vec::new(), condition: None };
        assert(strings_view(r.column_names@) =~= Seq::empty());
        r
    }

    /// Transforms the selected rows to only include the specified columns, in
    /// the order given.
    pub fn columns(self, column_names: &[&str]) -> (r: Select)
        ensures
            r@ == (SelectView { column_names: column_names@.map_values(|n: &str| n@), ..self@ }),
    {
        let mut names: Vec<String> = Vec::new();
        let mut k: usize = 0;
        while k < column_names.len()
            invariant
                k <= column_names@.len(),
                strings_view(names@) == column_names@.map_values(|n: &str| n@).take(k as int),
            decreases column_names@.len() - k,
        {
            let ghost before = names@;
            let name = column_names[k].to_owned();
            names.push(name);
            assert(strings_view(names@) =~= strings_view(before).push(name@));
            assert(strings_view(names@) =~= column_names@.map_values(|n: &str| n@).take(k + 1));
            k = k + 1;
        }
        assert(column_names@.map_values(|n: &str| n@).take(k as int) =~= column_names@.map_values(|n: &str| n@));
        let mut q = self;
        q.column_names = names;
        q
    }

    /// Adds a restriction on which rows should be selected by the query; only
    /// rows that match the given boolean expression will be returned.  (This
    /// method would have been called `where()`, to better match SQL, but
    /// `where` is a reserved word in Rust.)
    pub fn with(self, condition: Expr) -> (r: Select)
        ensures
            r@ == (SelectView { condition: and_condition(self@.condition, condition@), ..self@ }),
    {
        let mut q = self;
        q.condition = match q.condition {
            Some(expr) => Some(expr.and(condition)),
            None => Some(condition),
        };
        q
    }

    /// Runs the query on the package's tables, the contents of their
    /// streams and the string pool, and returns the selected rows.  Fails
    /// with `NotFound` when a table does not exist, and with `InvalidInput`
    /// when a selected column or a condition refers to a column that the
    /// rows lack.
    pub fn exec<'a>(self, string_pool: &'a StringPool, tables: &[Rc<Table>], streams: &[(String, Vec<u8>)]) -> (r:
        Result<Rows<'a>, Error>)
        ensures
            match select_result(
                self@,
                tables_view(tables@),
                streams_view(streams@),
                string_pool.entries(),
                string_pool.spec_long_string_refs(),
            ) {
                Ok((t, rows)) => r matches Ok(rs) && rs.spec_table() == t && rs.spec_rows() == rows
                    && rs.spec_next() == 0 && rs.spec_pool() == string_pool.entries(),
                Err(kind) => r matches Err(e) && e.kind == kind,
            },
            match join_result(
                self@.from,
                tables_view(tables@),
                streams_view(streams@),
                string_pool.entries(),
                string_pool.spec_long_string_refs(),
            ) {
                Ok((t, _)) => {
                    &&& !names_present(self@.column_names, t.columns) ==> (r matches Err(e) && e.message@
                        == no_column_message(
                        t.name,
                        self@.column_names[choose|k: int| is_first_missing_name(self@.column_names, t.columns, k)],
                    ))
                    &&& names_present(self@.column_names, t.columns) && !condition_columns_present(
                        self@.condition,
                        t.columns,
                    ) ==> (r matches Err(e) && names_missing_column(t.name, self@.condition, t.columns, e.message@))
                },
                Err(_) => true,
            },
        decreases self,
    {
        let ghost q = self@;
        let Select { from, column_names, condition } = self;
        let joined = match from.exec(string_pool, tables, streams) {
            Ok(rows) => rows,
            Err(e) => {
                return Err(e);
            },
        };
        let (table, rows) = joined.into_table_and_values();
        let ghost t = (*table)@;
        let ghost names = strings_view(column_names@);
        let ghost entries = string_pool.entries();
        let ghost jr = join_result(
            q.from,
            tables_view(tables@),
            streams_view(streams@),
            entries,
            string_pool.spec_long_string_refs(),
        );
        assert(jr == Ok::<_, ErrorKind>((t, rows_view(rows@))));
        let mut indices: Vec<usize> = Vec::new();
        let mut k: usize = 0;
        while k < column_names.len()
            invariant
                q == self@,
                q.column_names == names,
                jr == Ok::<_, ErrorKind>((t, rows_view(rows@))),
                jr == join_result(
                    q.from,
                    tables_view(tables@),
                    streams_view(streams@),
                    string_pool.entries(),
                    string_pool.spec_long_string_refs(),
                ),
                k <= column_names@.len(),
                names == strings_view(column_names@),
                t == (*table)@,
                indices@.len() == k,
                forall|m: int| 0 <= m < k ==> has_named(t.columns, #[trigger] names[m]),
                forall|m: int| 0 <= m < k ==> #[trigger] indices@[m] < t.columns.len(),
                forall|m: int| 0 <= m < k ==> column_index(t.columns, names[m]) == Some(#[trigger] indices@[m] as int),
            decreases column_names@.len() - k,
        {
            match table.index_for_column_name(column_names[k].as_str()) {
                Some(index) => {
                    indices.push(index);
                },
                None => {
                    assert(!has_named(t.columns, names[k as int]));
                    proof {
                        assert(is_first_missing_name(names, t.columns, k as int));
                        let c = choose|c: int| is_first_missing_name(names, t.columns, c);
                        if c < k {
                            assert(has_named(t.columns, names[c]));
                        } else if c > k {
                            assert(has_named(t.columns, names[k as int]));
                        }
                    }
                    return Err(no_column(table.name(), column_names[k].as_str()));
                },
            }
            k = k + 1;
        }
        match missing_condition_name(&table, &condition) {
            Some(column) => {
                return Err(no_column(table.name(), column.as_str()));
            },
            None => {},
        }
        let ghost cv = condition_view(condition);
        let ghost rv = rows_view(rows@);
        let mut kept: Vec<Vec<ValueRef>> = Vec::new();
        assert(rows_view(kept@) =~= Seq::<Seq<ValueRef>>::empty());
        let mut i: usize = 0;
        while i < rows.len()
            invariant
                i <= rows@.len(),
                t == (*table)@,
                rv == rows_view(rows@),
                cv == condition_view(condition),
                entries == string_pool.entries(),
                condition_columns_present(cv, t.columns),
                forall|m: int| 0 <= m < rows@.len() ==> #[trigger] rows@[m]@.len() == t.columns.len(),
                forall|m: int| 0 <= m < kept@.len() ==> #[trigger] kept@[m]@.len() == t.columns.len(),
                rows_view(kept@) == filter_rows(cv, t, rv, entries, i as int),
            decreases rows@.len() - i,
        {
            if matches_condition(&condition, &table, &rows[i], string_pool) {
                let ghost before = kept@;
                let row = copy_refs(&rows[i]);
                kept.push(row);
                assert(rows_view(kept@) =~= rows_view(before).push(rv[i as int]));
            }
            i = i + 1;
        }
        if indices.len() == 0 {
            return Ok(Rows::new(string_pool, table, kept));
        }
        let ghost idx = name_indices(names, t.columns);
        assert forall|m: int| 0 <= m < indices@.len() implies #[trigger] idx[m] == indices@[m] as int by {
            assert(column_index(t.columns, names[m]) == Some(indices@[m] as int));
        }
        let mut columns: Vec<Column> = Vec::new();
        let all_columns = table.columns();
        let mut k: usize = 0;
        while k < indices.len()
            invariant
                k <= indices@.len(),
                columns_view(all_columns@) == t.columns,
                forall|m: int| 0 <= m < indices@.len() ==> #[trigger] indices@[m] < t.columns.len(),
                idx.len() == indices@.len(),
                forall|m: int| 0 <= m < indices@.len() ==> #[trigger] idx[m] == indices@[m] as int,
                columns_view(columns@) == idx.map_values(|j: int| t.columns[j]).take(k as int),
            decreases indices@.len() - k,
        {
            let ghost before = columns@;
            let c = all_columns[indices[k]].duplicate();
            columns.push(c);
            assert(columns_view(columns@) =~= columns_view(before).push(c@));
            assert(columns_view(columns@) =~= idx.map_values(|j: int| t.columns[j]).take(k + 1));
            k = k + 1;
        }
        assert(idx.map_values(|j: int| t.columns[j]).take(k as int) =~= idx.map_values(|j: int| t.columns[j]));
        let nameless = String::new();
        assert(nameless@ =~= Seq::<char>::empty());
        let new_table = Table::new(nameless, columns, table.long_string_refs());
        let ghost kv = rows_view(kept@);
        let mut projected: Vec<Vec<ValueRef>> = Vec::new();
        let mut i: usize = 0;
        while i < kept.len()
            invariant
                i <= kept@.len(),
                kv == rows_view(kept@),
                forall|m: int| 0 <= m < kept@.len() ==> #[trigger] kept@[m]@.len() == t.columns.len(),
                forall|m: int| 0 <= m < indices@.len() ==> #[trigger] indices@[m] < t.columns.len(),
                idx.len() == indices@.len(),
                forall|m: int| 0 <= m < indices@.len() ==> #[trigger] idx[m] == indices@[m] as int,
                (*new_table)@.columns.len() == indices@.len(),
                forall|m: int| 0 <= m < projected@.len() ==> #[trigger] projected@[m]@.len() == indices@.len(),
                rows_view(projected@) == kv.map_values(|r: Seq<ValueRef>| idx.map_values(|j: int| r[j])).take(
                    i as int,
                ),
            decreases kept@.len() - i,
        {
            let mut row: Vec<ValueRef> = Vec::new();
            let mut k: usize = 0;
            while k < indices.len()
                invariant
                    i < kept@.len(),
                    k <= indices@.len(),
                    kv == rows_view(kept@),
                    forall|m: int| 0 <= m < kept@.len() ==> #[trigger] kept@[m]@.len() == t.columns.len(),
                    forall|m: int| 0 <= m < indices@.len() ==> #[trigger] indices@[m] < t.columns.len(),
                    idx.len() == indices@.len(),
                    forall|m: int| 0 <= m < indices@.len() ==> #[trigger] idx[m] == indices@[m] as int,
                    row@ == idx.map_values(|j: int| kv[i as int][j]).take(k as int),
                decreases indices@.len() - k,
            {
                assert(kept@[i as int]@.len() == t.columns.len());
                row.push(kept[i][indices[k]]);
                assert(row@ =~= idx.map_values(|j: int| kv[i as int][j]).take(k + 1));
                k = k + 1;
            }
            assert(idx.map_values(|j: int| kv[i as int][j]).take(k as int) =~= idx.map_values(
                |j: int| kv[i as int][j],
            ));
            let ghost before = projected@;
            projected.push(row);
            assert(rows_view(projected@) =~= rows_view(before).push(row@));
            assert(kv.map_values(|r: Seq<ValueRef>| idx.map_values(|j: int| r[j]))[i as int] == row@);
            assert(rows_view(projected@) =~= kv.map_values(|r: Seq<ValueRef>| idx.map_values(|j: int| r[j])).take(
                i + 1,
            ));
            i = i + 1;
        }
        assert(kv.map_values(|r: Seq<ValueRef>| idx.map_values(|j: int| r[j])).take(i as int) =~= kv.map_values(
            |r: Seq<ValueRef>| idx.map_values(|j: int| r[j]),
        ));
        Ok(Rows::new(string_pool, new_table, projected))
    }
}

/// The first `n` names, separated by commas.
pub open spec fn names_text(names: Seq<Seq<char>>, n: int) -> Seq<char>
    decreases n,
{
    if n <= 0 {
        Seq::empty()
    } else if n == 1 {
        names[0]
    } else {
        names_text(names, n - 1) + ", "@ + names[n - 1]
    }
}

/// The text of a select query.
pub open spec fn select_text(q: SelectView) -> Seq<char>
    decreases q, 1int,
{
    "SELECT "@ + (if q.column_names.len() == 0 {
        "*"@
    } else {
        names_text(q.column_names, q.column_names.len() as int)
    }) + " FROM "@ + join_text(q.from) + where_text(q.condition)
}

/// The text of where a query's rows come from.
pub open spec fn join_text(j: JoinView) -> Seq<char>
    decreases j, 0int,
{
    match j {
        JoinView::Table(name) => name,
        JoinView::Inner(l, r, on) => operand_text(*l) + " INNER JOIN "@ + operand_text(*r) + " ON "@ + format_ast(
            on,
            0,
        ),
        JoinView::Left(l, r, on) => operand_text(*l) + " LEFT JOIN "@ + operand_text(*r) + " ON "@ + format_ast(
            on,
            0,
        ),
    }
}

/// The text of a query joined to another: a plain table by its name,
/// anything else in parentheses.
pub open spec fn operand_text(q: SelectView) -> Seq<char>
    decreases q, 2int,
{
    match q.from {
        JoinView::Table(name) => if q.column_names.len() == 0 && q.condition is None {
            name
        } else {
            "("@ + select_text(q) + ")"@
        },
        _ => "("@ + select_text(q) + ")"@,
    }
}

impl Select {
    /// Returns the text of the query (what `Display` writes).
    pub fn to_string(&self) -> (r: String)
        ensures
            r@ == select_text(self@),
    {
        let mut out: Vec<char> = Vec::new();
        self.write_text(&mut out);
        assert(out@ =~= select_text(self@));
        string_from_chars(out.as_slice())
    }

    fn write_text(&self, out: &mut Vec<char>)
        ensures
            final(out)@ == old(out)@ + select_text(self@),
        decreases self, 1int,
    {
        let ghost before = out@;
        let ghost q = self@;
        proof {
            reveal_strlit("SELECT ");
            reveal_strlit("*");
            reveal_strlit(", ");
            reveal_strlit(" FROM ");
        }
        append_str(out, "SELECT ");
        let ghost names = strings_view(self.column_names@);
        if self.column_names.len() == 0 {
            append_str(out, "*");
        } else {
            let ghost prefix = out@;
            let mut k: usize = 0;
            while k < self.column_names.len()
                invariant
                    k <= self.column_names@.len(),
                    names == strings_view(self.column_names@),
                    out@ == prefix + names_text(names, k as int),
                decreases self.column_names@.len() - k,
            {
                if k > 0 {
                    append_str(out, ", ");
                }
                append_str(out, self.column_names[k].as_str());
                assert(out@ =~= prefix + names_text(names, k + 1));
                k = k + 1;
            }
        }
        let ghost middle = out@;
        append_str(out, " FROM ");
        write_join(&self.from, out);
        append_condition(out, &self.condition);
        assert(out@ =~= before + select_text(q));
    }

    fn write_operand(&self, out: &mut Vec<char>)
        ensures
            final(out)@ == old(out)@ + operand_text(self@),
        decreases self, 2int,
    {
        let ghost before = out@;
        proof {
            reveal_strlit("(");
            reveal_strlit(")");
        }
        if self.column_names.len() == 0 && self.condition.is_none() {
            if let Join::Table(name) = &self.from {
                append_str(out, name.as_str());
                return;
            }
        }
        append_str(out, "(");
        self.write_text(out);
        append_str(out, ")");
        assert(out@ =~= before + operand_text(self@));
    }
}

fn write_join(join: &Join, out: &mut Vec<char>)
    ensures
        final(out)@ == old(out)@ + join_text(join_view(join)),
    decreases join, 0int,
{
    let ghost before = out@;
    proof {
        reveal_strlit(" INNER JOIN ");
        reveal_strlit(" LEFT JOIN ");
        reveal_strlit(" ON ");
    }
    match join {
        Join::Table(name) => {
            append_str(out, name.as_str());
        },
        Join::Inner(lhs, rhs, on) => {
            lhs.write_operand(out);
            append_str(out, " INNER JOIN ");
            rhs.write_operand(out);
            append_str(out, " ON ");
            append_str(out, on.to_string().as_str());
            assert(out@ =~= before + join_text(join_view(join)));
        },
        Join::Left(lhs, rhs, on) => {
            lhs.write_operand(out);
            append_str(out, " LEFT JOIN ");
            rhs.write_operand(out);
            append_str(out, " ON ");
            append_str(out, on.to_string().as_str());
            assert(out@ =~= before + join_text(join_view(join)));
        },
    }
}

/// The order of primary keys: lexicographic, by the order of values.
pub open spec fn key_less(a: Seq<ValueView>, b: Seq<ValueView>) -> bool
    decreases a.len(),
{
    if a.len() == 0 {
        b.len() > 0
    } else if b.len() == 0 {
        false
    } else if a[0] != b[0] {
        value_less(a[0], b[0])
    } else {
        key_less(a.drop_first(), b.drop_first())
    }
}

/// A row with its primary key, as the query that inserts rows keeps them.
pub type KeyedRow = (Seq<ValueView>, Seq<ValueRef>);

/// Whether some row has the key.
pub open spec fn has_key(l: Seq<KeyedRow>, key: Seq<ValueView>) -> bool {
    exists|i: int| 0 <= i < l.len() && l[i].0 == key
}

/// The index of the first row from `i` on whose key comes after `key`, or
/// the length when there is none.
pub open spec fn first_after(l: Seq<KeyedRow>, key: Seq<ValueView>, i: int) -> int
    decreases l.len() - i,
{
    if i >= l.len() || i < 0 {
        l.len() as int
    } else if key_less(key, l[i].0) {
        i
    } else {
        first_after(l, key, i + 1)
    }
}

/// Rows kept in key order, with a row put before the first row whose key
/// comes after its own.
pub open spec fn sorted_insert(l: Seq<KeyedRow>, row: KeyedRow) -> Seq<KeyedRow> {
    l.insert(first_after(l, row.0, 0), row)
}

/// The values of the primary key columns of a row of references.
pub open spec fn refs_key(row: Seq<ValueRef>, key_indices: Seq<usize>, entries: Seq<(Seq<char>, u16)>) -> Seq<
    ValueView,
> {
    key_indices.map_values(|i: usize| spec_to_value(row[i as int], entries))
}

/// The values of the primary key columns of a row of values.
pub open spec fn values_key(row: Seq<ValueView>, key_indices: Seq<usize>) -> Seq<ValueView> {
    key_indices.map_values(|i: usize| row[i as int])
}

/// The first `n` stored rows in key order, or `None` when two of them have
/// the same key.
pub open spec fn sorted_rows(
    rows: Seq<Seq<ValueRef>>,
    key_indices: Seq<usize>,
    entries: Seq<(Seq<char>, u16)>,
    n: int,
) -> Option<Seq<KeyedRow>>
    decreases n,
{
    if n <= 0 {
        Some(Seq::empty())
    } else {
        match sorted_rows(rows, key_indices, entries, n - 1) {
            None => None,
            Some(l) => {
                let key = refs_key(rows[n - 1], key_indices, entries);
                if has_key(l, key) {
                    None
                } else {
                    Some(sorted_insert(l, (key, rows[n - 1])))
                }
            },
        }
    }
}

/// The error that the first of the first `n` new rows whose key is taken
/// gives: `AlreadyExists` for the key of a stored row, `InvalidInput` for
/// the key of an earlier new row.
pub open spec fn key_conflict(
    new_rows: Seq<Seq<ValueView>>,
    key_indices: Seq<usize>,
    stored: Seq<KeyedRow>,
    n: int,
) -> Option<ErrorKind>
    decreases n,
{
    if n <= 0 {
        None
    } else {
        match key_conflict(new_rows, key_indices, stored, n - 1) {
            Some(kind) => Some(kind),
            None => {
                let key = values_key(new_rows[n - 1], key_indices);
                if has_key(stored, key) {
                    Some(ErrorKind::AlreadyExists)
                } else if exists|j: int| 0 <= j < n - 1 && values_key(new_rows[j], key_indices) == key {
                    Some(ErrorKind::InvalidInput)
                } else {
                    None
                }
            },
        }
    }
}

/// The references and pool state after interning the first `n` values of
/// a row, or `InvalidInput` when the pool has no room for a string.
pub open spec fn create_row(
    values: Seq<ValueView>,
    state: (Seq<(Seq<char>, u16)>, bool),
    long_string_refs: bool,
    n: int,
) -> Result<(Seq<ValueRef>, (Seq<(Seq<char>, u16)>, bool)), ErrorKind>
    decreases n,
{
    if n <= 0 {
        Ok((Seq::empty(), state))
    } else {
        match create_row(values, state, long_string_refs, n - 1) {
            Err(kind) => Err(kind),
            Ok((refs, s)) => if can_create(values[n - 1], s.0, long_string_refs) {
                let (r, s2) = created_ref(values[n - 1], s);
                Ok((refs.push(r), s2))
            } else {
                Err(ErrorKind::InvalidInput)
            },
        }
    }
}

/// The rows in key order and the pool state after inserting the first `n`
/// new rows into the stored ones.
pub open spec fn insert_rows(
    new_rows: Seq<Seq<ValueView>>,
    key_indices: Seq<usize>,
    stored: Seq<KeyedRow>,
    state: (Seq<(Seq<char>, u16)>, bool),
    long_string_refs: bool,
    n: int,
) -> Result<(Seq<KeyedRow>, (Seq<(Seq<char>, u16)>, bool)), ErrorKind>
    decreases n,
{
    if n <= 0 {
        Ok((stored, state))
    } else {
        match insert_rows(new_rows, key_indices, stored, state, long_string_refs, n - 1) {
            Err(kind) => Err(kind),
            Ok((l, s)) => match create_row(new_rows[n - 1], s, long_string_refs, new_rows[n - 1].len() as int) {
                Err(kind) => Err(kind),
                Ok((refs, s2)) => Ok((sorted_insert(l, (values_key(new_rows[n - 1], key_indices), refs)), s2)),
            },
        }
    }
}

/// Whether every new row has a value for each column, that the column
/// accepts.
pub open spec fn new_rows_valid(new_rows: Seq<Seq<ValueView>>, cols: Seq<ColumnView>) -> bool {
    forall|k: int|
        0 <= k < new_rows.len() ==> {
            &&& (#[trigger] new_rows[k]).len() == cols.len()
            &&& forall|j: int| 0 <= j < cols.len() ==> spec_is_valid_value(cols[j], new_rows[k][j])
        }
}

/// The mathematical model of an [`Insert`] query.
pub struct InsertView {
    /// The table to insert rows into.
    pub table_name: Seq<char>,
    /// The rows to insert, in order.
    pub new_rows: Seq<Seq<ValueView>>,
}

/// What running an insert query gives: the table's stream with the stored
/// and the new rows in the order of their primary keys, and the pool with
/// the new values interned.
pub open spec fn insert_result(
    q: InsertView,
    tables: Seq<TableView>,
    streams: Seq<(Seq<char>, Seq<u8>)>,
    state: (Seq<(Seq<char>, u16)>, bool),
    long_string_refs: bool,
) -> TableChange {
    match table_index(tables, q.table_name) {
        None => Err(ErrorKind::NotFound),
        Some(i) => {
            let t = tables[i];
            if !new_rows_valid(q.new_rows, t.columns) {
                Err(ErrorKind::InvalidInput)
            } else {
                let rows = stored_rows(t, stored_data(streams, t.name));
                let keys = primary_key_indices_upto(t.columns, t.columns.len() as int);
                match sorted_rows(rows, keys, state.0, rows.len() as int) {
                    None => Err(ErrorKind::InvalidData),
                    Some(stored) => match key_conflict(q.new_rows, keys, stored, q.new_rows.len() as int) {
                        Some(kind) => Err(kind),
                        None => match insert_rows(
                            q.new_rows,
                            keys,
                            stored,
                            state,
                            long_string_refs,
                            q.new_rows.len() as int,
                        ) {
                            Err(kind) => Err(kind),
                            Ok((all, s)) => {
                                let out = all.map_values(|p: KeyedRow| p.1);
                                if all_writable(t.columns, t.long_string_refs, out) {
                                    Ok((table_bytes(t.columns, t.long_string_refs, out), s))
                                } else {
                                    Err(ErrorKind::InvalidInput)
                                }
                            },
                        },
                    },
                }
            }
        },
    }
}

/// The models of rows kept with their keys.
pub open spec fn keyed_view(l: Seq<(Vec<Value>, Vec<ValueRef>)>) -> Seq<KeyedRow> {
    l.map_values(|p: (Vec<Value>, Vec<ValueRef>)| (values_view(p.0@), p.1@))
}

/// Compares primary keys in their order.
fn keys_less(a: &Vec<Value>, b: &Vec<Value>) -> (r: bool)
    ensures
        r == key_less(values_view(a@), values_view(b@)),
{
    let ghost x = values_view(a@);
    let ghost y = values_view(b@);
    let mut i: usize = 0;
    assert(x.skip(0) =~= x);
    assert(y.skip(0) =~= y);
    while i < a.len() && i < b.len() && a[i].equals(&b[i])
        invariant
            i <= a@.len(),
            i <= b@.len(),
            x == values_view(a@),
            y == values_view(b@),
            key_less(x, y) == key_less(x.skip(i as int), y.skip(i as int)),
        decreases a@.len() - i,
    {
        assert(x.skip(i as int).drop_first() =~= x.skip(i + 1));
        assert(y.skip(i as int).drop_first() =~= y.skip(i + 1));
        i = i + 1;
    }
    if i == a.len() {
        i < b.len()
    } else if i == b.len() {
        false
    } else {
        a[i].less_than(&b[i])
    }
}

/// Compares primary keys for equality.
fn keys_equal(a: &Vec<Value>, b: &Vec<Value>) -> (r: bool)
    ensures
        r == (values_view(a@) == values_view(b@)),
{
    if a.len() != b.len() {
        assert(values_view(a@).len() != values_view(b@).len());
        return false;
    }
    let mut i: usize = 0;
    while i < a.len()
        invariant
            i <= a@.len(),
            a@.len() == b@.len(),
            forall|k: int| 0 <= k < i ==> a@[k]@ == b@[k]@,
        decreases a@.len() - i,
    {
        if !a[i].equals(&b[i]) {
            assert(values_view(a@)[i as int] != values_view(b@)[i as int]);
            return false;
        }
        i = i + 1;
    }
    assert(values_view(a@) =~= values_view(b@));
    true
}

/// The values of the primary key columns of a row of references.
fn key_of_refs(row: &Vec<ValueRef>, key_indices: &Vec<usize>, string_pool: &StringPool) -> (r: Vec<Value>)
    requires
        forall|k: int| 0 <= k < key_indices@.len() ==> #[trigger] key_indices@[k] < row@.len(),
    ensures
        values_view(r@) == refs_key(row@, key_indices@, string_pool.entries()),
{
    let mut key: Vec<Value> = Vec::new();
    let mut k: usize = 0;
    while k < key_indices.len()
        invariant
            k <= key_indices@.len(),
            forall|m: int| 0 <= m < key_indices@.len() ==> #[trigger] key_indices@[m] < row@.len(),
            values_view(key@) == refs_key(row@, key_indices@, string_pool.entries()).take(k as int),
        decreases key_indices@.len() - k,
    {
        let ghost before = key@;
        let v = row[key_indices[k]].to_value(string_pool);
        key.push(v);
        assert(values_view(key@) =~= values_view(before).push(v@));
        assert(values_view(key@) =~= refs_key(row@, key_indices@, string_pool.entries()).take(k + 1));
        k = k + 1;
    }
    assert(refs_key(row@, key_indices@, string_pool.entries()).take(k as int) =~= refs_key(
        row@,
        key_indices@,
        string_pool.entries(),
    ));
    key
}

/// The values of the primary key columns of a row of values.
fn key_of_values(row: &Vec<Value>, key_indices: &Vec<usize>) -> (r: Vec<Value>)
    requires
        forall|k: int| 0 <= k < key_indices@.len() ==> #[trigger] key_indices@[k] < row@.len(),
    ensures
        values_view(r@) == values_key(values_view(row@), key_indices@),
{
    let mut key: Vec<Value> = Vec::new();
    let mut k: usize = 0;
    while k < key_indices.len()
        invariant
            k <= key_indices@.len(),
            forall|m: int| 0 <= m < key_indices@.len() ==> #[trigger] key_indices@[m] < row@.len(),
            values_view(key@) == values_key(values_view(row@), key_indices@).take(k as int),
        decreases key_indices@.len() - k,
    {
        let ghost before = key@;
        let v = row[key_indices[k]].duplicate();
        key.push(v);
        assert(values_view(key@) =~= values_view(before).push(v@));
        assert(values_view(key@) =~= values_key(values_view(row@), key_indices@).take(k + 1));
        k = k + 1;
    }
    assert(values_key(values_view(row@), key_indices@).take(k as int) =~= values_key(
        values_view(row@),
        key_indices@,
    ));
    key
}

/// Whether some kept row has the key.
fn contains_key(l: &Vec<(Vec<Value>, Vec<ValueRef>)>, key: &Vec<Value>) -> (r: bool)
    ensures
        r == has_key(keyed_view(l@), values_view(key@)),
{
    let ghost lv = keyed_view(l@);
    let mut i: usize = 0;
    while i < l.len()
        invariant
            i <= l@.len(),
            lv == keyed_view(l@),
            forall|k: int| 0 <= k < i ==> lv[k].0 != values_view(key@),
        decreases l@.len() - i,
    {
        if keys_equal(&l[i].0, key) {
            assert(lv[i as int].0 == values_view(key@));
            return true;
        }
        i = i + 1;
    }
    false
}

/// Puts a row among the kept rows, before the first one whose key comes
/// after its own.
fn insert_sorted(l: &mut Vec<(Vec<Value>, Vec<ValueRef>)>, key: Vec<Value>, row: Vec<ValueRef>, width: Ghost<nat>)
    requires
        forall|m: int| 0 <= m < old(l)@.len() ==> (#[trigger] old(l)@[m]).1@.len() == width@,
        row@.len() == width@,
    ensures
        keyed_view(final(l)@) == sorted_insert(keyed_view(old(l)@), (values_view(key@), row@)),
        forall|m: int| 0 <= m < final(l)@.len() ==> (#[trigger] final(l)@[m]).1@.len() == width@,
{
    let ghost lv = keyed_view(l@);
    let ghost kv = values_view(key@);
    let mut i: usize = 0;
    while i < l.len() && !keys_less(&key, &l[i].0)
        invariant
            i <= l@.len(),
            lv == keyed_view(l@),
            kv == values_view(key@),
            first_after(lv, kv, 0) == first_after(lv, kv, i as int),
        decreases l@.len() - i,
    {
        i = i + 1;
    }
    assert(first_after(lv, kv, 0) == i);
    let ghost entry = (kv, row@);
    let ghost before = l@;
    l.insert(i, (key, row));
    assert(keyed_view(l@) =~= lv.insert(i as int, entry));
    assert forall|m: int| 0 <= m < l@.len() implies (#[trigger] l@[m]).1@.len() == width@ by {
        if m < i {
            assert(l@[m] == before[m]);
        } else if m > i {
            assert(l@[m] == before[m - 1]);
        }
    }
}

/// Interns the values of a row.
fn create_row_refs(values: &Vec<Value>, string_pool: &mut StringPool) -> (r: Result<Vec<ValueRef>, Error>)
    requires
        old(string_pool).wf(),
    ensures
        final(string_pool).wf(),
        final(string_pool).spec_codepage() == old(string_pool).spec_codepage(),
        final(string_pool).spec_long_string_refs() == old(string_pool).spec_long_string_refs(),
        match create_row(
            values_view(values@),
            pool_state(*old(string_pool)),
            old(string_pool).spec_long_string_refs(),
            values@.len() as int,
        ) {
            Ok((refs, s)) => r matches Ok(v) && v@ == refs && pool_state(*final(string_pool)) == s,
            Err(kind) => r matches Err(e) && e.kind == kind,
        },
{
    let ghost vv = values_view(values@);
    let ghost start = pool_state(*string_pool);
    let ghost lsr = string_pool.spec_long_string_refs();
    let mut refs: Vec<ValueRef> = Vec::new();
    let mut k: usize = 0;
    while k < values.len()
        invariant
            k <= values@.len(),
            vv == values_view(values@),
            string_pool.wf(),
            string_pool.spec_codepage() == old(string_pool).spec_codepage(),
            string_pool.spec_long_string_refs() == lsr,
            lsr == old(string_pool).spec_long_string_refs(),
            start == pool_state(*old(string_pool)),
            create_row(vv, start, lsr, k as int) == Ok::<_, ErrorKind>((refs@, pool_state(*string_pool))),
        decreases values@.len() - k,
    {
        let fits = match &values[k] {
            Value::Str(text) => string_pool.can_intern(text.as_str()),
            _ => true,
        };
        if !fits {
            proof {
                lemma_create_row_stays_failed(vv, start, lsr, k as int + 1, vv.len() as int);
            }
            return Err(Error::with_text(ErrorKind::InvalidInput, "Too many strings in the string pool"));
        }
        let new_ref = ValueRef::create(values[k].duplicate(), string_pool);
        proof {
            if let ValueRef::Str(sr) = new_ref {
                let chosen = choose|c: StringRef| c.spec_number() == sr.spec_number();
                assert(chosen.spec_number() == sr.spec_number());
                lemma_string_ref_number_injective(chosen, sr);
            }
        }
        refs.push(new_ref);
        k = k + 1;
    }
    Ok(refs)
}

/// Once interning a value fails, interning more fails the same way.
proof fn lemma_create_row_stays_failed(
    values: Seq<ValueView>,
    state: (Seq<(Seq<char>, u16)>, bool),
    long_string_refs: bool,
    k: int,
    n: int,
)
    requires
        0 < k <= n,
        create_row(values, state, long_string_refs, k) is Err,
    ensures
        create_row(values, state, long_string_refs, n) == create_row(values, state, long_string_refs, k),
    decreases n - k,
{
    if k < n {
        lemma_create_row_stays_failed(values, state, long_string_refs, k + 1, n);
    }
}

/// Interning the values of a row gives one reference for each.
proof fn lemma_create_row_len(
    values: Seq<ValueView>,
    state: (Seq<(Seq<char>, u16)>, bool),
    long_string_refs: bool,
    n: int,
)
    requires
        n >= 0,
    ensures
        create_row(values, state, long_string_refs, n) matches Ok((refs, _)) ==> refs.len() == n,
    decreases n,
{
    if n > 0 {
        lemma_create_row_len(values, state, long_string_refs, n - 1);
    }
}

/// The primary key columns are columns of the table.
proof fn lemma_key_indices_in_range(cols: Seq<ColumnView>, n: int)
    requires
        0 <= n <= cols.len(),
    ensures
        forall|k: int|
            0 <= k < primary_key_indices_upto(cols, n).len() ==> #[trigger] primary_key_indices_upto(cols, n)[k]
                < n,
    decreases n,
{
    if n > 0 {
        lemma_key_indices_in_range(cols, n - 1);
        let before = primary_key_indices_upto(cols, n - 1);
        if cols[n - 1].is_primary_key {
            assert forall|k: int| 0 <= k < before.len() + 1 implies #[trigger] before.push((n - 1) as usize)[k] < n by {
                if k < before.len() {
                    assert(before.push((n - 1) as usize)[k] == before[k]);
                }
            }
        }
    }
}

/// The text of the first `n` values, separated by commas.
pub open spec fn values_text(v: Seq<ValueView>, n: int) -> Seq<char>
    decreases n,
{
    if n <= 0 {
        Seq::empty()
    } else if n == 1 {
        value_text(v[0])
    } else {
        values_text(v, n - 1) + ", "@ + value_text(v[n - 1])
    }
}

/// The text of the first `n` rows, each in parentheses, separated by
/// commas.
pub open spec fn rows_text(rows: Seq<Seq<ValueView>>, n: int) -> Seq<char>
    decreases n,
{
    if n <= 0 {
        Seq::empty()
    } else if n == 1 {
        "("@ + values_text(rows[0], rows[0].len() as int) + ")"@
    } else {
        rows_text(rows, n - 1) + ", "@ + "("@ + values_text(rows[n - 1], rows[n - 1].len() as int) + ")"@
    }
}

/// The text of an insert query.
pub open spec fn insert_text(q: InsertView) -> Seq<char> {
    "INSERT INTO "@ + q.table_name + if q.new_rows.len() == 0 {
        Seq::empty()
    } else {
        " VALUES "@ + rows_text(q.new_rows, q.new_rows.len() as int)
    }
}

/// The models of rows of values.
pub open spec fn value_rows_view(rows: Seq<Vec<Value>>) -> Seq<Seq<ValueView>> {
    rows.map_values(|r: Vec<Value>| values_view(r@))
}

/// A database query to insert new rows.
pub struct Insert {
    table_name: String,
    new_rows: Vec<Vec<Value>>,
}

impl View for Insert {
    type V = InsertView;

    closed spec fn view(&self) -> InsertView {
        InsertView { table_name: self.table_name@, new_rows: value_rows_view(self.new_rows@) }
    }
}

/// Checks that every new row has a value for each column, that the column
/// accepts.
/// Whether a new row has a value for each column, that the column accepts.
pub open spec fn new_row_fits(row: Seq<ValueView>, cols: Seq<ColumnView>) -> bool {
    &&& row.len() == cols.len()
    &&& forall|j: int| 0 <= j < cols.len() ==> spec_is_valid_value(cols[j], #[trigger] row[j])
}

/// Whether row `k` is the first new row that does not fit the columns.
pub open spec fn is_first_misfit(rows: Seq<Seq<ValueView>>, cols: Seq<ColumnView>, k: int) -> bool {
    &&& 0 <= k < rows.len()
    &&& !new_row_fits(rows[k], cols)
    &&& forall|m: int| 0 <= m < k ==> new_row_fits(#[trigger] rows[m], cols)
}

/// Whether column `j` is the first whose value the column does not accept.
pub open spec fn is_first_invalid_value(row: Seq<ValueView>, cols: Seq<ColumnView>, j: int) -> bool {
    &&& 0 <= j < cols.len()
    &&& !spec_is_valid_value(cols[j], row[j])
    &&& forall|i: int| 0 <= i < j ==> spec_is_valid_value(cols[i], #[trigger] row[i])
}

/// The message of the error about a value that a column does not accept.
pub open spec fn invalid_value_message(v: ValueView, column_name: Seq<char>) -> Seq<char> {
    value_text(v) + " is not a valid value for column "@ + crate::value::debug_quoted(column_name)
}

/// The message of the error about the first new row that does not fit:
/// its number of values, or its first value that the column does not
/// accept.
pub open spec fn misfit_message(table_name: Seq<char>, rows: Seq<Seq<ValueView>>, cols: Seq<ColumnView>) -> Seq<char> {
    let k = choose|k: int| is_first_misfit(rows, cols, k);
    if rows[k].len() != cols.len() {
        "Table "@ + crate::value::debug_quoted(table_name) + " has "@ + crate::text::nat_text(cols.len())
            + " columns, but a row with "@ + crate::text::nat_text(rows[k].len()) + " values was provided"@
    } else {
        let j = choose|j: int| is_first_invalid_value(rows[k], cols, j);
        invalid_value_message(rows[k][j], cols[j].name)
    }
}

/// The error about the first new row that does not fit the table's
/// columns, or `None` when every row fits.
fn check_new_rows(table: &Table, new_rows: &Vec<Vec<Value>>) -> (r: Option<Error>)
    ensures
        r is None <==> new_rows_valid(value_rows_view(new_rows@), table@.columns),
        r matches Some(e) ==> e.kind == ErrorKind::InvalidInput && e.message@ == misfit_message(
            table@.name,
            value_rows_view(new_rows@),
            table@.columns,
        ),
{
    let ghost nv = value_rows_view(new_rows@);
    let ghost cols = table@.columns;
    let columns = table.columns();
    let mut k: usize = 0;
    while k < new_rows.len()
        invariant
            k <= new_rows@.len(),
            nv == value_rows_view(new_rows@),
            cols == table@.columns,
            columns_view(columns@) == cols,
            forall|m: int| 0 <= m < k ==> new_row_fits(#[trigger] nv[m], cols),
        decreases new_rows@.len() - k,
    {
        let values = &new_rows[k];
        assert(nv[k as int] == values_view(values@));
        if values.len() != columns.len() {
            proof {
                assert(is_first_misfit(nv, cols, k as int));
                let c = choose|c: int| is_first_misfit(nv, cols, c);
                if c < k {
                    assert(new_row_fits(nv[c], cols));
                } else if c > k {
                    assert(new_row_fits(nv[k as int], cols));
                }
            }
            let quoted = crate::value::debug_text(table.name());
            let mut message = crate::text::concat3("Table ", quoted.as_str(), " has ");
            let count = crate::text::nat_to_string(columns.len() as u64);
            message = crate::text::concat3(message.as_str(), count.as_str(), " columns, but a row with ");
            let given = crate::text::nat_to_string(values.len() as u64);
            message = crate::text::concat3(message.as_str(), given.as_str(), " values was provided");
            return Some(Error::new(ErrorKind::InvalidInput, message));
        }
        let mut j: usize = 0;
        while j < columns.len()
            invariant
                k < new_rows@.len(),
                j <= columns@.len(),
                values@.len() == columns@.len(),
                nv == value_rows_view(new_rows@),
                nv[k as int] == values_view(values@),
                cols == table@.columns,
                columns_view(columns@) == cols,
                forall|m: int| 0 <= m < k ==> new_row_fits(#[trigger] nv[m], cols),
                forall|i: int| 0 <= i < j ==> spec_is_valid_value(cols[i], #[trigger] nv[k as int][i]),
            decreases columns@.len() - j,
        {
            if !columns[j].is_valid_value(&values[j]) {
                let ghost row = nv[k as int];
                assert(!spec_is_valid_value(cols[j as int], row[j as int]));
                proof {
                    assert(is_first_misfit(nv, cols, k as int));
                    let c = choose|c: int| is_first_misfit(nv, cols, c);
                    if c < k {
                        assert(new_row_fits(nv[c], cols));
                    } else if c > k {
                        assert(new_row_fits(nv[k as int], cols));
                    }
                    assert(is_first_invalid_value(row, cols, j as int));
                    let d = choose|d: int| is_first_invalid_value(row, cols, d);
                    if d < j {
                        assert(spec_is_valid_value(cols[d], row[d]));
                    } else if d > j {
                        assert(spec_is_valid_value(cols[j as int], row[j as int]));
                    }
                }
                let text = values[j].to_string();
                let quoted = crate::value::debug_text(columns[j].name());
                let message = crate::text::concat3(text.as_str(), " is not a valid value for column ", quoted.as_str());
                return Some(Error::new(ErrorKind::InvalidInput, message));
            }
            j = j + 1;
        }
        k = k + 1;
    }
    None
}

impl Insert {
    /// Returns the name of the table that the query changes.
    pub fn table_name(&self) -> (r: &str)
        ensures
            r@ == self@.table_name,
    {
        self.table_name.as_str()
    }

    /// Starts building a query that will insert rows into the specified table.
    pub fn into(table_name: &str) -> (r: Insert)
        ensures
            r@ == (InsertView { table_name: table_name@, new_rows: Seq::empty() }),
    {
        let r = Insert { table_name: table_name.to_owned(), new_rows: Vec::new() };
        assert(value_rows_view(r.new_rows@) =~= Seq::empty());
        r
    }

    /// Adds a new row to be inserted into the table.
    pub fn row(self, values: Vec<Value>) -> (r: Insert)
        ensures
            r@ == (InsertView { new_rows: self@.new_rows.push(values_view(values@)), ..self@ }),
    {
        let mut q = self;
        let ghost before = q.new_rows@;
        let ghost vv = values_view(values@);
        q.new_rows.push(values);
        assert(value_rows_view(q.new_rows@) =~= value_rows_view(before).push(vv));
        q
    }

    /// Adds multiple new rows to be inserted into the table.
    pub fn rows(self, rows: Vec<Vec<Value>>) -> (r: Insert)
        ensures
            r@ == (InsertView { new_rows: self@.new_rows + value_rows_view(rows@), ..self@ }),
    {
        let mut q = self;
        let ghost before = q.new_rows@;
        let mut rows = rows;
        let ghost added = rows@;
        q.new_rows.append(&mut rows);
        assert(value_rows_view(q.new_rows@) =~= value_rows_view(before) + value_rows_view(added));
        q
    }

    /// Returns the text of the query (what `Display` writes).
    pub fn to_string(&self) -> (r: String)
        ensures
            r@ == insert_text(self@),
    {
        let ghost rv = value_rows_view(self.new_rows@);
        let mut out: Vec<char> = Vec::new();
        proof {
            reveal_strlit("INSERT INTO ");
            reveal_strlit(" VALUES ");
            reveal_strlit(", ");
            reveal_strlit("(");
            reveal_strlit(")");
        }
        append_str(&mut out, "INSERT INTO ");
        append_str(&mut out, self.table_name.as_str());
        if self.new_rows.len() > 0 {
            append_str(&mut out, " VALUES ");
            let ghost prefix = out@;
            let mut k: usize = 0;
            while k < self.new_rows.len()
                invariant
                    k <= self.new_rows@.len(),
                    rv == value_rows_view(self.new_rows@),
                    out@ == prefix + rows_text(rv, k as int),
                decreases self.new_rows@.len() - k,
            {
                if k > 0 {
                    append_str(&mut out, ", ");
                }
                append_str(&mut out, "(");
                let values = &self.new_rows[k];
                let ghost vv = values_view(values@);
                assert(rv[k as int] == vv);
                let ghost inner = out@;
                let mut j: usize = 0;
                while j < values.len()
                    invariant
                        j <= values@.len(),
                        vv == values_view(values@),
                        out@ == inner + values_text(vv, j as int),
                    decreases values@.len() - j,
                {
                    if j > 0 {
                        append_str(&mut out, ", ");
                    }
                    append_str(&mut out, values[j].to_string().as_str());
                    assert(out@ =~= inner + values_text(vv, j + 1));
                    j = j + 1;
                }
                append_str(&mut out, ")");
                assert(out@ =~= prefix + rows_text(rv, k + 1));
                k = k + 1;
            }
        }
        assert(out@ =~= insert_text(self@));
        string_from_chars(out.as_slice())
    }
}

impl Insert {
    /// Runs the query on the package's tables, the contents of their
    /// streams and the string pool.  Gives back the new contents of the
    /// table's stream, with the stored and the new rows in the order of
    /// their primary keys.  Fails with `NotFound` when the table does not
    /// exist; with `InvalidInput` when a new row does not have a valid value
    /// for each column, when two new rows have the same key, or when the
    /// pool has no room for a string; with `InvalidData` when two stored
    /// rows have the same key; and with `AlreadyExists` when a new row has
    /// the key of a stored one.  The pool is unchanged on error.
    pub fn exec(self, string_pool: &mut StringPool, tables: &[Rc<Table>], streams: &[(String, Vec<u8>)]) -> (r:
        Result<Vec<u8>, Error>)
        requires
            old(string_pool).wf(),
        ensures
            final(string_pool).wf(),
            final(string_pool).spec_codepage() == old(string_pool).spec_codepage(),
            final(string_pool).spec_long_string_refs() == old(string_pool).spec_long_string_refs(),
            match insert_result(
                self@,
                tables_view(tables@),
                streams_view(streams@),
                pool_state(*old(string_pool)),
                old(string_pool).spec_long_string_refs(),
            ) {
                Ok((bytes, s)) => r matches Ok(b) && b@ == bytes && pool_state(*final(string_pool)) == s,
                Err(kind) => r matches Err(e) && e.kind == kind && pool_state(*final(string_pool))
                    == pool_state(*old(string_pool)),
            },
            table_index(tables_view(tables@), self@.table_name) is None ==> (r matches Err(e) && e.message@
                == no_table_message(self@.table_name)),
            match table_index(tables_view(tables@), self@.table_name) {
                Some(i) => !new_rows_valid(self@.new_rows, tables_view(tables@)[i].columns) ==> (r matches Err(e)
                    && e.message@ == misfit_message(tables_view(tables@)[i].name, self@.new_rows, tables_view(tables@)[i].columns)),
                None => true,
            },
            match table_index(tables_view(tables@), self@.table_name) {
                Some(i) => {
                    let t = tables_view(tables@)[i];
                    let keys = primary_key_indices_upto(t.columns, t.columns.len() as int);
                    let rows = stored_rows(t, stored_data(streams_view(streams@), t.name));
                    new_rows_valid(self@.new_rows, t.columns) ==> match sorted_rows(
                        rows,
                        keys,
                        old(string_pool).entries(),
                        rows.len() as int,
                    ) {
                        None => r matches Err(e) && e.message@ == malformed_message(t.name, rows, keys, old(string_pool).entries()),
                        Some(stored) => key_conflict(self@.new_rows, keys, stored, self@.new_rows.len() as int) is Some
                            ==> (r matches Err(e) && e.message@ == conflict_message(
                            t.name,
                            self@.new_rows,
                            keys,
                            stored,
                        )),
                    }
                },
                None => true,
            },
    {
        let ghost tv = tables_view(tables@);
        let ghost q = self@;
        let ghost lsr = string_pool.spec_long_string_refs();
        let ghost start = pool_state(*string_pool);
        let ghost entries = string_pool.entries();
        let index = match find_table(tables, self.table_name.as_str()) {
            Some(index) => index,
            None => {
                return Err(no_such_table(self.table_name.as_str()));
            },
        };
        let table = &tables[index];
        let ghost t = (**table)@;
        let ghost width = t.columns.len();
        assert(t == tv[index as int]);
        match check_new_rows(table, &self.new_rows) {
            Some(e) => {
                return Err(e);
            },
            None => {},
        }
        let ghost nv = q.new_rows;
        let rows = load_rows(table, find_stream(streams, table.name()));
        let ghost rv = rows_view(rows@);
        let key_indices = table.primary_key_indices();
        let ghost ki = key_indices@;
        proof {
            lemma_key_indices_in_range(t.columns, t.columns.len() as int);
        }
        // The stored rows, in key order.
        let mut sorted: Vec<(Vec<Value>, Vec<ValueRef>)> = Vec::new();
        assert(keyed_view(sorted@) =~= Seq::<KeyedRow>::empty());
        let mut i: usize = 0;
        while i < rows.len()
            invariant
                i <= rows@.len(),
                rv == rows_view(rows@),
                ki == key_indices@,
                entries == string_pool.entries(),
                *string_pool == *old(string_pool),
                forall|k: int| 0 <= k < ki.len() ==> #[trigger] ki[k] < width,
                forall|k: int| 0 <= k < rows@.len() ==> #[trigger] rows@[k]@.len() == width,
                forall|m: int| 0 <= m < sorted@.len() ==> (#[trigger] sorted@[m]).1@.len() == width,
                sorted_rows(rv, ki, entries, i as int) == Some(keyed_view(sorted@)),
                nv == q.new_rows,
                string_pool.wf(),
                *string_pool == *old(string_pool),
                start == pool_state(*old(string_pool)),
                lsr == old(string_pool).spec_long_string_refs(),
                entries == start.0,
                q == self@,
                tv == tables_view(tables@),
                (**table)@ == t,
                table_index(tv, q.table_name) == Some(index as int),
                t == tv[index as int],
                rv == stored_rows(t, stored_data(streams_view(streams@), t.name)),
                ki == primary_key_indices_upto(t.columns, t.columns.len() as int),
                new_rows_valid(nv, t.columns),
                width == t.columns.len(),
            decreases rows@.len() - i,
        {
            assert forall|k: int| 0 <= k < key_indices@.len() implies #[trigger] key_indices@[k] < rows@[i as int]@.len() by {
                assert(ki[k] < width);
            }
            let key = key_of_refs(&rows[i], &key_indices, string_pool);
            if contains_key(&sorted, &key) {
                proof {
                    lemma_sorted_rows_stays_failed(rv, ki, entries, i as int + 1, rv.len() as int);
                    assert(is_first_repeated_row(rv, ki, entries, i as int));
                    let c = choose|c: int| is_first_repeated_row(rv, ki, entries, c);
                    if c < i {
                        lemma_sorted_rows_stays_failed(rv, ki, entries, c + 1, i as int);
                    } else if c > i {
                        lemma_sorted_rows_stays_failed(rv, ki, entries, i as int + 1, c);
                    }
                    assert((choose|c: int| is_first_repeated_row(rv, ki, entries, c)) == i);
                }
                let quoted = crate::value::debug_text(table.name());
                let text = key_text(&key);
                let message = crate::text::concat3("Malformed table ", quoted.as_str(), " contains multiple rows with key ");
                let full = crate::text::concat2(message.as_str(), text.as_str());
                assert(full@ =~= malformed_message(t.name, rv, ki, entries));
                return Err(Error::new(ErrorKind::InvalidData, full));
            }
            insert_sorted(&mut sorted, key, copy_refs(&rows[i]), Ghost(width));
            i = i + 1;
        }
        let ghost stored = keyed_view(sorted@);
        // Check the keys of the new rows.
        let mut new_keys: Vec<Vec<Value>> = Vec::new();
        let mut k: usize = 0;
        while k < self.new_rows.len()
            invariant
                k <= self.new_rows@.len(),
                nv == value_rows_view(self.new_rows@),
                ki == key_indices@,
                stored == keyed_view(sorted@),
                new_rows_valid(nv, t.columns),
                width == t.columns.len(),
                forall|m: int| 0 <= m < ki.len() ==> #[trigger] ki[m] < width,
                new_keys@.len() == k,
                forall|m: int| 0 <= m < k ==> values_view((#[trigger] new_keys@[m])@) == values_key(nv[m], ki),
                key_conflict(nv, ki, stored, k as int) is None,
                string_pool.wf(),
                *string_pool == *old(string_pool),
                start == pool_state(*old(string_pool)),
                lsr == old(string_pool).spec_long_string_refs(),
                entries == start.0,
                q == self@,
                tv == tables_view(tables@),
                (**table)@ == t,
                table_index(tv, q.table_name) == Some(index as int),
                t == tv[index as int],
                rv == stored_rows(t, stored_data(streams_view(streams@), t.name)),
                ki == primary_key_indices_upto(t.columns, t.columns.len() as int),
                sorted_rows(rv, ki, entries, rv.len() as int) == Some(stored),
            decreases self.new_rows@.len() - k,
        {
            assert(nv[k as int].len() == width);
            assert(nv[k as int] == values_view(self.new_rows@[k as int]@));
            let key = key_of_values(&self.new_rows[k], &key_indices);
            if contains_key(&sorted, &key) {
                proof {
                    lemma_key_conflict_stays(nv, ki, stored, k as int + 1, nv.len() as int);
                    lemma_first_conflict(nv, ki, stored, k as int);
                }
                let quoted = crate::value::debug_text(table.name());
                let text = key_text(&key);
                let message = crate::text::concat3("Table ", quoted.as_str(), " already contains a row with key ");
                let full = crate::text::concat2(message.as_str(), text.as_str());
                assert(has_key(stored, values_key(nv[k as int], ki)));
                assert(full@ =~= conflict_message(t.name, nv, ki, stored));
                return Err(Error::new(ErrorKind::AlreadyExists, full));
            }
            let mut j: usize = 0;
            while j < new_keys.len() && !keys_equal(&new_keys[j], &key)
                invariant
                    j <= new_keys@.len(),
                    new_keys@.len() == k,
                    k < nv.len(),
                    forall|m: int| 0 <= m < k ==> values_view((#[trigger] new_keys@[m])@) == values_key(nv[m], ki),
                    values_view(key@) == values_key(nv[k as int], ki),
                    forall|m: int| 0 <= m < j ==> values_key(nv[m], ki) != values_key(nv[k as int], ki),
                decreases new_keys@.len() - j,
            {
                j = j + 1;
            }
            if j < new_keys.len() {
                assert(values_key(nv[j as int], ki) == values_key(nv[k as int], ki));
                proof {
                    assert(key_conflict(nv, ki, stored, k + 1) == Some(ErrorKind::InvalidInput));
                    lemma_key_conflict_stays(nv, ki, stored, k as int + 1, nv.len() as int);
                    lemma_first_conflict(nv, ki, stored, k as int);
                }
                let text = key_text(&key);
                return Err(
                    Error::new(
                        ErrorKind::InvalidInput,
                        crate::text::concat2("Cannot insert multiple rows with key ", text.as_str()),
                    ),
                );
            }
            new_keys.push(key);
            k = k + 1;
        }
        // Insert the new rows.
        let mut pool = string_pool.duplicate();
        let mut k: usize = 0;
        while k < self.new_rows.len()
            invariant
                k <= self.new_rows@.len(),
                nv == value_rows_view(self.new_rows@),
                ki == key_indices@,
                new_rows_valid(nv, t.columns),
                width == t.columns.len(),
                forall|m: int| 0 <= m < ki.len() ==> #[trigger] ki[m] < width,
                forall|m: int| 0 <= m < sorted@.len() ==> (#[trigger] sorted@[m]).1@.len() == width,
                string_pool.wf(),
                *string_pool == *old(string_pool),
                start == pool_state(*old(string_pool)),
                lsr == old(string_pool).spec_long_string_refs(),
                pool.wf(),
                pool.spec_codepage() == string_pool.spec_codepage(),
                pool.spec_long_string_refs() == lsr,
                insert_rows(nv, ki, stored, start, lsr, k as int) == Ok::<_, ErrorKind>(
                    (keyed_view(sorted@), pool_state(pool)),
                ),
                q == self@,
                tv == tables_view(tables@),
                table_index(tv, q.table_name) == Some(index as int),
                t == tv[index as int],
                rv == stored_rows(t, stored_data(streams_view(streams@), t.name)),
                ki == primary_key_indices_upto(t.columns, t.columns.len() as int),
                sorted_rows(rv, ki, entries, rv.len() as int) == Some(stored),
                entries == start.0,
                key_conflict(nv, ki, stored, nv.len() as int) is None,
            decreases self.new_rows@.len() - k,
        {
            let values = &self.new_rows[k];
            assert(nv[k as int] == values_view(values@));
            let ghost st = pool_state(pool);
            let refs = match create_row_refs(values, &mut pool) {
                Ok(refs) => refs,
                Err(e) => {
                    proof {
                        lemma_insert_rows_stays_failed(nv, ki, stored, start, lsr, k as int + 1, nv.len() as int);
                    }
                    return Err(e);
                },
            };
            proof {
                lemma_create_row_len(nv[k as int], st, lsr, nv[k as int].len() as int);
            }
            let key = key_of_values(values, &key_indices);
            insert_sorted(&mut sorted, key, refs, Ghost(width));
            k = k + 1;
        }
        let ghost all = keyed_view(sorted@);
        let mut out: Vec<Vec<ValueRef>> = Vec::new();
        let mut m: usize = 0;
        while m < sorted.len()
            invariant
                m <= sorted@.len(),
                all == keyed_view(sorted@),
                forall|x: int| 0 <= x < sorted@.len() ==> (#[trigger] sorted@[x]).1@.len() == width,
                forall|x: int| 0 <= x < out@.len() ==> (#[trigger] out@[x])@.len() == width,
                rows_view(out@) == all.map_values(|p: KeyedRow| p.1).take(m as int),
            decreases sorted@.len() - m,
        {
            let ghost before = out@;
            let row = copy_refs(&sorted[m].1);
            out.push(row);
            assert(rows_view(out@) =~= rows_view(before).push(row@));
            assert(rows_view(out@) =~= all.map_values(|p: KeyedRow| p.1).take(m + 1));
            m = m + 1;
        }
        assert(all.map_values(|p: KeyedRow| p.1).take(m as int) =~= all.map_values(|p: KeyedRow| p.1));
        match table.write_rows(&out) {
            Ok(bytes) => {
                *string_pool = pool;
                Ok(bytes)
            },
            Err(e) => Err(e),
        }
    }
}

/// Once two stored rows share a key, sorting more rows fails too.
proof fn lemma_sorted_rows_stays_failed(
    rows: Seq<Seq<ValueRef>>,
    key_indices: Seq<usize>,
    entries: Seq<(Seq<char>, u16)>,
    k: int,
    n: int,
)
    requires
        0 < k <= n,
        sorted_rows(rows, key_indices, entries, k) is None,
    ensures
        sorted_rows(rows, key_indices, entries, n) is None,
    decreases n - k,
{
    if k < n {
        lemma_sorted_rows_stays_failed(rows, key_indices, entries, k + 1, n);
    }
}

/// Once a new row's key is taken, the first conflict stays the answer.
proof fn lemma_key_conflict_stays(
    new_rows: Seq<Seq<ValueView>>,
    key_indices: Seq<usize>,
    stored: Seq<KeyedRow>,
    k: int,
    n: int,
)
    requires
        0 < k <= n,
        key_conflict(new_rows, key_indices, stored, k) is Some,
    ensures
        key_conflict(new_rows, key_indices, stored, n) == key_conflict(new_rows, key_indices, stored, k),
    decreases n - k,
{
    if k < n {
        lemma_key_conflict_stays(new_rows, key_indices, stored, k + 1, n);
    }
}

/// Once inserting a new row fails, inserting more fails the same way.
proof fn lemma_insert_rows_stays_failed(
    new_rows: Seq<Seq<ValueView>>,
    key_indices: Seq<usize>,
    stored: Seq<KeyedRow>,
    state: (Seq<(Seq<char>, u16)>, bool),
    long_string_refs: bool,
    k: int,
    n: int,
)
    requires
        0 < k <= n,
        insert_rows(new_rows, key_indices, stored, state, long_string_refs, k) is Err,
    ensures
        insert_rows(new_rows, key_indices, stored, state, long_string_refs, n) == insert_rows(
            new_rows,
            key_indices,
            stored,
            state,
            long_string_refs,
            k,
        ),
    decreases n - k,
{
    if k < n {
        lemma_insert_rows_stays_failed(new_rows, key_indices, stored, state, long_string_refs, k + 1, n);
    }
}


/// No key comes before itself.
pub proof fn lemma_key_less_irreflexive(a: Seq<ValueView>)
    ensures
        !key_less(a, a),
    decreases a.len(),
{
    if a.len() > 0 {
        lemma_key_less_irreflexive(a.drop_first());
    }
}

/// The order of keys is transitive.
pub proof fn lemma_key_less_transitive(a: Seq<ValueView>, b: Seq<ValueView>, c: Seq<ValueView>)
    requires
        key_less(a, b),
        key_less(b, c),
    ensures
        key_less(a, c),
    decreases a.len(),
{
    if a.len() > 0 && b.len() > 0 && c.len() > 0 {
        crate::value::lemma_value_less_order(a[0], b[0], c[0]);
        crate::value::lemma_value_less_order(a[0], c[0], b[0]);
        crate::value::lemma_value_less_order(b[0], a[0], c[0]);
        crate::value::lemma_value_less_order(b[0], c[0], a[0]);
        crate::value::lemma_value_less_order(c[0], a[0], b[0]);
        if a[0] == b[0] && b[0] == c[0] {
            lemma_key_less_transitive(a.drop_first(), b.drop_first(), c.drop_first());
        }
    }
}

/// Of two different keys, one comes before the other.
pub proof fn lemma_key_less_total(a: Seq<ValueView>, b: Seq<ValueView>)
    requires
        a != b,
    ensures
        key_less(a, b) || key_less(b, a),
    decreases a.len(),
{
    if a.len() > 0 && b.len() > 0 {
        crate::value::lemma_value_less_order(a[0], b[0], a[0]);
        if a[0] == b[0] {
            assert(a.drop_first() != b.drop_first()) by {
                if a.drop_first() == b.drop_first() {
                    assert(a.drop_first().len() == b.drop_first().len());
                    assert forall|i: int| 0 <= i < a.len() implies a[i] == b[i] by {
                        if i > 0 {
                            assert(a[i] == a.drop_first()[i - 1]);
                            assert(b[i] == b.drop_first()[i - 1]);
                        }
                    }
                    assert(a =~= b);
                }
            }
            lemma_key_less_total(a.drop_first(), b.drop_first());
        }
    } else if a.len() == 0 && b.len() == 0 {
        assert(a =~= b);
    }
}

/// Whether the keys of some rows strictly increase.
pub open spec fn keys_in_order(l: Seq<KeyedRow>) -> bool {
    forall|i: int, j: int| 0 <= i < j < l.len() ==> key_less(l[i].0, l[j].0)
}

/// In rows in key order, the rows before `first_after` have keys that do
/// not come after `key`, and the one at it, if any, a key that does.
proof fn lemma_first_after(l: Seq<KeyedRow>, key: Seq<ValueView>, i: int)
    requires
        0 <= i <= l.len(),
        forall|k: int| 0 <= k < i ==> !key_less(key, #[trigger] l[k].0),
    ensures
        i <= first_after(l, key, i) <= l.len(),
        forall|k: int| 0 <= k < first_after(l, key, i) ==> !key_less(key, #[trigger] l[k].0),
        first_after(l, key, i) < l.len() ==> key_less(key, l[first_after(l, key, i)].0),
    decreases l.len() - i,
{
    if i < l.len() && !key_less(key, l[i].0) {
        lemma_first_after(l, key, i + 1);
    }
}

/// Inserting a row with a new key into rows in key order keeps them in key
/// order, and adds its key to theirs.
pub proof fn lemma_sorted_insert_in_order(l: Seq<KeyedRow>, row: KeyedRow)
    requires
        keys_in_order(l),
        !has_key(l, row.0),
    ensures
        keys_in_order(sorted_insert(l, row)),
        forall|key: Seq<ValueView>| has_key(sorted_insert(l, row), key) <==> (has_key(l, key) || key == row.0),
{
    let key = row.0;
    lemma_first_after(l, key, 0);
    let p = first_after(l, key, 0);
    let r = sorted_insert(l, row);
    assert(r == l.insert(p, row));
    assert forall|k: int| 0 <= k < p implies key_less(#[trigger] l[k].0, key) by {
        assert(l[k].0 != key);
        lemma_key_less_total(l[k].0, key);
    }
    assert forall|k: int| p <= k < l.len() implies key_less(key, #[trigger] l[k].0) by {
        if k > p {
            lemma_key_less_transitive(key, l[p].0, l[k].0);
        }
    }
    assert forall|a: int, b: int| 0 <= a < b < r.len() implies key_less(r[a].0, r[b].0) by {
        if b < p {
        } else if a < p && b == p {
        } else if a < p {
            assert(r[b] == l[b - 1]);
            lemma_key_less_transitive(l[a].0, key, l[b - 1].0);
        } else if a == p {
            assert(r[b] == l[b - 1]);
        } else {
            assert(r[a] == l[a - 1]);
            assert(r[b] == l[b - 1]);
        }
    }
    assert forall|k: Seq<ValueView>| has_key(r, k) <==> (has_key(l, k) || k == key) by {
        if has_key(l, k) {
            let j = choose|j: int| 0 <= j < l.len() && l[j].0 == k;
            if j < p {
                assert(r[j] == l[j]);
            } else {
                assert(r[j + 1] == l[j]);
            }
        }
        if k == key {
            assert(r[p].0 == key);
        }
        if has_key(r, k) {
            let j = choose|j: int| 0 <= j < r.len() && r[j].0 == k;
            if j < p {
                assert(r[j] == l[j]);
            } else if j > p {
                assert(r[j] == l[j - 1]);
            }
        }
    }
}

/// The stored rows, when no two have one key, come out in key order.
pub proof fn lemma_sorted_rows_in_order(
    rows: Seq<Seq<ValueRef>>,
    key_indices: Seq<usize>,
    entries: Seq<(Seq<char>, u16)>,
    n: int,
)
    ensures
        sorted_rows(rows, key_indices, entries, n) matches Some(l) ==> keys_in_order(l),
    decreases n,
{
    if n > 0 {
        lemma_sorted_rows_in_order(rows, key_indices, entries, n - 1);
        if let Some(l) = sorted_rows(rows, key_indices, entries, n - 1) {
            let key = refs_key(rows[n - 1], key_indices, entries);
            if !has_key(l, key) {
                lemma_sorted_insert_in_order(l, (key, rows[n - 1]));
            }
        }
    }
}

/// Whether one of the first `n` new rows has the key.
pub open spec fn new_key(new_rows: Seq<Seq<ValueView>>, key_indices: Seq<usize>, n: int, key: Seq<ValueView>) -> bool {
    exists|j: int| 0 <= j < n && values_key(new_rows[j], key_indices) == key
}

/// Inserting new rows whose keys conflict neither with the stored rows nor
/// with each other keeps rows in key order, and gives the keys of the
/// stored and the new rows.
pub proof fn lemma_inserted_rows_in_order(
    new_rows: Seq<Seq<ValueView>>,
    key_indices: Seq<usize>,
    stored: Seq<KeyedRow>,
    state: (Seq<(Seq<char>, u16)>, bool),
    long_string_refs: bool,
    n: int,
)
    requires
        keys_in_order(stored),
        key_conflict(new_rows, key_indices, stored, n) is None,
    ensures
        insert_rows(new_rows, key_indices, stored, state, long_string_refs, n) matches Ok((l, _)) ==> {
            &&& keys_in_order(l)
            &&& forall|key: Seq<ValueView>|
                #[trigger] has_key(l, key) <==> (has_key(stored, key) || new_key(new_rows, key_indices, n, key))
        },
    decreases n,
{
    if n > 0 {
        lemma_inserted_rows_in_order(new_rows, key_indices, stored, state, long_string_refs, n - 1);
        if let Ok((l, s)) = insert_rows(new_rows, key_indices, stored, state, long_string_refs, n - 1) {
            if let Ok((refs, s2)) = create_row(new_rows[n - 1], s, long_string_refs, new_rows[n - 1].len() as int) {
                let key = values_key(new_rows[n - 1], key_indices);
                assert(!has_key(l, key)) by {
                    if new_key(new_rows, key_indices, n - 1, key) {
                        let j = choose|j: int| 0 <= j < n - 1 && values_key(new_rows[j], key_indices) == key;
                        assert(values_key(new_rows[j], key_indices) == key);
                    }
                }
                lemma_sorted_insert_in_order(l, (key, refs));
                let r = sorted_insert(l, (key, refs));
                assert forall|k: Seq<ValueView>| #[trigger] has_key(r, k) <==> (has_key(stored, k) || new_key(
                    new_rows,
                    key_indices,
                    n,
                    k,
                )) by {
                    assert(has_key(l, k) <==> (has_key(stored, k) || new_key(new_rows, key_indices, n - 1, k)));
                    assert(has_key(r, k) <==> (has_key(l, k) || k == key));
                    if new_key(new_rows, key_indices, n, k) {
                        let j = choose|j: int| 0 <= j < n && values_key(new_rows[j], key_indices) == k;
                        if j < n - 1 {
                            assert(new_key(new_rows, key_indices, n - 1, k));
                        } else {
                            assert(k == key);
                        }
                    }
                    if new_key(new_rows, key_indices, n - 1, k) {
                        let j = choose|j: int| 0 <= j < n - 1 && values_key(new_rows[j], key_indices) == k;
                        assert(values_key(new_rows[j], key_indices) == k);
                    }
                    if k == key {
                        assert(values_key(new_rows[n - 1], key_indices) == k);
                    }
                }
            }
        }
    }
}

/// No key conflict comes up exactly when no new row's key is a stored
/// row's key or the key of an earlier new row.
pub proof fn lemma_key_conflict_none(
    new_rows: Seq<Seq<ValueView>>,
    key_indices: Seq<usize>,
    stored: Seq<KeyedRow>,
    n: int,
)
    requires
        n <= new_rows.len(),
    ensures
        key_conflict(new_rows, key_indices, stored, n) is None <==> forall|j: int|
            0 <= j < n ==> !has_key(stored, #[trigger] values_key(new_rows[j], key_indices)) && forall|i: int|
                0 <= i < j ==> values_key(new_rows[i], key_indices) != values_key(new_rows[j], key_indices),
    decreases n,
{
    if n > 0 {
        lemma_key_conflict_none(new_rows, key_indices, stored, n - 1);
    }
}

/// Whether a value reference reads back from a column of the type once
/// written, given that it can be written: an integer in the range whose
/// stored form is not the null marker, and a reference with a valid number.
pub open spec fn ref_fits(t: crate::column::ColumnType, v: ValueRef) -> bool {
    &&& t is Int16 ==> (v matches ValueRef::Int(n) ==> -32768 < n <= 32767)
    &&& t is Int32 ==> (v matches ValueRef::Int(n) ==> n != i32::MIN)
    &&& v matches ValueRef::Str(s) ==> 0 < s.spec_number() <= crate::stringpool::MAX_STRING_REF
}

/// Whether a row has a value for each column, each of which fits it.
pub open spec fn row_fits(cols: Seq<ColumnView>, row: Seq<ValueRef>) -> bool {
    &&& row.len() == cols.len()
    &&& forall|j: int| 0 <= j < cols.len() ==> ref_fits(cols[j].coltype, #[trigger] row[j])
}

/// Whether every keyed row fits the columns.
pub open spec fn keyed_fit(cols: Seq<ColumnView>, l: Seq<KeyedRow>) -> bool {
    forall|i: int| 0 <= i < l.len() ==> row_fits(cols, #[trigger] l[i].1)
}

/// The rows that a table stream holds fit the table's columns.
proof fn lemma_decoded_rows_fit(t: TableView, data: Seq<u8>)
    ensures
        forall|i: int| 0 <= i < decoded_rows(t, data).len() ==> row_fits(t.columns, #[trigger] decoded_rows(t, data)[i]),
{
    let rows = decoded_rows(t, data);
    assert forall|i: int| 0 <= i < rows.len() implies row_fits(t.columns, #[trigger] rows[i]) by {
        assert forall|j: int| 0 <= j < t.columns.len() implies ref_fits(t.columns[j].coltype, #[trigger] rows[i][j]) by {
            let n = crate::table::num_rows(t.columns, t.long_string_refs, data.len() as int);
            let pos = crate::table::value_pos(t.columns, t.long_string_refs, n, i, j);
            let ct = t.columns[j].coltype;
            match ct {
                crate::column::ColumnType::Str(_) => {
                    if let Some(k) = crate::stringpool::spec_read_ref_number(data, pos, t.long_string_refs) {
                        if k != 0 {
                            assert(0 < k <= crate::stringpool::MAX_STRING_REF) by {
                                if t.long_string_refs {
                                    assert(data[pos + 2] <= 255);
                                }
                            }
                            crate::stringpool::lemma_string_ref_with_number(k);
                        }
                    }
                },
                _ => {},
            }
        }
    }
}

/// Inserting a row that fits, in key order, keeps every row fitting.
proof fn lemma_sorted_insert_fits(cols: Seq<ColumnView>, l: Seq<KeyedRow>, row: KeyedRow)
    requires
        keyed_fit(cols, l),
        row_fits(cols, row.1),
    ensures
        keyed_fit(cols, sorted_insert(l, row)),
{
    lemma_first_after(l, row.0, 0);
    let p = first_after(l, row.0, 0);
    let r = sorted_insert(l, row);
    assert forall|i: int| 0 <= i < r.len() implies row_fits(cols, #[trigger] r[i].1) by {
        if i < p {
            assert(r[i] == l[i]);
        } else if i > p {
            assert(r[i] == l[i - 1]);
        }
    }
}

/// Sorting rows that fit gives rows that fit.
proof fn lemma_sorted_rows_fit(
    cols: Seq<ColumnView>,
    rows: Seq<Seq<ValueRef>>,
    key_indices: Seq<usize>,
    entries: Seq<(Seq<char>, u16)>,
    n: int,
)
    requires
        n <= rows.len(),
        forall|i: int| 0 <= i < rows.len() ==> row_fits(cols, #[trigger] rows[i]),
    ensures
        sorted_rows(rows, key_indices, entries, n) matches Some(l) ==> keyed_fit(cols, l),
    decreases n,
{
    if n > 0 {
        lemma_sorted_rows_fit(cols, rows, key_indices, entries, n - 1);
        if let Some(l) = sorted_rows(rows, key_indices, entries, n - 1) {
            let key = refs_key(rows[n - 1], key_indices, entries);
            if !has_key(l, key) {
                lemma_sorted_insert_fits(cols, l, (key, rows[n - 1]));
            }
        }
    }
}

/// The references created for the first `n` values of a new row fit the
/// columns, and the pool stays within `MAX_STRING_REF` entries.
proof fn lemma_create_row_fits(
    cols: Seq<ColumnView>,
    values: Seq<ValueView>,
    state: (Seq<(Seq<char>, u16)>, bool),
    long_string_refs: bool,
    n: int,
)
    requires
        0 <= n <= values.len() == cols.len(),
        forall|j: int| 0 <= j < cols.len() ==> spec_is_valid_value(cols[j], #[trigger] values[j]),
        state.0.len() <= crate::stringpool::MAX_STRING_REF,
    ensures
        create_row(values, state, long_string_refs, n) matches Ok((refs, s)) ==> {
            &&& refs.len() == n
            &&& forall|j: int| 0 <= j < n ==> ref_fits(cols[j].coltype, #[trigger] refs[j])
            &&& s.0.len() <= crate::stringpool::MAX_STRING_REF
        },
    decreases n,
{
    if n > 0 {
        lemma_create_row_fits(cols, values, state, long_string_refs, n - 1);
        if let Ok((refs, s)) = create_row(values, state, long_string_refs, n - 1) {
            if can_create(values[n - 1], s.0, long_string_refs) {
                let (r, s2) = created_ref(values[n - 1], s);
                if let ValueView::Str(text) = values[n - 1] {
                    crate::stringpool::lemma_incref_bounds(s.0, text, long_string_refs);
                    let k = spec_incref(s.0, text).1;
                    crate::stringpool::lemma_string_ref_with_number(k + 1);
                }
                let out = refs.push(r);
                assert forall|j: int| 0 <= j < n implies ref_fits(cols[j].coltype, #[trigger] out[j]) by {
                    if j < n - 1 {
                        assert(out[j] == refs[j]);
                    }
                }
            }
        }
    }
}

/// Inserting new rows that the columns accept into stored rows that fit
/// gives rows that fit, and keeps the pool within `MAX_STRING_REF` entries.
proof fn lemma_insert_rows_fit(
    cols: Seq<ColumnView>,
    new_rows: Seq<Seq<ValueView>>,
    key_indices: Seq<usize>,
    stored: Seq<KeyedRow>,
    state: (Seq<(Seq<char>, u16)>, bool),
    long_string_refs: bool,
    n: int,
)
    requires
        n <= new_rows.len(),
        new_rows_valid(new_rows, cols),
        keyed_fit(cols, stored),
        state.0.len() <= crate::stringpool::MAX_STRING_REF,
    ensures
        insert_rows(new_rows, key_indices, stored, state, long_string_refs, n) matches Ok((l, s)) ==> keyed_fit(
            cols,
            l,
        ) && s.0.len() <= crate::stringpool::MAX_STRING_REF,
    decreases n,
{
    if n > 0 {
        lemma_insert_rows_fit(cols, new_rows, key_indices, stored, state, long_string_refs, n - 1);
        if let Ok((l, s)) = insert_rows(new_rows, key_indices, stored, state, long_string_refs, n - 1) {
            let row = new_rows[n - 1];
            assert(row.len() == cols.len());
            lemma_create_row_fits(cols, row, s, long_string_refs, row.len() as int);
            if let Ok((refs, s2)) = create_row(row, s, long_string_refs, row.len() as int) {
                lemma_sorted_insert_fits(cols, l, (values_key(row, key_indices), refs));
            }
        }
    }
}

/// Inserting rows, when it succeeds, gives a stream from which the table
/// reads back its stored rows and the new ones, in the order of their keys:
/// the keys of the rows read back are those of the stored rows and those of
/// the new rows, and no key comes twice.
pub proof fn lemma_insert_reads_back(
    q: InsertView,
    tables: Seq<TableView>,
    streams: Seq<(Seq<char>, Seq<u8>)>,
    state: (Seq<(Seq<char>, u16)>, bool),
    long_string_refs: bool,
)
    requires
        state.0.len() <= crate::stringpool::MAX_STRING_REF,
        table_index(tables, q.table_name) matches Some(i) ==> tables[i].columns.len() > 0,
    ensures
        insert_result(q, tables, streams, state, long_string_refs) matches Ok((bytes, _)) ==> {
            let t = tables[table_index(tables, q.table_name)->0];
            let keys = primary_key_indices_upto(t.columns, t.columns.len() as int);
            let rows = stored_rows(t, stored_data(streams, t.name));
            &&& sorted_rows(rows, keys, state.0, rows.len() as int) is Some
            &&& exists|all: Seq<KeyedRow>|
                {
                    &&& keys_in_order(all)
                    &&& decoded_rows(t, bytes) == all.map_values(|p: KeyedRow| p.1)
                    &&& forall|key: Seq<ValueView>|
                        #[trigger] has_key(all, key) <==> (has_key(
                            sorted_rows(rows, keys, state.0, rows.len() as int)->0,
                            key,
                        ) || new_key(q.new_rows, keys, q.new_rows.len() as int, key))
                }
        },
{
    if let Ok((bytes, _)) = insert_result(q, tables, streams, state, long_string_refs) {
        let t = tables[table_index(tables, q.table_name)->0];
        let keys = primary_key_indices_upto(t.columns, t.columns.len() as int);
        let rows = stored_rows(t, stored_data(streams, t.name));
        let stored = sorted_rows(rows, keys, state.0, rows.len() as int)->0;
        lemma_sorted_rows_in_order(rows, keys, state.0, rows.len() as int);
        lemma_inserted_rows_in_order(q.new_rows, keys, stored, state, long_string_refs, q.new_rows.len() as int);
        if let Some(d) = stored_data(streams, t.name) {
            lemma_decoded_rows_fit(t, d);
        }
        lemma_sorted_rows_fit(t.columns, rows, keys, state.0, rows.len() as int);
        lemma_insert_rows_fit(t.columns, q.new_rows, keys, stored, state, long_string_refs, q.new_rows.len() as int);
        if let Ok((all, _)) = insert_rows(q.new_rows, keys, stored, state, long_string_refs, q.new_rows.len() as int) {
            let out = all.map_values(|p: KeyedRow| p.1);
            assert forall|i: int| 0 <= i < out.len() implies #[trigger] out[i].len() >= t.columns.len() by {
                assert(row_fits(t.columns, all[i].1));
            }
            assert forall|i: int, j: int|
                0 <= i < out.len() && 0 <= j < t.columns.len() implies #[trigger] crate::table::survives(
                t.columns[j].coltype,
                out[i][j],
                t.long_string_refs,
            ) by {
                assert(row_fits(t.columns, all[i].1));
                assert(ref_fits(t.columns[j].coltype, out[i][j]));
            }
            crate::table::lemma_rows_round_trip(t.columns, t.long_string_refs, out);
            let back = decoded_rows(t, bytes);
            assert forall|i: int| 0 <= i < out.len() implies back[i] == out[i] by {
                assert(row_fits(t.columns, all[i].1));
                assert(back[i] =~= out[i]);
            }
            assert(back =~= out);
            assert(keys_in_order(all));
        }
    }
}

/// A left row with nulls in place of the right row's columns.
pub open spec fn padded_row(a: Seq<ValueRef>, width2: nat) -> Seq<ValueRef> {
    a + Seq::new(width2, |k: int| ValueRef::Null)
}

/// Whether the condition holds of a left row joined with a right row.
pub open spec fn pair_holds(
    c: AstView,
    t: TableView,
    a: Seq<ValueRef>,
    b: Seq<ValueRef>,
    entries: Seq<(Seq<char>, u16)>,
) -> bool {
    condition_holds(Some(c), t, a + b, entries)
}

/// The pairs of a left row with the first `j` right rows hold each pair
/// that the condition holds of, and are empty exactly when it holds of
/// none; each is the left row joined with such a right row.
proof fn lemma_matching_pairs(
    c: AstView,
    t: TableView,
    a: Seq<ValueRef>,
    rows2: Seq<Seq<ValueRef>>,
    entries: Seq<(Seq<char>, u16)>,
    j: int,
)
    requires
        0 <= j <= rows2.len(),
    ensures
        ({
            let mp = matching_pairs(c, t, a, rows2, entries, j);
            &&& forall|k: int| 0 <= k < j && pair_holds(c, t, a, #[trigger] rows2[k], entries) ==> mp.contains(a + rows2[k])
            &&& mp.len() == 0 <==> forall|k: int| 0 <= k < j ==> !pair_holds(c, t, a, #[trigger] rows2[k], entries)
            &&& forall|m: int| 0 <= m < mp.len() ==> exists|k: int| 0 <= k < j && pair_holds(c, t, a, rows2[k], entries)
                && #[trigger] mp[m] == a + rows2[k]
        }),
    decreases j,
{
    if j > 0 {
        lemma_matching_pairs(c, t, a, rows2, entries, j - 1);
        let before = matching_pairs(c, t, a, rows2, entries, j - 1);
        let mp = matching_pairs(c, t, a, rows2, entries, j);
        assert forall|k: int| 0 <= k < j && pair_holds(c, t, a, #[trigger] rows2[k], entries) implies mp.contains(
            a + rows2[k],
        ) by {
            if k < j - 1 {
                let m = choose|m: int| 0 <= m < before.len() && before[m] == a + rows2[k];
                assert(mp[m] == before[m]);
            } else {
                assert(mp[mp.len() - 1] == a + rows2[k]);
            }
        }
        assert forall|m: int| 0 <= m < mp.len() implies exists|k: int| 0 <= k < j && pair_holds(
            c,
            t,
            a,
            rows2[k],
            entries,
        ) && #[trigger] mp[m] == a + rows2[k] by {
            if m < before.len() {
                assert(mp[m] == before[m]);
                let k = choose|k: int| 0 <= k < j - 1 && pair_holds(c, t, a, rows2[k], entries) && before[m] == a + rows2[k];
                assert(0 <= k < j && pair_holds(c, t, a, rows2[k], entries) && mp[m] == a + rows2[k]);
            } else {
                assert(mp[m] == a + rows2[j - 1]);
                assert(pair_holds(c, t, a, rows2[j - 1], entries));
            }
        }
        if mp.len() == 0 {
            assert forall|k: int| 0 <= k < j implies !pair_holds(c, t, a, #[trigger] rows2[k], entries) by {
                if pair_holds(c, t, a, rows2[k], entries) {
                    assert(mp.contains(a + rows2[k]));
                }
            }
        }
        if forall|k: int| 0 <= k < j ==> !pair_holds(c, t, a, #[trigger] rows2[k], entries) {
            assert(!pair_holds(c, t, a, rows2[j - 1], entries));
        }
    }
}

/// The rows of a join: every left row joined with every right row that the
/// condition holds of is among them; for a left join, a left row that the
/// condition holds of with no right row is among them padded with nulls,
/// so that there are at least as many rows as left rows; and every row is
/// one of these.
pub proof fn lemma_join_rows(
    c: AstView,
    t: TableView,
    rows1: Seq<Seq<ValueRef>>,
    rows2: Seq<Seq<ValueRef>>,
    width2: nat,
    left: bool,
    entries: Seq<(Seq<char>, u16)>,
    n: int,
)
    requires
        0 <= n <= rows1.len(),
    ensures
        ({
            let out = join_rows(c, t, rows1, rows2, width2, left, entries, n);
            &&& forall|i: int, j: int|
                0 <= i < n && 0 <= j < rows2.len() && pair_holds(c, t, #[trigger] rows1[i], #[trigger] rows2[j], entries)
                    ==> out.contains(rows1[i] + rows2[j])
            &&& left ==> forall|i: int|
                0 <= i < n && (forall|j: int| 0 <= j < rows2.len() ==> !pair_holds(c, t, rows1[i], #[trigger] rows2[j], entries))
                    ==> out.contains(padded_row(#[trigger] rows1[i], width2))
            &&& left ==> out.len() >= n
            &&& forall|m: int| 0 <= m < out.len() ==> exists|i: int| 0 <= i < n && {
                ||| exists|j: int| 0 <= j < rows2.len() && pair_holds(c, t, rows1[i], rows2[j], entries) && #[trigger] out[m]
                    == rows1[i] + rows2[j]
                ||| left && out[m] == padded_row(rows1[i], width2) && forall|j: int|
                    0 <= j < rows2.len() ==> !pair_holds(c, t, rows1[i], #[trigger] rows2[j], entries)
            }
        }),
    decreases n,
{
    if n > 0 {
        lemma_join_rows(c, t, rows1, rows2, width2, left, entries, n - 1);
        let before = join_rows(c, t, rows1, rows2, width2, left, entries, n - 1);
        let out = join_rows(c, t, rows1, rows2, width2, left, entries, n);
        let a = rows1[n - 1];
        lemma_matching_pairs(c, t, a, rows2, entries, rows2.len() as int);
        let pairs = matching_pairs(c, t, a, rows2, entries, rows2.len() as int);
        assert(padded_row(a, width2) == a + Seq::new(width2, |k: int| ValueRef::Null));
        assert forall|m: int| 0 <= m < before.len() implies out[m] == before[m] by {}
        assert forall|i: int, j: int|
            0 <= i < n && 0 <= j < rows2.len() && pair_holds(c, t, #[trigger] rows1[i], #[trigger] rows2[j], entries)
                implies out.contains(rows1[i] + rows2[j]) by {
            if i < n - 1 {
                let m = choose|m: int| 0 <= m < before.len() && before[m] == rows1[i] + rows2[j];
                assert(out[m] == before[m]);
            } else {
                assert(pairs.contains(a + rows2[j]));
                let m = choose|m: int| 0 <= m < pairs.len() && pairs[m] == a + rows2[j];
                assert(out[before.len() + m] == pairs[m]);
            }
        }
        if left {
            assert forall|i: int|
                0 <= i < n && (forall|j: int| 0 <= j < rows2.len() ==> !pair_holds(c, t, rows1[i], #[trigger] rows2[j], entries))
                    implies out.contains(padded_row(#[trigger] rows1[i], width2)) by {
                if i < n - 1 {
                    let m = choose|m: int| 0 <= m < before.len() && before[m] == padded_row(rows1[i], width2);
                    assert(out[m] == before[m]);
                } else {
                    assert(pairs.len() == 0);
                    assert(out[before.len() as int] == padded_row(a, width2));
                }
            }
        }
        assert forall|m: int| 0 <= m < out.len() implies exists|i: int| 0 <= i < n && {
            ||| exists|j: int| 0 <= j < rows2.len() && pair_holds(c, t, rows1[i], rows2[j], entries) && #[trigger] out[m]
                == rows1[i] + rows2[j]
            ||| left && out[m] == padded_row(rows1[i], width2) && forall|j: int|
                0 <= j < rows2.len() ==> !pair_holds(c, t, rows1[i], #[trigger] rows2[j], entries)
        } by {
            if m < before.len() {
                assert(out[m] == before[m]);
                let i = choose|i: int| 0 <= i < n - 1 && {
                    ||| exists|j: int| 0 <= j < rows2.len() && pair_holds(c, t, rows1[i], rows2[j], entries) && #[trigger] before[m]
                        == rows1[i] + rows2[j]
                    ||| left && before[m] == padded_row(rows1[i], width2) && forall|j: int|
                        0 <= j < rows2.len() ==> !pair_holds(c, t, rows1[i], #[trigger] rows2[j], entries)
                };
                assert(0 <= i < n);
            } else if left && pairs.len() == 0 {
                assert(out[m] == padded_row(a, width2));
                assert(0 <= n - 1 < n);
            } else {
                let p = m - before.len();
                assert(out[m] == pairs[p]);
                let k = choose|k: int| 0 <= k < rows2.len() && pair_holds(c, t, a, rows2[k], entries) && #[trigger] pairs[p]
                    == a + rows2[k];
                assert(0 <= n - 1 < n);
                assert(pair_holds(c, t, rows1[n - 1], rows2[k], entries) && out[m] == rows1[n - 1] + rows2[k]);
            }
        }
    }
}

/// The rows that a condition keeps: every kept row is one of the rows and
/// the condition holds of it, every row that the condition holds of is
/// kept, no more rows come out than went in, and with no condition every
/// row is kept as it was.
pub proof fn lemma_filter_rows(
    c: Option<AstView>,
    t: TableView,
    rows: Seq<Seq<ValueRef>>,
    entries: Seq<(Seq<char>, u16)>,
    n: int,
)
    requires
        0 <= n <= rows.len(),
    ensures
        ({
            let out = filter_rows(c, t, rows, entries, n);
            &&& forall|m: int| 0 <= m < out.len() ==> condition_holds(c, t, #[trigger] out[m], entries) && exists|i: int|
                0 <= i < n && rows[i] == out[m]
            &&& forall|i: int| 0 <= i < n && condition_holds(c, t, #[trigger] rows[i], entries) ==> out.contains(rows[i])
            &&& out.len() <= n
            &&& c is None ==> out == rows.take(n)
        }),
    decreases n,
{
    if n > 0 {
        lemma_filter_rows(c, t, rows, entries, n - 1);
        let before = filter_rows(c, t, rows, entries, n - 1);
        let out = filter_rows(c, t, rows, entries, n);
        assert forall|m: int| 0 <= m < before.len() implies out[m] == before[m] by {}
        assert forall|m: int| 0 <= m < out.len() implies condition_holds(c, t, #[trigger] out[m], entries) && exists|i: int|
            0 <= i < n && rows[i] == out[m] by {
            if m < before.len() {
                assert(out[m] == before[m]);
                let i = choose|i: int| 0 <= i < n - 1 && rows[i] == before[m];
                assert(0 <= i < n && rows[i] == out[m]);
            } else {
                assert(out[m] == rows[n - 1]);
            }
        }
        assert forall|i: int| 0 <= i < n && condition_holds(c, t, #[trigger] rows[i], entries) implies out.contains(
            rows[i],
        ) by {
            if i < n - 1 {
                let m = choose|m: int| 0 <= m < before.len() && before[m] == rows[i];
                assert(out[m] == before[m]);
            } else {
                assert(out[out.len() - 1] == rows[i]);
            }
        }
        if c is None {
            assert(out =~= rows.take(n));
        }
    } else {
        if c is None {
            assert(filter_rows(c, t, rows, entries, n) =~= rows.take(n));
        }
    }
}

/// Selecting columns by name picks, for each name, the first column of
/// that name: the selected columns carry the names asked for, in the order
/// asked for.
pub proof fn lemma_selected_columns(names: Seq<Seq<char>>, cols: Seq<ColumnView>)
    requires
        names_present(names, cols),
    ensures
        name_indices(names, cols).len() == names.len(),
        forall|k: int|
            0 <= k < names.len() ==> is_first_named(cols, names[k], #[trigger] name_indices(names, cols)[k]),
{
    assert forall|k: int| 0 <= k < names.len() implies is_first_named(
        cols,
        names[k],
        #[trigger] name_indices(names, cols)[k],
    ) by {
        assert(has_named(cols, names[k]));
        crate::table::lemma_column_index_first(cols, names[k]);
    }
}

/// The columns of a join are those of the left table followed by those of
/// the right one, each named `table.column` after the table it comes from
/// (where that table has a name); in a left join every right-hand column
/// accepts null, so the nulls that pad a left row without a match fit it.
pub proof fn lemma_joined_columns(t1: TableView, t2: TableView, left: bool)
    ensures
        joined_columns(t1, t2, left).len() == t1.columns.len() + t2.columns.len(),
        forall|i: int|
            0 <= i < t1.columns.len() && t1.name.len() > 0 ==> (#[trigger] joined_columns(t1, t2, left)[i]).name
                == t1.name + "."@ + t1.columns[i].name,
        forall|k: int|
            0 <= k < t2.columns.len() && t2.name.len() > 0 ==> (#[trigger] joined_columns(t1, t2, left)[t1.columns.len()
                + k]).name == t2.name + "."@ + t2.columns[k].name,
        left ==> forall|k: int|
            0 <= k < t2.columns.len() ==> (#[trigger] joined_columns(t1, t2, left)[t1.columns.len() + k]).is_nullable,
{
}

} // verus!
