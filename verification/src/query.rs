//! The query executor: counting the rows of a table, and selecting
//! columns of its rows by a full scan or through an index.

use vstd::prelude::*;
use vstd::string::*;
use vstd::utf8::encode_utf8;
use crate::btree::{
    MAX_DEPTH, capped, count_rows, lookup_rowid, rows_of, scan_table, table_count, table_lookup,
    table_rows,
};
use crate::error::{DbError, ErrorView, Feature};
use crate::index::{index_matches, scan_index_eq};
use crate::page::{RowView, TableLeafCell};
use crate::pager::{Pager, PagerView};
use crate::record::{Record, RecordView, decode_record, lossy_text, parse_record};
use crate::schema::{
    Column, ColumnView, EntryKind, SchemaEntry, SchemaEntryView, TableSchema, TableSchemaView,
    columns_view, schema_view, table_of,
};
use crate::sql_type::SqlType;
use crate::text::{eq_ignore_case, same_string, same_text};

verus! {

/// An equality predicate: the named column holds the literal text.
#[derive(Debug, Clone, PartialEq, Eq)]
pub struct Filter {
    pub column: String,
    pub literal: String,
}

/// What the executor is asked for.
#[derive(Debug, Clone, PartialEq, Eq)]
pub enum QueryPlan {
    /// The number of rows of a table.
    CountAll { table: String },
    /// The named columns of the rows of a table that pass the filter,
    /// found through the named index where one is given.
    Select {
        table: String,
        projection: Vec<String>,
        filter: Option<Filter>,
        use_index: Option<String>,
    },
}

/// What a filter is.
pub struct FilterView {
    pub column: Seq<char>,
    pub literal: Seq<char>,
}

/// What a plan is.
pub enum PlanView {
    CountAll { table: Seq<char> },
    Select {
        table: Seq<char>,
        projection: Seq<Seq<char>>,
        filter: Option<FilterView>,
        use_index: Option<Seq<char>>,
    },
}

/// What the names in `names` are.
pub open spec fn names_view(names: Seq<String>) -> Seq<Seq<char>> {
    Seq::new(names.len(), |i: int| names[i]@)
}

impl View for Filter {
    type V = FilterView;

    open spec fn view(&self) -> FilterView {
        FilterView { column: self.column@, literal: self.literal@ }
    }
}

impl View for QueryPlan {
    type V = PlanView;

    open spec fn view(&self) -> PlanView {
        match self {
            QueryPlan::CountAll { table } => PlanView::CountAll { table: table@ },
            QueryPlan::Select { table, projection, filter, use_index } => PlanView::Select {
                table: table@,
                projection: names_view(projection@),
                filter: match filter {
                    Some(f) => Some(f@),
                    None => None,
                },
                use_index: match use_index {
                    Some(name) => Some(name@),
                    None => None,
                },
            },
        }
    }
}

impl PlanView {
    /// The table that the plan is about.
    pub open spec fn table(self) -> Seq<char> {
        match self {
            PlanView::CountAll { table } => table,
            PlanView::Select { table, .. } => table,
        }
    }
}

/// A value of a result row. A real is held as the bit pattern of its
/// IEEE-754 double.
#[derive(Debug, Clone, PartialEq, Eq)]
pub enum Value {
    Integer(i64),
    Real(u64),
    Text(String),
}

/// What a value is.
pub enum ValueView {
    Integer(i64),
    Real(u64),
    Text(Seq<char>),
}

impl View for Value {
    type V = ValueView;

    open spec fn view(&self) -> ValueView {
        match self {
            Value::Integer(v) => ValueView::Integer(*v),
            Value::Real(bits) => ValueView::Real(*bits),
            Value::Text(s) => ValueView::Text(s@),
        }
    }
}

/// What the values in `row` are.
pub open spec fn row_view(row: Seq<Value>) -> Seq<ValueView> {
    Seq::new(row.len(), |i: int| row[i]@)
}

/// What the rows in `rows` are.
pub open spec fn table_view(rows: Seq<Vec<Value>>) -> Seq<Seq<ValueView>> {
    Seq::new(rows.len(), |i: int| row_view(rows[i]@))
}

/// The result of a query.
#[derive(Debug, Clone, PartialEq, Eq)]
pub enum QueryOutput {
    Count(u64),
    Rows(Vec<Vec<Value>>),
}

/// What a result is.
pub enum OutputView {
    Count(u64),
    Rows(Seq<Seq<ValueView>>),
}

impl View for QueryOutput {
    type V = OutputView;

    open spec fn view(&self) -> OutputView {
        match self {
            QueryOutput::Count(n) => OutputView::Count(*n),
            QueryOutput::Rows(rows) => OutputView::Rows(table_view(rows@)),
        }
    }
}

/// A failure of a query with its context: the table asked for, the root
/// page of that table (0 where the table was not found) and the failure.
#[derive(Debug, Clone, PartialEq, Eq)]
pub struct QueryError {
    pub table: String,
    pub page: u32,
    pub cause: DbError,
}

/// A column to project: its place in the record and its declared class.
#[derive(Debug, Clone, Copy, PartialEq, Eq)]
pub struct Projected {
    pub index: usize,
    pub tpe: SqlType,
}

/// The first entry from `i` on that is of kind `kind` and whose `pick`ed
/// name is `name`.
pub open spec fn find_entry(
    schema: Seq<SchemaEntryView>,
    kind: EntryKind,
    name: Seq<char>,
    i: nat,
) -> Option<nat>
    decreases schema.len() - i,
{
    if i >= schema.len() {
        None
    } else if schema[i as int].kind == kind && entry_name(schema[i as int]) == name {
        Some(i)
    } else {
        find_entry(schema, kind, name, i + 1)
    }
}

/// The name that an entry is found by: a table by the table name, any
/// other entry by its own name.
pub open spec fn entry_name(entry: SchemaEntryView) -> Seq<char> {
    if entry.kind == EntryKind::Table {
        entry.tbl_name
    } else {
        entry.name
    }
}

/// The first column from `i` on whose name is `name`.
pub open spec fn find_column(columns: Seq<ColumnView>, name: Seq<char>, i: nat) -> Option<nat>
    decreases columns.len() - i,
{
    if i >= columns.len() {
        None
    } else if columns[i as int].name == name {
        Some(i)
    } else {
        find_column(columns, name, i + 1)
    }
}

/// The columns to project for the names from `i` on. A name that is no
/// column of the table fails the whole.
pub open spec fn resolved(columns: Seq<ColumnView>, names: Seq<Seq<char>>, i: nat) -> Result<
    Seq<Projected>,
    ErrorView,
>
    decreases names.len() - i,
{
    if i >= names.len() {
        Ok(Seq::empty())
    } else {
        match find_column(columns, names[i as int], 0) {
            None => Err(ErrorView::SchemaNotFound(names[i as int])),
            Some(index) => match resolved(columns, names, i + 1) {
                Err(e) => Err(e),
                Ok(rest) => Ok(
                    seq![Projected { index: index as usize, tpe: columns[index as int].tpe }]
                        + rest,
                ),
            },
        }
    }
}

/// An equality test to apply to each row: the place of the column and
/// the bytes of the literal.
pub struct Criterion {
    pub index: nat,
    pub literal: Seq<u8>,
}

/// The value of one projected column of a row. Where the column is the
/// first and holds a null, it is the rowid alias and stands for the rowid.
/// Any other column is read as its declared class says; a blob or null
/// class has no rendering.
pub open spec fn projected_value(record: RecordView, rowid: i64, column: Projected) -> Result<
    ValueView,
    DbError,
> {
    match record.serial_code(column.index as nat) {
        Err(e) => Err(e),
        Ok(t) => if column.index == 0 && t == 0 {
            Ok(ValueView::Integer(rowid))
        } else {
            match column.tpe {
                SqlType::Integer => match record.integer(column.index as nat) {
                    Err(e) => Err(e),
                    Ok(v) => Ok(ValueView::Integer(v)),
                },
                SqlType::Real => match record.real_bits(column.index as nat) {
                    Err(e) => Err(e),
                    Ok(bits) => Ok(ValueView::Real(bits)),
                },
                SqlType::Text => match record.text_bytes(column.index as nat) {
                    Err(e) => Err(e),
                    Ok(bytes) => Ok(ValueView::Text(lossy_text(bytes))),
                },
                _ => Err(DbError::Unsupported(Feature::ColumnClass)),
            }
        },
    }
}

/// The values of the projected columns from `i` on.
pub open spec fn projected_row(
    record: RecordView,
    rowid: i64,
    columns: Seq<Projected>,
    i: nat,
) -> Result<Seq<ValueView>, DbError>
    decreases columns.len() - i,
{
    if i >= columns.len() {
        Ok(Seq::empty())
    } else {
        match projected_value(record, rowid, columns[i as int]) {
            Err(e) => Err(e),
            Ok(value) => match projected_row(record, rowid, columns, i + 1) {
                Err(e) => Err(e),
                Ok(rest) => Ok(seq![value] + rest),
            },
        }
    }
}

/// Whether a row passes: without a criterion every row does; with one, the
/// column must hold text, and the row passes where that text is the
/// literal, ASCII case folded.
pub open spec fn passes(record: RecordView, criterion: Option<Criterion>) -> Result<bool, DbError> {
    match criterion {
        None => Ok(true),
        Some(c) => match record.text_bytes(c.index) {
            Err(e) => Err(e),
            Ok(bytes) => Ok(same_text(bytes, c.literal)),
        },
    }
}

/// What one row gives: nothing where it does not pass, else its projected
/// values.
pub open spec fn selected_row(
    row: RowView,
    columns: Seq<Projected>,
    criterion: Option<Criterion>,
) -> Result<Option<Seq<ValueView>>, DbError> {
    match parse_record(row.payload) {
        Err(e) => Err(e),
        Ok(record) => match passes(record, criterion) {
            Err(e) => Err(e),
            Ok(pass) => if !pass {
                Ok(None)
            } else {
                match projected_row(record, row.rowid, columns, 0) {
                    Err(e) => Err(e),
                    Ok(values) => Ok(Some(values)),
                }
            },
        },
    }
}

/// What the rows from `i` on give, in order; the first row that fails
/// fails the whole.
pub open spec fn selected(
    rows: Seq<RowView>,
    i: nat,
    columns: Seq<Projected>,
    criterion: Option<Criterion>,
) -> Result<Seq<Seq<ValueView>>, DbError>
    decreases rows.len() - i,
{
    if i >= rows.len() {
        Ok(Seq::empty())
    } else {
        match selected_row(rows[i as int], columns, criterion) {
            Err(e) => Err(e),
            Ok(out) => match selected(rows, i + 1, columns, criterion) {
                Err(e) => Err(e),
                Ok(rest) => Ok(
                    match out {
                        Some(values) => seq![values] + rest,
                        None => rest,
                    },
                ),
            },
        }
    }
}

/// What the rows with the rowids from `i` on give, each found by a point
/// lookup in the table rooted at `root`.
pub open spec fn fetched(
    db: PagerView,
    root: u32,
    ids: Seq<i64>,
    i: nat,
    columns: Seq<Projected>,
) -> Result<Seq<Seq<ValueView>>, DbError>
    decreases ids.len() - i,
{
    if i >= ids.len() {
        Ok(Seq::empty())
    } else {
        match table_lookup(db, root, ids[i as int], MAX_DEPTH as nat) {
            Err(e) => Err(e),
            Ok(payload) => match selected_row(
                RowView { rowid: ids[i as int], payload },
                columns,
                None,
            ) {
                Err(e) => Err(e),
                Ok(out) => match fetched(db, root, ids, i + 1, columns) {
                    Err(e) => Err(e),
                    Ok(rest) => Ok(seq![out->Some_0] + rest),
                },
            },
        }
    }
}

/// The rows that a selection gives: by a full scan of the table, or, where
/// an index is named and there is a filter, by an equality scan of the
/// index and a point lookup of each rowid it yields, in index order.
pub open spec fn selected_rows(
    db: PagerView,
    schema: Seq<SchemaEntryView>,
    table: TableSchemaView,
    columns: Seq<Projected>,
    filter: Option<FilterView>,
    use_index: Option<Seq<char>>,
) -> Result<Seq<Seq<ValueView>>, ErrorView> {
    match filter {
        None => match table_rows(db, table.rootpage, MAX_DEPTH as nat) {
            Err(e) => Err(e@),
            Ok(rows) => match selected(rows, 0, columns, None) {
                Err(e) => Err(e@),
                Ok(out) => Ok(out),
            },
        },
        Some(f) => match find_column(table.columns, f.column, 0) {
            None => Err(ErrorView::SchemaNotFound(f.column)),
            Some(at) => match use_index {
                None => match table_rows(db, table.rootpage, MAX_DEPTH as nat) {
                    Err(e) => Err(e@),
                    Ok(rows) => match selected(
                        rows,
                        0,
                        columns,
                        Some(Criterion { index: at, literal: encode_utf8(f.literal) }),
                    ) {
                        Err(e) => Err(e@),
                        Ok(out) => Ok(out),
                    },
                },
                Some(name) => match find_entry(schema, EntryKind::Index, name, 0) {
                    None => Err(ErrorView::SchemaNotFound(name)),
                    Some(x) => match index_matches(
                        db,
                        schema[x as int].rootpage,
                        encode_utf8(f.literal),
                        MAX_DEPTH as nat,
                    ) {
                        Err(e) => Err(e@),
                        Ok(ids) => match fetched(db, table.rootpage, ids, 0, columns) {
                            Err(e) => Err(e@),
                            Ok(out) => Ok(out),
                        },
                    },
                },
            },
        },
    }
}

/// What a plan gives on a database with the schema `schema`.
pub open spec fn executed(db: PagerView, schema: Seq<SchemaEntryView>, plan: PlanView) -> Result<
    OutputView,
    ErrorView,
> {
    match find_entry(schema, EntryKind::Table, plan.table(), 0) {
        None => Err(ErrorView::SchemaNotFound(plan.table())),
        Some(t) => match plan {
            PlanView::CountAll { .. } => match table_count(
                db,
                schema[t as int].rootpage,
                MAX_DEPTH as nat,
            ) {
                Err(e) => Err(e@),
                Ok(count) => Ok(OutputView::Count(capped(count))),
            },
            PlanView::Select { projection, filter, use_index, .. } => match resolved(
                schema[t as int].columns,
                projection,
                0,
            ) {
                Err(e) => Err(e),
                Ok(columns) => match selected_rows(
                    db,
                    schema,
                    table_of(schema[t as int]),
                    columns,
                    filter,
                    use_index,
                ) {
                    Err(e) => Err(e),
                    Ok(rows) => Ok(OutputView::Rows(rows)),
                },
            },
        },
    }
}

/// The root page of the table that a plan is about; 0 where the schema
/// has no such table.
pub open spec fn plan_root(schema: Seq<SchemaEntryView>, plan: PlanView) -> u32 {
    match find_entry(schema, EntryKind::Table, plan.table(), 0) {
        None => 0,
        Some(t) => schema[t as int].rootpage,
    }
}

/// Finds the first entry of kind `kind` that goes by the name `name`.
pub fn lookup_entry(schema: &Vec<SchemaEntry>, kind: EntryKind, name: &String) -> (r: Option<usize>)
    ensures
        match find_entry(schema_view(schema@), kind, name@, 0) {
            Some(i) => r is Some && r->Some_0 == i && i < schema@.len(),
            None => r is None,
        },
{
    let mut i: usize = 0;
    while i < schema.len()
        invariant
            i <= schema@.len(),
            find_entry(schema_view(schema@), kind, name@, 0) == find_entry(
                schema_view(schema@),
                kind,
                name@,
                i as nat,
            ),
        decreases schema@.len() - i,
    {
        let entry = &schema[i];
        assert(schema_view(schema@)[i as int] == entry@);
        let is_table: bool = match entry.kind {
            EntryKind::Table => true,
            _ => false,
        };
        let found: bool = entry.kind == kind && if is_table {
            same_string(&entry.tbl_name, name)
        } else {
            same_string(&entry.name, name)
        };
        if found {
            return Some(i);
        }
        i += 1;
    }
    None
}

/// Resolves the table that goes by the name `name`.
pub fn resolve_table<'a>(schema: &'a Vec<SchemaEntry>, name: &String) -> (r: Result<
    TableSchema<'a>,
    DbError,
>)
    ensures
        match find_entry(schema_view(schema@), EntryKind::Table, name@, 0) {
            Some(t) => r is Ok && r->Ok_0@ == table_of(schema_view(schema@)[t as int]),
            None => r is Err && r->Err_0@ == ErrorView::SchemaNotFound(name@),
        },
{
    match lookup_entry(schema, EntryKind::Table, name) {
        None => Err(DbError::SchemaNotFound(name.clone())),
        Some(t) => {
            assert(schema_view(schema@)[t as int] == schema@[t as int]@);
            proof {
                lemma_found_entry(schema_view(schema@), EntryKind::Table, name@, 0);
            }
            match schema[t].as_table() {
                Some(table) => Ok(table),
                None => Err(DbError::SchemaNotFound(name.clone())),
            }
        },
    }
}

/// An entry that is found is of the kind and goes by the name sought.
pub proof fn lemma_found_entry(
    schema: Seq<SchemaEntryView>,
    kind: EntryKind,
    name: Seq<char>,
    i: nat,
)
    requires
        find_entry(schema, kind, name, i) is Some,
    ensures
        i <= find_entry(schema, kind, name, i)->Some_0 < schema.len(),
        schema[find_entry(schema, kind, name, i)->Some_0 as int].kind == kind,
        entry_name(schema[find_entry(schema, kind, name, i)->Some_0 as int]) == name,
    decreases schema.len() - i,
{
    if i < schema.len() && !(schema[i as int].kind == kind && entry_name(schema[i as int])
        == name) {
        lemma_found_entry(schema, kind, name, i + 1);
    }
}

/// Finds the first column named `name`.
pub fn lookup_column(columns: &Vec<Column>, name: &String) -> (r: Option<usize>)
    ensures
        match find_column(columns_view(columns@), name@, 0) {
            Some(i) => r is Some && r->Some_0 == i && i < columns@.len(),
            None => r is None,
        },
{
    let mut i: usize = 0;
    while i < columns.len()
        invariant
            i <= columns@.len(),
            find_column(columns_view(columns@), name@, 0) == find_column(
                columns_view(columns@),
                name@,
                i as nat,
            ),
        decreases columns@.len() - i,
    {
        assert(columns_view(columns@)[i as int] == columns@[i as int]@);
        if same_string(&columns[i].name, name) {
            return Some(i);
        }
        i += 1;
    }
    None
}

/// Resolves the names of a projection against the columns of a table.
pub fn resolve_projection(columns: &Vec<Column>, names: &Vec<String>) -> (r: Result<
    Vec<Projected>,
    DbError,
>)
    ensures
        match resolved(columns_view(columns@), names_view(names@), 0) {
            Ok(found) => r is Ok && r->Ok_0@ == found,
            Err(e) => r is Err && r->Err_0@ == e,
        },
{
    let mut out: Vec<Projected> = Vec::new();
    let mut i: usize = 0;
    while i < names.len()
        invariant
            i <= names@.len(),
            match resolved(columns_view(columns@), names_view(names@), i as nat) {
                Ok(rest) => resolved(columns_view(columns@), names_view(names@), 0) == Ok::<
                    Seq<Projected>,
                    ErrorView,
                >(out@ + rest),
                Err(e) => resolved(columns_view(columns@), names_view(names@), 0) == Err::<
                    Seq<Projected>,
                    ErrorView,
                >(e),
            },
        decreases names@.len() - i,
    {
        assert(names_view(names@)[i as int] == names@[i as int]@);
        match lookup_column(columns, &names[i]) {
            None => {
                return Err(DbError::SchemaNotFound(names[i].clone()));
            },
            Some(index) => {
                assert(columns_view(columns@)[index as int] == columns@[index as int]@);
                let column = Projected { index, tpe: columns[index].tpe };
                proof {
                    if let Ok(rest) = resolved(
                        columns_view(columns@),
                        names_view(names@),
                        (i + 1) as nat,
                    ) {
                        assert(out@.push(column) + rest =~= out@ + (seq![column] + rest));
                    }
                }
                out.push(column);
            },
        }
        i += 1;
    }
    assert(out@ + Seq::<Projected>::empty() =~= out@);
    Ok(out)
}

/// The value of one projected column of a row.
pub fn project_value(record: &Record<'_>, rowid: i64, column: &Projected) -> (r: Result<
    Value,
    DbError,
>)
    ensures
        match projected_value(record@, rowid, *column) {
            Ok(value) => r is Ok && r->Ok_0@ == value,
            Err(e) => r is Err && r->Err_0 == e,
        },
{
    let t: u64 = match record.serial_code(column.index) {
        Err(e) => {
            return Err(e);
        },
        Ok(t) => t,
    };
    if column.index == 0 && t == 0 {
        return Ok(Value::Integer(rowid));
    }
    match column.tpe {
        SqlType::Integer => match record.as_integer(column.index) {
            Err(e) => Err(e),
            Ok(v) => Ok(Value::Integer(v)),
        },
        SqlType::Real => match record.as_real_bits(column.index) {
            Err(e) => Err(e),
            Ok(bits) => Ok(Value::Real(bits)),
        },
        SqlType::Text => match record.as_text(column.index) {
            Err(e) => Err(e),
            Ok(text) => Ok(Value::Text(text)),
        },
        _ => Err(DbError::Unsupported(Feature::ColumnClass)),
    }
}

proof fn lemma_row_view_push(row: Seq<Value>, value: Value)
    ensures
        row_view(row.push(value)) == row_view(row).push(value@),
{
    assert(row_view(row.push(value)) =~= row_view(row).push(value@));
}

proof fn lemma_table_view_push(rows: Seq<Vec<Value>>, row: Vec<Value>)
    ensures
        table_view(rows.push(row)) == table_view(rows).push(row_view(row@)),
{
    assert(table_view(rows.push(row)) =~= table_view(rows).push(row_view(row@)));
}

/// The values of the projected columns of a row.
pub fn project_row(record: &Record<'_>, rowid: i64, columns: &Vec<Projected>) -> (r: Result<
    Vec<Value>,
    DbError,
>)
    ensures
        match projected_row(record@, rowid, columns@, 0) {
            Ok(values) => r is Ok && row_view(r->Ok_0@) == values,
            Err(e) => r is Err && r->Err_0 == e,
        },
{
    let mut out: Vec<Value> = Vec::new();
    let mut i: usize = 0;
    assert(row_view(out@) =~= Seq::<ValueView>::empty());
    while i < columns.len()
        invariant
            i <= columns@.len(),
            match projected_row(record@, rowid, columns@, i as nat) {
                Ok(rest) => projected_row(record@, rowid, columns@, 0) == Ok::<
                    Seq<ValueView>,
                    DbError,
                >(row_view(out@) + rest),
                Err(e) => projected_row(record@, rowid, columns@, 0) == Err::<
                    Seq<ValueView>,
                    DbError,
                >(e),
            },
        decreases columns@.len() - i,
    {
        match project_value(record, rowid, &columns[i]) {
            Err(e) => {
                return Err(e);
            },
            Ok(value) => {
                proof {
                    lemma_row_view_push(out@, value);
                    if let Ok(rest) = projected_row(record@, rowid, columns@, (i + 1) as nat) {
                        assert(row_view(out@).push(value@) + rest =~= row_view(out@) + (
                        seq![value@] + rest));
                    }
                }
                out.push(value);
            },
        }
        i += 1;
    }
    assert(row_view(out@) + Seq::<ValueView>::empty() =~= row_view(out@));
    Ok(out)
}

/// An equality test to apply to each row: the place of the column and the
/// bytes of the literal.
pub struct RowFilter<'a> {
    pub index: usize,
    pub literal: &'a [u8],
}

/// What a test is.
pub open spec fn criterion_of(test: Option<RowFilter<'_>>) -> Option<Criterion> {
    match test {
        None => None,
        Some(t) => Some(Criterion { index: t.index as nat, literal: t.literal@ }),
    }
}

/// What one row gives: nothing where it does not pass the test, else its
/// projected values.
pub fn select_row(
    payload: &[u8],
    rowid: i64,
    columns: &Vec<Projected>,
    test: &Option<RowFilter<'_>>,
) -> (r: Result<Option<Vec<Value>>, DbError>)
    ensures
        match selected_row(RowView { rowid, payload: payload@ }, columns@, criterion_of(*test)) {
            Ok(Some(values)) => r is Ok && r->Ok_0 is Some && row_view(r->Ok_0->Some_0@) == values,
            Ok(None) => r is Ok && r->Ok_0 is None,
            Err(e) => r is Err && r->Err_0 == e,
        },
{
    let record = match decode_record(payload) {
        Err(e) => {
            return Err(e);
        },
        Ok(record) => record,
    };
    match test {
        None => {},
        Some(t) => {
            match record.text_bytes(t.index) {
                Err(e) => {
                    return Err(e);
                },
                Ok(bytes) => {
                    if !eq_ignore_case(bytes, t.literal) {
                        return Ok(None);
                    }
                },
            }
        },
    }
    match project_row(&record, rowid, columns) {
        Err(e) => Err(e),
        Ok(values) => Ok(Some(values)),
    }
}

/// What the rows of a full scan give.
pub fn select_scanned(
    rows: &Vec<TableLeafCell<'_>>,
    columns: &Vec<Projected>,
    test: &Option<RowFilter<'_>>,
) -> (r: Result<Vec<Vec<Value>>, DbError>)
    ensures
        match selected(rows_of(rows@), 0, columns@, criterion_of(*test)) {
            Ok(out) => r is Ok && table_view(r->Ok_0@) == out,
            Err(e) => r is Err && r->Err_0 == e,
        },
{
    let ghost all = rows_of(rows@);
    let ghost c = criterion_of(*test);
    let mut out: Vec<Vec<Value>> = Vec::new();
    let mut i: usize = 0;
    assert(table_view(out@) =~= Seq::<Seq<ValueView>>::empty());
    while i < rows.len()
        invariant
            i <= rows@.len(),
            all == rows_of(rows@),
            c == criterion_of(*test),
            match selected(all, i as nat, columns@, c) {
                Ok(rest) => selected(all, 0, columns@, c) == Ok::<Seq<Seq<ValueView>>, DbError>(
                    table_view(out@) + rest,
                ),
                Err(e) => selected(all, 0, columns@, c) == Err::<Seq<Seq<ValueView>>, DbError>(e),
            },
        decreases rows@.len() - i,
    {
        assert(all[i as int] == rows@[i as int]@);
        match select_row(rows[i].payload, rows[i].rowid, columns, test) {
            Err(e) => {
                return Err(e);
            },
            Ok(None) => {},
            Ok(Some(values)) => {
                proof {
                    lemma_table_view_push(out@, values);
                    if let Ok(rest) = selected(all, (i + 1) as nat, columns@, c) {
                        assert(table_view(out@).push(row_view(values@)) + rest =~= table_view(out@)
                            + (seq![row_view(values@)] + rest));
                    }
                }
                out.push(values);
            },
        }
        i += 1;
    }
    assert(table_view(out@) + Seq::<Seq<ValueView>>::empty() =~= table_view(out@));
    Ok(out)
}

/// What the rows with the rowids `ids` give, each found by a point lookup
/// in the table rooted at `root`.
pub fn select_fetched(pager: &Pager, root: u32, ids: &Vec<i64>, columns: &Vec<Projected>) -> (r:
    Result<Vec<Vec<Value>>, DbError>)
    ensures
        match fetched(pager@, root, ids@, 0, columns@) {
            Ok(out) => r is Ok && table_view(r->Ok_0@) == out,
            Err(e) => r is Err && r->Err_0 == e,
        },
{
    let mut out: Vec<Vec<Value>> = Vec::new();
    let mut i: usize = 0;
    let none: Option<RowFilter<'_>> = None;
    assert(table_view(out@) =~= Seq::<Seq<ValueView>>::empty());
    while i < ids.len()
        invariant
            i <= ids@.len(),
            none is None,
            match fetched(pager@, root, ids@, i as nat, columns@) {
                Ok(rest) => fetched(pager@, root, ids@, 0, columns@) == Ok::<
                    Seq<Seq<ValueView>>,
                    DbError,
                >(table_view(out@) + rest),
                Err(e) => fetched(pager@, root, ids@, 0, columns@) == Err::<
                    Seq<Seq<ValueView>>,
                    DbError,
                >(e),
            },
        decreases ids@.len() - i,
    {
        let payload = match lookup_rowid(pager, root, ids[i]) {
            Err(e) => {
                return Err(e);
            },
            Ok(payload) => payload,
        };
        match select_row(payload, ids[i], columns, &none) {
            Err(e) => {
                return Err(e);
            },
            Ok(None) => {},
            Ok(Some(values)) => {
                proof {
                    lemma_table_view_push(out@, values);
                    if let Ok(rest) = fetched(pager@, root, ids@, (i + 1) as nat, columns@) {
                        assert(table_view(out@).push(row_view(values@)) + rest =~= table_view(out@)
                            + (seq![row_view(values@)] + rest));
                    }
                }
                out.push(values);
            },
        }
        i += 1;
    }
    assert(table_view(out@) + Seq::<Seq<ValueView>>::empty() =~= table_view(out@));
    Ok(out)
}

/// The rows of a selection on the table `table`.
fn select_rows(
    pager: &Pager,
    schema: &Vec<SchemaEntry>,
    table: &TableSchema<'_>,
    columns: &Vec<Projected>,
    filter: &Option<Filter>,
    use_index: &Option<String>,
) -> (r: Result<Vec<Vec<Value>>, DbError>)
    ensures
        match selected_rows(
            pager@,
            schema_view(schema@),
            table@,
            columns@,
            match filter {
                Some(f) => Some(f@),
                None => None,
            },
            match use_index {
                Some(name) => Some(name@),
                None => None,
            },
        ) {
            Ok(out) => r is Ok && table_view(r->Ok_0@) == out,
            Err(e) => r is Err && r->Err_0@ == e,
        },
{
    match filter {
        None => {
            let rows = match scan_table(pager, table.rootpage) {
                Err(e) => {
                    return Err(e);
                },
                Ok(rows) => rows,
            };
            let none: Option<RowFilter<'_>> = None;
            select_scanned(&rows, columns, &none)
        },
        Some(f) => {
            let at: usize = match lookup_column(table.columns, &f.column) {
                None => {
                    return Err(DbError::SchemaNotFound(f.column.clone()));
                },
                Some(at) => at,
            };
            let literal = f.literal.as_str().as_bytes();
            match use_index {
                None => {
                    let rows = match scan_table(pager, table.rootpage) {
                        Err(e) => {
                            return Err(e);
                        },
                        Ok(rows) => rows,
                    };
                    let test = Some(RowFilter { index: at, literal });
                    select_scanned(&rows, columns, &test)
                },
                Some(name) => {
                    let x: usize = match lookup_entry(schema, EntryKind::Index, name) {
                        None => {
                            return Err(DbError::SchemaNotFound(name.clone()));
                        },
                        Some(x) => x,
                    };
                    assert(schema_view(schema@)[x as int] == schema@[x as int]@);
                    let ids = match scan_index_eq(pager, schema[x].rootpage, literal) {
                        Err(e) => {
                            return Err(e);
                        },
                        Ok(ids) => ids,
                    };
                    select_fetched(pager, table.rootpage, &ids, columns)
                },
            }
        },
    }
}

impl QueryPlan {
    /// The name of the table that the plan is about.
    pub fn table(&self) -> (name: &String)
        ensures
            name@ == self@.table(),
    {
        match self {
            QueryPlan::CountAll { table } => table,
            QueryPlan::Select { table, .. } => table,
        }
    }
}

/// Runs `plan` on the table `table`.
fn run(pager: &Pager, schema: &Vec<SchemaEntry>, table: &TableSchema<'_>, plan: &QueryPlan) -> (r:
    Result<QueryOutput, DbError>)
    requires
        find_entry(schema_view(schema@), EntryKind::Table, plan@.table(), 0) is Some,
        table_of(
            schema_view(schema@)[find_entry(
                schema_view(schema@),
                EntryKind::Table,
                plan@.table(),
                0,
            )->Some_0 as int],
        ) == table@,
    ensures
        match executed(pager@, schema_view(schema@), plan@) {
            Ok(out) => r is Ok && r->Ok_0@ == out,
            Err(e) => r is Err && r->Err_0@ == e,
        },
{
    match plan {
        QueryPlan::CountAll { .. } => match count_rows(pager, table.rootpage) {
            Err(e) => Err(e),
            Ok(count) => Ok(QueryOutput::Count(count)),
        },
        QueryPlan::Select { projection, filter, use_index, .. } => {
            let columns = match resolve_projection(table.columns, projection) {
                Err(e) => {
                    return Err(e);
                },
                Ok(columns) => columns,
            };
            match select_rows(pager, schema, table, &columns, filter, use_index) {
                Err(e) => Err(e),
                Ok(rows) => Ok(QueryOutput::Rows(rows)),
            }
        },
    }
}

/// Runs `plan` on the database behind `pager`, whose schema is `schema`.
///
/// A count gives the number of cells on the leaves of the table's tree. A
/// selection gives, for each row that passes the filter, the values of the
/// projected columns, in scan order or, through an index, in index order.
/// A failure comes back unchanged, with the table's name and root page.
pub fn execute(pager: &Pager, schema: &Vec<SchemaEntry>, plan: &QueryPlan) -> (r: Result<
    QueryOutput,
    QueryError,
>)
    ensures
        match executed(pager@, schema_view(schema@), plan@) {
            Ok(out) => r is Ok && r->Ok_0@ == out,
            Err(e) => r is Err && r->Err_0.cause@ == e && r->Err_0.table@ == plan@.table()
                && r->Err_0.page == plan_root(schema_view(schema@), plan@),
        },
{
    let name = plan.table();
    let table = match resolve_table(schema, name) {
        Err(cause) => {
            return Err(QueryError { table: name.clone(), page: 0, cause });
        },
        Ok(table) => table,
    };
    match run(pager, schema, &table, plan) {
        Ok(out) => Ok(out),
        Err(cause) => Err(QueryError { table: name.clone(), page: table.rootpage, cause }),
    }
}

} // verus!
