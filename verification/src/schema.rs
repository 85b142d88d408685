//! The schema: the rows of the table rooted at page 1, one for each table,
//! index, view and trigger of the database.

use vstd::prelude::*;
use vstd::string::*;
use crate::btree::{MAX_DEPTH, rows_of, scan_table, table_rows};
use crate::error::{DbError, SchemaFault};
use crate::page::{RowView, TableLeafCell};
use crate::pager::{Pager, PagerView};
use crate::pattern::{
    Groups, all_matches, captures, captures_all, compile, first_match, groups_view, matches_view,
    pattern_compiles,
};
use crate::record::{RecordView, decode_record, lossy_text, parse_record};
use crate::sql_type::{SqlType, declared_class};
use crate::text::bytes_equal;

verus! {

/// A column of a table: its name and its declared storage class.
#[derive(Debug, Clone, PartialEq, Eq)]
pub struct Column {
    pub name: String,
    pub tpe: SqlType,
}

/// What a column is.
pub struct ColumnView {
    pub name: Seq<char>,
    pub tpe: SqlType,
}

impl View for Column {
    type V = ColumnView;

    open spec fn view(&self) -> ColumnView {
        ColumnView { name: self.name@, tpe: self.tpe }
    }
}

impl Column {
    /// The column named `name` whose declared type is the keyword `col_type`.
    pub fn from_strs(name: &str, col_type: &str) -> (c: Column)
        ensures
            c@ == (ColumnView { name: name@, tpe: declared_class(col_type@) }),
    {
        Column { name: name.to_owned(), tpe: SqlType::from_str(col_type) }
    }
}

/// What the columns in `columns` are.
pub open spec fn columns_view(columns: Seq<Column>) -> Seq<ColumnView> {
    Seq::new(columns.len(), |i: int| columns[i]@)
}

/// The pattern of a `CREATE TABLE` statement; its first group is the text
/// between the outermost brackets.
pub open spec fn table_pattern() -> Seq<char> {
    "(?si)CREATE\\s+TABLE\\s+(?:\"[^\"]*\"|\\w+)\\s*\\((.*)\\)"@
}

/// The pattern of one column declaration: a name in double quotes (first
/// group) or a bare name (second group), then the type keyword (third
/// group), then the rest up to the next comma.
pub open spec fn column_pattern() -> Seq<char> {
    "(?:\"([^\"]*)\"|(\\w+))\\s+(\\w+)[^,]*"@
}

/// The name and the type keyword in the groups of one column declaration;
/// a quoted name stands without its quotes.
pub open spec fn declared_column(groups: Seq<Option<Seq<char>>>) -> Option<ColumnView> {
    if groups.len() < 4 || groups[3] is None {
        None
    } else if groups[1] is Some {
        Some(ColumnView { name: groups[1]->Some_0, tpe: declared_class(groups[3]->Some_0) })
    } else if groups[2] is Some {
        Some(ColumnView { name: groups[2]->Some_0, tpe: declared_class(groups[3]->Some_0) })
    } else {
        None
    }
}

/// The columns that the matches from `i` on declare, in order.
pub open spec fn columns_from(all: Seq<Seq<Option<Seq<char>>>>, i: nat) -> Seq<ColumnView>
    decreases all.len() - i,
{
    if i >= all.len() {
        Seq::empty()
    } else {
        match declared_column(all[i as int]) {
            Some(column) => seq![column] + columns_from(all, i + 1),
            None => columns_from(all, i + 1),
        }
    }
}

/// The columns that the statement `sql` declares. A statement that is no
/// `CREATE TABLE` declares none.
pub open spec fn declared_columns(sql: Seq<char>) -> Result<Seq<ColumnView>, DbError> {
    if !pattern_compiles(table_pattern()) {
        Err(DbError::InvalidSchema(SchemaFault::Pattern))
    } else {
        match first_match(table_pattern(), sql) {
            None => Ok(Seq::empty()),
            Some(groups) => if groups.len() < 2 || groups[1] is None {
                Ok(Seq::empty())
            } else if !pattern_compiles(column_pattern()) {
                Err(DbError::InvalidSchema(SchemaFault::Pattern))
            } else {
                Ok(columns_from(all_matches(column_pattern(), groups[1]->Some_0), 0))
            },
        }
    }
}

proof fn lemma_columns_view_push(columns: Seq<Column>, column: Column)
    ensures
        columns_view(columns.push(column)) == columns_view(columns).push(column@),
{
    assert(columns_view(columns.push(column)) =~= columns_view(columns).push(column@));
}

/// The columns that the matches `all` of the column pattern declare.
pub fn columns_from_matches(all: &Vec<Groups>) -> (r: Vec<Column>)
    ensures
        columns_view(r@) == columns_from(matches_view(all@), 0),
{
    let mut out: Vec<Column> = Vec::new();
    let mut i: usize = 0;
    assert(columns_view(out@) =~= Seq::<ColumnView>::empty());
    while i < all.len()
        invariant
            i <= all@.len(),
            columns_from(matches_view(all@), 0) == columns_view(out@) + columns_from(
                matches_view(all@),
                i as nat,
            ),
        decreases all@.len() - i,
    {
        let groups = &all[i];
        let ghost view = matches_view(all@)[i as int];
        assert(view == groups_view(groups@));
        let ghost before = columns_view(out@);
        let ghost rest = columns_from(matches_view(all@), (i + 1) as nat);
        if groups.len() >= 4 {
            match &groups[3] {
                None => {},
                Some(word) => {
                    assert(view[3] == Some(word@));
                    match &groups[1] {
                        Some(name) => {
                            assert(view[1] == Some(name@));
                            let column = Column::from_strs(name.as_str(), word.as_str());
                            proof {
                                lemma_columns_view_push(out@, column);
                                assert(before.push(column@) + rest =~= before + (seq![column@]
                                    + rest));
                            }
                            out.push(column);
                        },
                        None => {
                            assert(view[1] is None);
                            match &groups[2] {
                                Some(name) => {
                                    assert(view[2] == Some(name@));
                                    let column = Column::from_strs(name.as_str(), word.as_str());
                                    proof {
                                        lemma_columns_view_push(out@, column);
                                        assert(before.push(column@) + rest =~= before + (
                                        seq![column@] + rest));
                                    }
                                    out.push(column);
                                },
                                None => {
                                    assert(view[2] is None);
                                },
                            }
                        },
                    }
                },
            }
        }
        i += 1;
    }
    assert(columns_view(out@) + Seq::<ColumnView>::empty() =~= columns_view(out@));
    out
}

/// The columns that the `CREATE TABLE` statement `sql_str` declares, in
/// order, as the matcher finds them.
pub fn parse_columns(sql_str: &str) -> (r: Result<Vec<Column>, DbError>)
    ensures
        match declared_columns(sql_str@) {
            Ok(columns) => r is Ok && columns_view(r->Ok_0@) == columns,
            Err(e) => r is Err && r->Err_0 == e,
        },
{
    let table_re = match compile("(?si)CREATE\\s+TABLE\\s+(?:\"[^\"]*\"|\\w+)\\s*\\((.*)\\)") {
        Err(_) => {
            return Err(DbError::InvalidSchema(SchemaFault::Pattern));
        },
        Ok(re) => re,
    };
    let groups = match captures(&table_re, sql_str) {
        None => {
            let none: Vec<Column> = Vec::new();
            assert(columns_view(none@) =~= Seq::<ColumnView>::empty());
            return Ok(none);
        },
        Some(groups) => groups,
    };
    let ghost view = groups_view(groups@);
    if groups.len() < 2 {
        let none: Vec<Column> = Vec::new();
        assert(columns_view(none@) =~= Seq::<ColumnView>::empty());
        return Ok(none);
    }
    match &groups[1] {
        None => {
            assert(view[1] is None);
            let none: Vec<Column> = Vec::new();
            assert(columns_view(none@) =~= Seq::<ColumnView>::empty());
            Ok(none)
        },
        Some(section) => {
            assert(view[1] == Some(section@));
            let column_re = match compile("(?:\"([^\"]*)\"|(\\w+))\\s+(\\w+)[^,]*") {
                Err(_) => {
                    return Err(DbError::InvalidSchema(SchemaFault::Pattern));
                },
                Ok(re) => re,
            };
            let all = captures_all(&column_re, section.as_str());
            Ok(columns_from_matches(&all))
        },
    }
}

/// The kinds of schema entry.
#[derive(Debug, Clone, Copy, PartialEq, Eq, Structural)]
pub enum EntryKind {
    Table,
    Index,
    View,
    Trigger,
}

/// The kind that the bytes of the first column of a schema row name.
pub open spec fn entry_kind_of(word: Seq<u8>) -> Option<EntryKind> {
    if word == "table".spec_bytes() {
        Some(EntryKind::Table)
    } else if word == "index".spec_bytes() {
        Some(EntryKind::Index)
    } else if word == "view".spec_bytes() {
        Some(EntryKind::View)
    } else if word == "trigger".spec_bytes() {
        Some(EntryKind::Trigger)
    } else {
        None
    }
}

/// A row of the schema table.
#[derive(Debug, Clone, PartialEq, Eq)]
pub struct SchemaEntry {
    pub kind: EntryKind,
    pub name: String,
    pub tbl_name: String,
    pub rootpage: u32,
    pub columns: Vec<Column>,
    pub sql: String,
}

/// What a schema entry is.
pub struct SchemaEntryView {
    pub kind: EntryKind,
    pub name: Seq<char>,
    pub tbl_name: Seq<char>,
    pub rootpage: u32,
    pub columns: Seq<ColumnView>,
    pub sql: Seq<char>,
}

impl View for SchemaEntry {
    type V = SchemaEntryView;

    open spec fn view(&self) -> SchemaEntryView {
        SchemaEntryView {
            kind: self.kind,
            name: self.name@,
            tbl_name: self.tbl_name@,
            rootpage: self.rootpage,
            columns: columns_view(self.columns@),
            sql: self.sql@,
        }
    }
}

/// A table as the executor sees it: its name, the root page of its tree
/// and its columns in order. Where the first column is the rowid alias,
/// the rows hold a null in its place and its value is the rowid.
#[derive(Debug, Clone, Copy, PartialEq, Eq)]
pub struct TableSchema<'a> {
    pub name: &'a String,
    pub rootpage: u32,
    pub columns: &'a Vec<Column>,
}

/// What a table is.
pub struct TableSchemaView {
    pub name: Seq<char>,
    pub rootpage: u32,
    pub columns: Seq<ColumnView>,
}

impl<'a> View for TableSchema<'a> {
    type V = TableSchemaView;

    open spec fn view(&self) -> TableSchemaView {
        TableSchemaView {
            name: self.name@,
            rootpage: self.rootpage,
            columns: columns_view(self.columns@),
        }
    }
}

/// The table that an entry of kind table describes.
pub open spec fn table_of(entry: SchemaEntryView) -> TableSchemaView {
    TableSchemaView { name: entry.tbl_name, rootpage: entry.rootpage, columns: entry.columns }
}

impl SchemaEntry {
    /// The table that this entry describes, if it is of kind table.
    pub fn as_table(&self) -> (r: Option<TableSchema<'_>>)
        ensures
            self.kind == EntryKind::Table ==> r is Some && r->Some_0@ == table_of(self@),
            self.kind != EntryKind::Table ==> r is None,
    {
        match self.kind {
            EntryKind::Table => Some(
                TableSchema {
                    name: &self.tbl_name,
                    rootpage: self.rootpage,
                    columns: &self.columns,
                },
            ),
            _ => None,
        }
    }
}

/// What the entries in `entries` are.
pub open spec fn schema_view(entries: Seq<SchemaEntry>) -> Seq<SchemaEntryView> {
    Seq::new(entries.len(), |i: int| entries[i]@)
}

/// The statement in the fifth column of a schema row; a null stands for
/// no statement.
pub open spec fn entry_sql(record: RecordView) -> Result<Seq<char>, DbError> {
    if record.serial_types[4] == 0 {
        Ok(Seq::empty())
    } else {
        match record.text_bytes(4) {
            Err(e) => Err(e),
            Ok(bytes) => Ok(lossy_text(bytes)),
        }
    }
}

/// The root page in the fourth column of a schema row.
pub open spec fn entry_rootpage(record: RecordView) -> Result<u32, DbError> {
    match record.integer(3) {
        Err(e) => Err(e),
        Ok(page) => if 0 <= page <= u32::MAX {
            Ok(page as u32)
        } else {
            Err(DbError::InvalidSchema(SchemaFault::RootPage))
        },
    }
}

/// The schema entry that the record in `payload` holds: kind, name, table
/// name, root page and statement, and for a table the columns that the
/// statement declares.
pub open spec fn schema_entry(payload: Seq<u8>) -> Result<SchemaEntryView, DbError> {
    match parse_record(payload) {
        Err(e) => Err(e),
        Ok(record) => if record.serial_types.len() < 5 {
            Err(DbError::InvalidSchema(SchemaFault::TooFewColumns))
        } else {
            match record.text_bytes(0) {
                Err(e) => Err(e),
                Ok(word) => match entry_kind_of(word) {
                    None => Err(DbError::InvalidSchema(SchemaFault::Kind)),
                    Some(kind) => match record.text_bytes(1) {
                        Err(e) => Err(e),
                        Ok(name) => match record.text_bytes(2) {
                            Err(e) => Err(e),
                            Ok(tbl_name) => match entry_rootpage(record) {
                                Err(e) => Err(e),
                                Ok(rootpage) => match entry_sql(record) {
                                    Err(e) => Err(e),
                                    Ok(sql) => match (if kind == EntryKind::Table {
                                        declared_columns(sql)
                                    } else {
                                        Ok(Seq::empty())
                                    }) {
                                        Err(e) => Err(e),
                                        Ok(columns) => Ok(
                                            SchemaEntryView {
                                                kind,
                                                name: lossy_text(name),
                                                tbl_name: lossy_text(tbl_name),
                                                rootpage,
                                                columns,
                                                sql,
                                            },
                                        ),
                                    },
                                },
                            },
                        },
                    },
                },
            }
        },
    }
}

/// The entries that the rows from `i` on hold; the first row that holds
/// none fails the whole.
pub open spec fn schema_entries(rows: Seq<RowView>, i: nat) -> Result<
    Seq<SchemaEntryView>,
    DbError,
>
    decreases rows.len() - i,
{
    if i >= rows.len() {
        Ok(Seq::empty())
    } else {
        match schema_entry(rows[i as int].payload) {
            Err(e) => Err(e),
            Ok(entry) => match schema_entries(rows, i + 1) {
                Err(e) => Err(e),
                Ok(rest) => Ok(seq![entry] + rest),
            },
        }
    }
}

/// The schema of `db`: the entries that the rows of the table rooted at
/// page 1 hold, in order.
pub open spec fn schema_of(db: PagerView) -> Result<Seq<SchemaEntryView>, DbError> {
    match table_rows(db, 1, MAX_DEPTH as nat) {
        Err(e) => Err(e),
        Ok(rows) => schema_entries(rows, 0),
    }
}

fn kind_of_word(word: &[u8]) -> (r: Option<EntryKind>)
    ensures
        r == entry_kind_of(word@),
{
    if bytes_equal(word, "table".as_bytes()) {
        Some(EntryKind::Table)
    } else if bytes_equal(word, "index".as_bytes()) {
        Some(EntryKind::Index)
    } else if bytes_equal(word, "view".as_bytes()) {
        Some(EntryKind::View)
    } else if bytes_equal(word, "trigger".as_bytes()) {
        Some(EntryKind::Trigger)
    } else {
        None
    }
}

/// Decodes the schema entry that the record in `payload` holds.
pub fn read_schema_entry(payload: &[u8]) -> (r: Result<SchemaEntry, DbError>)
    ensures
        match schema_entry(payload@) {
            Ok(entry) => r is Ok && r->Ok_0@ == entry,
            Err(e) => r is Err && r->Err_0 == e,
        },
{
    let record = match decode_record(payload) {
        Err(e) => {
            return Err(e);
        },
        Ok(record) => record,
    };
    if record.column_count() < 5 {
        return Err(DbError::InvalidSchema(SchemaFault::TooFewColumns));
    }
    let word = match record.text_bytes(0) {
        Err(e) => {
            return Err(e);
        },
        Ok(word) => word,
    };
    let kind = match kind_of_word(word) {
        None => {
            return Err(DbError::InvalidSchema(SchemaFault::Kind));
        },
        Some(kind) => kind,
    };
    let name = match record.as_text(1) {
        Err(e) => {
            return Err(e);
        },
        Ok(name) => name,
    };
    let tbl_name = match record.as_text(2) {
        Err(e) => {
            return Err(e);
        },
        Ok(name) => name,
    };
    let page: i64 = match record.as_integer(3) {
        Err(e) => {
            return Err(e);
        },
        Ok(page) => page,
    };
    if page < 0 || page > 0xffff_ffff {
        return Err(DbError::InvalidSchema(SchemaFault::RootPage));
    }
    let rootpage: u32 = page as u32;
    let code: u64 = match record.serial_code(4) {
        Err(e) => {
            return Err(e);
        },
        Ok(code) => code,
    };
    let sql = if code == 0 {
        String::new()
    } else {
        match record.as_text(4) {
            Err(e) => {
                return Err(e);
            },
            Ok(sql) => sql,
        }
    };
    let is_table: bool = match kind {
        EntryKind::Table => true,
        _ => false,
    };
    let columns: Vec<Column> = if is_table {
        match parse_columns(sql.as_str()) {
            Err(e) => {
                return Err(e);
            },
            Ok(columns) => columns,
        }
    } else {
        let none: Vec<Column> = Vec::new();
        assert(columns_view(none@) =~= Seq::<ColumnView>::empty());
        none
    };
    Ok(SchemaEntry { kind, name, tbl_name, rootpage, columns, sql })
}

proof fn lemma_schema_view_push(entries: Seq<SchemaEntry>, entry: SchemaEntry)
    ensures
        schema_view(entries.push(entry)) == schema_view(entries).push(entry@),
{
    assert(schema_view(entries.push(entry)) =~= schema_view(entries).push(entry@));
}

/// Decodes the schema entries that `rows` hold.
pub fn read_schema_entries(rows: &Vec<TableLeafCell<'_>>) -> (r: Result<Vec<SchemaEntry>, DbError>)
    ensures
        match schema_entries(rows_of(rows@), 0) {
            Ok(entries) => r is Ok && schema_view(r->Ok_0@) == entries,
            Err(e) => r is Err && r->Err_0 == e,
        },
{
    let mut out: Vec<SchemaEntry> = Vec::new();
    let mut i: usize = 0;
    assert(schema_view(out@) =~= Seq::<SchemaEntryView>::empty());
    while i < rows.len()
        invariant
            i <= rows@.len(),
            match schema_entries(rows_of(rows@), i as nat) {
                Ok(rest) => schema_entries(rows_of(rows@), 0) == Ok::<
                    Seq<SchemaEntryView>,
                    DbError,
                >(schema_view(out@) + rest),
                Err(e) => schema_entries(rows_of(rows@), 0) == Err::<
                    Seq<SchemaEntryView>,
                    DbError,
                >(e),
            },
        decreases rows@.len() - i,
    {
        assert(rows_of(rows@)[i as int].payload == rows@[i as int].payload@);
        match read_schema_entry(rows[i].payload) {
            Err(e) => {
                return Err(e);
            },
            Ok(entry) => {
                proof {
                    lemma_schema_view_push(out@, entry);
                    if let Ok(rest) = schema_entries(rows_of(rows@), (i + 1) as nat) {
                        assert(schema_view(out@).push(entry@) + rest =~= schema_view(out@) + (
                        seq![entry@] + rest));
                    }
                }
                out.push(entry);
            },
        }
        i += 1;
    }
    assert(schema_view(out@) + Seq::<SchemaEntryView>::empty() =~= schema_view(out@));
    Ok(out)
}

/// Loads the schema: scans the table rooted at page 1 and decodes each of
/// its rows.
pub fn load_schema(pager: &Pager) -> (r: Result<Vec<SchemaEntry>, DbError>)
    ensures
        match schema_of(pager@) {
            Ok(entries) => r is Ok && schema_view(r->Ok_0@) == entries,
            Err(e) => r is Err && r->Err_0 == e,
        },
{
    match scan_table(pager, 1) {
        Err(e) => Err(e),
        Ok(rows) => read_schema_entries(&rows),
    }
}

} // verus!
