use sqlite_reader::btree::{count_rows, lookup_rowid, scan_table, scan_table_limit};
use sqlite_reader::error::{DbError, Feature, RecordFault, SchemaFault};
use sqlite_reader::index::{read_index_entry, scan_index_eq};
use sqlite_reader::pager::Pager;
use sqlite_reader::plan::plan_query;
use sqlite_reader::query::{execute, resolve_table, Filter, QueryOutput, QueryPlan, Value};
use sqlite_reader::render::{join_cells, render_integer, tables_line};
use sqlite_reader::schema::{load_schema, parse_columns, Column, EntryKind, SchemaEntry};
use sqlite_reader::sql_type::SqlType;
use sqlite_reader::varint::write_varint;

const PAGE: usize = 4096;

enum Col<'a> {
    Null,
    Int(i64),
    Text(&'a str),
    Blob(&'a [u8]),
    Real(f64),
}

fn record(cols: &[Col]) -> Vec<u8> {
    let mut types: Vec<u8> = Vec::new();
    let mut body: Vec<u8> = Vec::new();
    for c in cols {
        match c {
            Col::Null => types.extend(write_varint(0)),
            Col::Int(v) => {
                if *v >= -128 && *v <= 127 {
                    types.extend(write_varint(1));
                    body.push(*v as i8 as u8);
                } else if *v >= -32768 && *v <= 32767 {
                    types.extend(write_varint(2));
                    body.extend((*v as i16).to_be_bytes());
                } else {
                    types.extend(write_varint(6));
                    body.extend(v.to_be_bytes());
                }
            }
            Col::Text(s) => {
                types.extend(write_varint(13 + 2 * s.len() as u64));
                body.extend(s.as_bytes());
            }
            Col::Blob(b) => {
                types.extend(write_varint(12 + 2 * b.len() as u64));
                body.extend(b.iter());
            }
            Col::Real(x) => {
                types.extend(write_varint(7));
                body.extend(x.to_bits().to_be_bytes());
            }
        }
    }
    let header_len = types.len() + 1;
    assert!(header_len < 128);
    let mut out = write_varint(header_len as u64);
    out.extend(types);
    out.extend(body);
    out
}

fn table_leaf_cell(rowid: i64, payload: &[u8]) -> Vec<u8> {
    let mut out = write_varint(payload.len() as u64);
    out.extend(write_varint(rowid as u64));
    out.extend(payload);
    out
}

fn table_interior_cell(left: u32, key: i64) -> Vec<u8> {
    let mut out = left.to_be_bytes().to_vec();
    out.extend(write_varint(key as u64));
    out
}

fn index_leaf_cell(payload: &[u8]) -> Vec<u8> {
    let mut out = write_varint(payload.len() as u64);
    out.extend(payload);
    out
}

fn index_interior_cell(left: u32, payload: &[u8]) -> Vec<u8> {
    let mut out = left.to_be_bytes().to_vec();
    out.extend(index_leaf_cell(payload));
    out
}

fn page(first: bool, kind: u8, right_most: u32, cells: &[Vec<u8>]) -> Vec<u8> {
    let mut p = vec![0u8; PAGE];
    let base = if first { 100 } else { 0 };
    let interior = kind == 0x05 || kind == 0x02;
    let hlen = if interior { 12 } else { 8 };
    p[base] = kind;
    p[base + 3..base + 5].copy_from_slice(&(cells.len() as u16).to_be_bytes());
    if interior {
        p[base + 8..base + 12].copy_from_slice(&right_most.to_be_bytes());
    }
    let mut end = PAGE;
    for (i, c) in cells.iter().enumerate() {
        end -= c.len();
        p[end..end + c.len()].copy_from_slice(c);
        let at = base + hlen + 2 * i;
        p[at..at + 2].copy_from_slice(&(end as u16).to_be_bytes());
    }
    p[base + 5..base + 7].copy_from_slice(&(end as u16).to_be_bytes());
    p
}

fn database(pages: Vec<Vec<u8>>) -> Vec<u8> {
    let mut data: Vec<u8> = Vec::new();
    for p in pages {
        data.extend(p);
    }
    data[0..16].copy_from_slice(b"SQLite format 3\0");
    data[16..18].copy_from_slice(&(PAGE as u16).to_be_bytes());
    data
}

fn schema_row(kind: &str, name: &str, table: &str, root: i64, sql: &str) -> Vec<u8> {
    record(&[Col::Text(kind), Col::Text(name), Col::Text(table), Col::Int(root), Col::Text(sql)])
}

const APPLES_SQL: &str =
    "CREATE TABLE apples\n(\n\tid integer primary key autoincrement,\n\tname text,\n\tcolor text\n)";
const ORANGES_SQL: &str =
    "CREATE TABLE oranges\n(\n\tid integer primary key autoincrement,\n\tname text,\n\tdescription text\n)";
const SEQUENCE_SQL: &str = "CREATE TABLE sqlite_sequence(name,seq)";

fn apple(id: i64, name: &str, color: &str) -> Vec<u8> {
    table_leaf_cell(id, &record(&[Col::Null, Col::Text(name), Col::Text(color)]))
}

/// Three tables: apples (page 2, four rows), oranges (page 4, empty) and
/// sqlite_sequence (page 3, one row).
fn fruit_db() -> Vec<u8> {
    let schema = page(
        true,
        0x0d,
        0,
        &[
            table_leaf_cell(1, &schema_row("table", "apples", "apples", 2, APPLES_SQL)),
            table_leaf_cell(2, &schema_row("table", "oranges", "oranges", 4, ORANGES_SQL)),
            table_leaf_cell(
                3,
                &schema_row("table", "sqlite_sequence", "sqlite_sequence", 3, SEQUENCE_SQL),
            ),
        ],
    );
    let apples = page(
        false,
        0x0d,
        0,
        &[
            apple(1, "Granny Smith", "Light Green"),
            apple(2, "Fuji", "Red"),
            apple(3, "Honeycrisp", "Yellow"),
            apple(4, "Golden Delicious", "yellow"),
        ],
    );
    let sequence = page(
        false,
        0x0d,
        0,
        &[table_leaf_cell(1, &record(&[Col::Text("apples"), Col::Int(4)]))],
    );
    let oranges = page(false, 0x0d, 0, &[]);
    database(vec![schema, apples, sequence, oranges])
}

const COMPANIES_SQL: &str = "CREATE TABLE companies\n(\n\tid integer primary key autoincrement\n, name text, domain text, year_founded text, industry text, \"size range\" text, locality text, country text, current_employees text, total_employees text)";
const COUNTRY_INDEX_SQL: &str = "CREATE INDEX idx_companies_country\n\ton companies (country)";

fn company(id: i64, name: &str, country: Col) -> Vec<u8> {
    table_leaf_cell(
        id,
        &record(&[
            Col::Null,
            Col::Text(name),
            Col::Text("example.org"),
            Col::Text("1999"),
            Col::Text("trade"),
            Col::Text("1 - 10"),
            Col::Text("somewhere"),
            country,
            Col::Text("5"),
            Col::Text("9"),
        ]),
    )
}

fn entry(country: &str, id: i64) -> Vec<u8> {
    record(&[Col::Text(country), Col::Int(id)])
}

/// A table of nine companies on three leaves under an interior root (page
/// 2; leaves 3, 4, 5) and an index on country with an interior root (page
/// 6; leaves 7, 8, 9).
fn companies_db() -> Vec<u8> {
    let schema = page(
        true,
        0x0d,
        0,
        &[
            table_leaf_cell(1, &schema_row("table", "companies", "companies", 2, COMPANIES_SQL)),
            table_leaf_cell(
                2,
                &schema_row("index", "idx_companies_country", "companies", 6, COUNTRY_INDEX_SQL),
            ),
        ],
    );
    let root = page(false, 0x05, 5, &[table_interior_cell(3, 3), table_interior_cell(4, 600)]);
    let leaf_a = page(
        false,
        0x0d,
        0,
        &[
            company(1, "alpha", Col::Text("eritrea")),
            company(2, "beta", Col::Text("chad")),
            company(3, "gamma", Col::Text("tonga")),
        ],
    );
    let leaf_b = page(
        false,
        0x0d,
        0,
        &[
            company(150, "delta", Col::Text("eritrea")),
            company(300, "epsilon", Col::Text("benin")),
            company(600, "zeta", Col::Text("eritrea")),
        ],
    );
    let leaf_c = page(
        false,
        0x0d,
        0,
        &[
            company(601, "eta", Col::Text("tonga")),
            company(70000, "theta", Col::Text("Eritrea")),
            company(70001, "iota", Col::Text("fiji")),
        ],
    );
    let index_root = page(
        false,
        0x02,
        9,
        &[
            index_interior_cell(7, &entry("eritrea", 1)),
            index_interior_cell(8, &entry("eritrea", 70000)),
        ],
    );
    let index_a = page(
        false,
        0x0a,
        0,
        &[index_leaf_cell(&entry("benin", 300)), index_leaf_cell(&entry("chad", 2))],
    );
    let index_b = page(
        false,
        0x0a,
        0,
        &[index_leaf_cell(&entry("eritrea", 150)), index_leaf_cell(&entry("eritrea", 600))],
    );
    let index_c = page(
        false,
        0x0a,
        0,
        &[
            index_leaf_cell(&entry("fiji", 70001)),
            index_leaf_cell(&entry("tonga", 3)),
            index_leaf_cell(&entry("tonga", 601)),
        ],
    );
    database(vec![schema, root, leaf_a, leaf_b, leaf_c, index_root, index_a, index_b, index_c])
}

fn open(data: Vec<u8>) -> (Pager, Vec<SchemaEntry>) {
    let pager = Pager::open(data).unwrap();
    let schema = load_schema(&pager).unwrap();
    (pager, schema)
}

fn render(output: &QueryOutput) -> String {
    match output {
        QueryOutput::Count(n) => format!("{}\n", n),
        QueryOutput::Rows(rows) => {
            let mut out = String::new();
            for row in rows {
                let cells: Vec<String> = row
                    .iter()
                    .map(|v| match v {
                        Value::Integer(i) => render_integer(*i),
                        Value::Real(bits) => f64::from_bits(*bits).to_string(),
                        Value::Text(s) => s.clone(),
                    })
                    .collect();
                out.push_str(&join_cells(&cells));
                out.push('\n');
            }
            out
        }
    }
}

fn query(data: Vec<u8>, sql: &str) -> String {
    let (pager, schema) = open(data);
    let plan = plan_query(sql, &schema).unwrap();
    render(&execute(&pager, &schema, &plan).unwrap())
}

#[test]
fn dbinfo_gives_page_size_and_number_of_tables() {
    let pager = Pager::open(fruit_db()).unwrap();
    let text = format!(
        "database page size: {}\nnumber of tables: {}\n",
        pager.page_size(),
        count_rows(&pager, 1).unwrap()
    );
    assert_eq!(text, "database page size: 4096\nnumber of tables: 3\n");
}

#[test]
fn tables_lists_names_in_schema_order() {
    let (_, schema) = open(fruit_db());
    assert_eq!(format!("{}\n", tables_line(&schema)), "apples oranges sqlite_sequence \n");
}

#[test]
fn count_of_apples_is_four() {
    assert_eq!(query(fruit_db(), "SELECT COUNT(*) FROM apples"), "4\n");
}

#[test]
fn select_one_text_column() {
    assert_eq!(
        query(fruit_db(), "SELECT name FROM apples"),
        "Granny Smith\nFuji\nHoneycrisp\nGolden Delicious\n"
    );
}

#[test]
fn select_two_columns_joined_by_bar() {
    assert_eq!(
        query(fruit_db(), "SELECT name, color FROM apples"),
        "Granny Smith|Light Green\nFuji|Red\nHoneycrisp|Yellow\nGolden Delicious|yellow\n"
    );
}

#[test]
fn select_with_filter_renders_rowid_alias() {
    assert_eq!(
        query(fruit_db(), "SELECT id, name FROM apples WHERE color = 'Yellow'"),
        "3|Honeycrisp\n4|Golden Delicious\n"
    );
}

#[test]
fn indexed_lookup_agrees_with_full_scan() {
    let (pager, schema) = open(companies_db());
    let sql = "SELECT id, name FROM companies WHERE country = 'eritrea'";
    let plan = plan_query(sql, &schema).unwrap();
    assert_eq!(
        plan,
        QueryPlan::Select {
            table: "companies".to_string(),
            projection: vec!["id".to_string(), "name".to_string()],
            filter: Some(Filter { column: "country".to_string(), literal: "eritrea".to_string() }),
            use_index: Some("idx_companies_country".to_string()),
        }
    );
    let through_index = render(&execute(&pager, &schema, &plan).unwrap());
    assert_eq!(through_index, "1|alpha\n150|delta\n600|zeta\n70000|theta\n");
    let without = QueryPlan::Select {
        table: "companies".to_string(),
        projection: vec!["id".to_string(), "name".to_string()],
        filter: Some(Filter { column: "country".to_string(), literal: "eritrea".to_string() }),
        use_index: None,
    };
    assert_eq!(render(&execute(&pager, &schema, &without).unwrap()), through_index);
}

#[test]
fn scan_yields_rowids_in_increasing_order() {
    let pager = Pager::open(companies_db()).unwrap();
    let rows = scan_table(&pager, 2).unwrap();
    let ids: Vec<i64> = rows.iter().map(|r| r.rowid).collect();
    assert_eq!(ids, vec![1, 2, 3, 150, 300, 600, 601, 70000, 70001]);
}

#[test]
fn lookup_returns_the_payload_of_the_scan() {
    let pager = Pager::open(companies_db()).unwrap();
    let rows = scan_table(&pager, 2).unwrap();
    for row in &rows {
        assert_eq!(lookup_rowid(&pager, 2, row.rowid), Ok(row.payload));
    }
    for absent in [0i64, 4, 149, 599, 602, 69999, 70002, -1, i64::MAX] {
        assert_eq!(lookup_rowid(&pager, 2, absent), Err(DbError::NotFound));
    }
}

#[test]
fn index_scan_agrees_with_filtered_scan() {
    let pager = Pager::open(companies_db()).unwrap();
    for key in ["eritrea", "ERITREA", "tonga", "benin", "chad", "fiji", "nowhere", ""] {
        let mut from_index = scan_index_eq(&pager, 6, key.as_bytes()).unwrap();
        let mut from_scan: Vec<i64> = Vec::new();
        for row in scan_table(&pager, 2).unwrap() {
            let rec = sqlite_reader::record::decode_record(row.payload).unwrap();
            if rec.text_bytes(7).unwrap().eq_ignore_ascii_case(key.as_bytes()) {
                from_scan.push(row.rowid);
            }
        }
        from_index.sort();
        from_scan.sort();
        assert_eq!(from_index, from_scan);
    }
}

#[test]
fn index_scan_yields_in_index_order() {
    let pager = Pager::open(companies_db()).unwrap();
    assert_eq!(scan_index_eq(&pager, 6, b"eritrea"), Ok(vec![1, 150, 600, 70000]));
    assert_eq!(scan_index_eq(&pager, 6, b"tonga"), Ok(vec![3, 601]));
    assert_eq!(scan_index_eq(&pager, 6, b"aaa"), Ok(vec![]));
    assert_eq!(scan_index_eq(&pager, 6, b"zzz"), Ok(vec![]));
}

#[test]
fn count_equals_length_of_scan() {
    let pager = Pager::open(companies_db()).unwrap();
    assert_eq!(count_rows(&pager, 2), Ok(9));
    assert_eq!(scan_table(&pager, 2).unwrap().len(), 9);
    let fruit = Pager::open(fruit_db()).unwrap();
    for root in [1u32, 2, 3, 4] {
        assert_eq!(
            count_rows(&fruit, root).unwrap(),
            scan_table(&fruit, root).unwrap().len() as u64
        );
    }
}

#[test]
fn schema_entries_carry_columns_and_root_pages() {
    let (_, schema) = open(companies_db());
    assert_eq!(schema.len(), 2);
    assert_eq!(schema[0].kind, EntryKind::Table);
    assert_eq!(schema[0].name, "companies");
    assert_eq!(schema[0].rootpage, 2);
    assert_eq!(schema[0].sql, COMPANIES_SQL);
    let names: Vec<&str> = schema[0].columns.iter().map(|c| c.name.as_str()).collect();
    assert_eq!(
        names,
        vec![
            "id",
            "name",
            "domain",
            "year_founded",
            "industry",
            "size range",
            "locality",
            "country",
            "current_employees",
            "total_employees"
        ]
    );
    assert_eq!(schema[0].columns[0].tpe, SqlType::Integer);
    assert_eq!(schema[0].columns[7].tpe, SqlType::Text);
    assert_eq!(schema[1].kind, EntryKind::Index);
    assert_eq!(schema[1].tbl_name, "companies");
    assert_eq!(schema[1].rootpage, 6);
    assert!(schema[1].columns.is_empty());
}

#[test]
fn parse_columns_reads_names_and_classes() {
    assert_eq!(
        parse_columns("CREATE TABLE t (id integer primary key, n VARCHAR(20), x REAL, b blob, d date)"),
        Ok(vec![
            Column { name: "id".to_string(), tpe: SqlType::Integer },
            Column { name: "n".to_string(), tpe: SqlType::Text },
            Column { name: "x".to_string(), tpe: SqlType::Real },
            Column { name: "b".to_string(), tpe: SqlType::Blob },
            Column { name: "d".to_string(), tpe: SqlType::Text },
        ])
    );
    assert_eq!(
        parse_columns("create table \"my table\" (\"first name\" text, age int)"),
        Ok(vec![
            Column { name: "first name".to_string(), tpe: SqlType::Text },
            Column { name: "age".to_string(), tpe: SqlType::Integer },
        ])
    );
    assert_eq!(parse_columns("CREATE INDEX i on t (a)"), Ok(vec![]));
    assert_eq!(parse_columns(""), Ok(vec![]));
}

#[test]
fn plan_count_and_select_forms() {
    let (_, schema) = open(fruit_db());
    assert_eq!(
        plan_query("select count(*) from apples", &schema),
        Ok(QueryPlan::CountAll { table: "apples".to_string() })
    );
    assert_eq!(
        plan_query("SELECT  name ,color  FROM apples", &schema),
        Ok(QueryPlan::Select {
            table: "apples".to_string(),
            projection: vec!["name".to_string(), "color".to_string()],
            filter: None,
            use_index: None,
        })
    );
    assert_eq!(
        plan_query("SELECT name FROM apples WHERE color = 'Light Green'", &schema),
        Ok(QueryPlan::Select {
            table: "apples".to_string(),
            projection: vec!["name".to_string()],
            filter: Some(Filter { column: "color".to_string(), literal: "Light Green".to_string() }),
            use_index: None,
        })
    );
    assert_eq!(
        plan_query("SELECT a,,b FROM apples", &schema),
        Ok(QueryPlan::Select {
            table: "apples".to_string(),
            projection: vec!["a".to_string(), "".to_string(), "b".to_string()],
            filter: None,
            use_index: None,
        })
    );
    assert_eq!(
        plan_query("DELETE FROM apples", &schema),
        Err(DbError::Unsupported(Feature::Statement))
    );
}

#[test]
fn unknown_table_and_column_are_not_found() {
    let (pager, schema) = open(fruit_db());
    let plan = QueryPlan::CountAll { table: "pears".to_string() };
    let err = execute(&pager, &schema, &plan).unwrap_err();
    assert_eq!(err.cause, DbError::SchemaNotFound("pears".to_string()));
    assert_eq!(err.table, "pears");
    assert_eq!(err.page, 0);
    let plan = QueryPlan::Select {
        table: "apples".to_string(),
        projection: vec!["name".to_string(), "weight".to_string()],
        filter: None,
        use_index: None,
    };
    let err = execute(&pager, &schema, &plan).unwrap_err();
    assert_eq!(err.cause, DbError::SchemaNotFound("weight".to_string()));
    assert_eq!(err.page, 2);
    let plan = QueryPlan::Select {
        table: "apples".to_string(),
        projection: vec!["name".to_string()],
        filter: Some(Filter { column: "taste".to_string(), literal: "x".to_string() }),
        use_index: None,
    };
    let err = execute(&pager, &schema, &plan).unwrap_err();
    assert_eq!(err.cause, DbError::SchemaNotFound("taste".to_string()));
    let plan = QueryPlan::Select {
        table: "apples".to_string(),
        projection: vec!["name".to_string()],
        filter: Some(Filter { column: "color".to_string(), literal: "x".to_string() }),
        use_index: Some("idx_none".to_string()),
    };
    let err = execute(&pager, &schema, &plan).unwrap_err();
    assert_eq!(err.cause, DbError::SchemaNotFound("idx_none".to_string()));
}

#[test]
fn filter_on_a_column_that_holds_no_text_is_a_type_mismatch() {
    let (pager, schema) = open(fruit_db());
    let plan = QueryPlan::Select {
        table: "apples".to_string(),
        projection: vec!["name".to_string()],
        filter: Some(Filter { column: "id".to_string(), literal: "1".to_string() }),
        use_index: None,
    };
    let err = execute(&pager, &schema, &plan).unwrap_err();
    assert_eq!(err.cause, DbError::TypeMismatch { expected: SqlType::Text, got: 0 });
}

#[test]
fn a_column_declared_without_a_type_is_not_found() {
    let (pager, schema) = open(fruit_db());
    assert!(schema[2].columns.is_empty());
    let plan = plan_query("SELECT name FROM sqlite_sequence", &schema).unwrap();
    let err = execute(&pager, &schema, &plan).unwrap_err();
    assert_eq!(err.cause, DbError::SchemaNotFound("name".to_string()));
    assert_eq!(err.table, "sqlite_sequence");
    assert_eq!(err.page, 3);
}

#[test]
fn short_file_and_wrong_magic_are_invalid_headers() {
    assert!(matches!(Pager::open(vec![0u8; 99]), Err(DbError::InvalidHeader)));
    let mut data = fruit_db();
    data[3] = b'x';
    assert!(matches!(Pager::open(data), Err(DbError::InvalidHeader)));
}

#[test]
fn page_size_one_stands_for_65536() {
    let mut data = vec![0u8; 100];
    data[0..16].copy_from_slice(b"SQLite format 3\0");
    data[17] = 1;
    let pager = Pager::open(data).unwrap();
    assert_eq!(pager.page_size(), 65536);
    assert_eq!(pager.read_page(1), Err(DbError::IoError));
}

#[test]
fn pages_outside_the_file_are_short_reads() {
    let pager = Pager::open(fruit_db()).unwrap();
    assert_eq!(pager.read_page(0), Err(DbError::IoError));
    assert_eq!(pager.read_page(5), Err(DbError::IoError));
    assert_eq!(pager.read_page(4).unwrap().len(), 4096);
    assert_eq!(scan_table(&pager, 9).unwrap_err(), DbError::IoError);
    assert_eq!(pager.read_page(2).unwrap()[0], 0x0d);
}

#[test]
fn reserved_bytes_shrink_the_usable_area() {
    let mut data = fruit_db();
    data[20] = 16;
    let pager = Pager::open(data).unwrap();
    assert_eq!(pager.usable_size(), 4080);
    assert_eq!(pager.read_area(2).unwrap().len(), 4080);
    assert_eq!(
        scan_table(&pager, 2).unwrap_err(),
        DbError::Unsupported(Feature::Overflow)
    );
}

#[test]
fn unknown_page_kind_is_reported_with_its_byte() {
    let mut data = fruit_db();
    data[PAGE] = 0x07;
    let pager = Pager::open(data).unwrap();
    assert_eq!(scan_table(&pager, 2).unwrap_err(), DbError::UnknownPageKind(0x07));
    assert_eq!(count_rows(&pager, 2), Err(DbError::UnknownPageKind(0x07)));
    assert_eq!(lookup_rowid(&pager, 2, 1), Err(DbError::UnknownPageKind(0x07)));
    let companies = Pager::open(companies_db()).unwrap();
    assert_eq!(scan_table(&companies, 6).unwrap_err(), DbError::UnknownPageKind(0x02));
    assert_eq!(scan_index_eq(&companies, 2, b"x"), Err(DbError::UnknownPageKind(0x05)));
}

#[test]
fn a_circle_of_child_pointers_ends_with_depth() {
    let schema = page(true, 0x0d, 0, &[]);
    let looped = page(false, 0x05, 2, &[table_interior_cell(2, 10)]);
    let index_loop = page(false, 0x02, 3, &[]);
    let pager = Pager::open(database(vec![schema, looped, index_loop])).unwrap();
    assert_eq!(lookup_rowid(&pager, 2, 5), Err(DbError::Unsupported(Feature::Depth)));
    assert_eq!(scan_index_eq(&pager, 3, b"k"), Err(DbError::Unsupported(Feature::Depth)));
}

#[test]
fn payload_larger_than_the_page_holds_is_overflow() {
    let schema = page(true, 0x0d, 0, &[]);
    let mut cell = write_varint(5000);
    cell.extend(write_varint(1));
    cell.extend(vec![0u8; 100]);
    let table = page(false, 0x0d, 0, &[cell]);
    let pager = Pager::open(database(vec![schema, table])).unwrap();
    assert_eq!(scan_table(&pager, 2).unwrap_err(), DbError::Unsupported(Feature::Overflow));
    assert_eq!(count_rows(&pager, 2), Ok(1));
}

#[test]
fn cell_pointer_past_the_page_is_a_truncated_varint() {
    let schema = page(true, 0x0d, 0, &[]);
    let mut table = page(false, 0x0d, 0, &[apple(1, "a", "b")]);
    table[8] = 0xff;
    table[9] = 0xff;
    let mut data = database(vec![schema, table]);
    data[20] = 1;
    let pager = Pager::open(data).unwrap();
    assert_eq!(scan_table(&pager, 2).unwrap_err(), DbError::TruncatedVarint);
}

#[test]
fn schema_rows_are_checked() {
    let short = page(true, 0x0d, 0, &[table_leaf_cell(1, &record(&[Col::Text("table")]))]);
    let pager = Pager::open(database(vec![short])).unwrap();
    assert_eq!(load_schema(&pager), Err(DbError::InvalidSchema(SchemaFault::TooFewColumns)));
    let odd = page(true, 0x0d, 0, &[table_leaf_cell(1, &schema_row("cable", "a", "a", 2, ""))]);
    let pager = Pager::open(database(vec![odd])).unwrap();
    assert_eq!(load_schema(&pager), Err(DbError::InvalidSchema(SchemaFault::Kind)));
    let far = page(true, 0x0d, 0, &[table_leaf_cell(1, &schema_row("table", "a", "a", -1, ""))]);
    let pager = Pager::open(database(vec![far])).unwrap();
    assert_eq!(load_schema(&pager), Err(DbError::InvalidSchema(SchemaFault::RootPage)));
    let broken = page(true, 0x0d, 0, &[table_leaf_cell(1, &[9, 13])]);
    let pager = Pager::open(database(vec![broken])).unwrap();
    assert_eq!(load_schema(&pager), Err(DbError::MalformedRecord(RecordFault::HeaderSize)));
}

#[test]
fn schema_row_without_statement_has_empty_sql() {
    let auto = record(&[
        Col::Text("index"),
        Col::Text("sqlite_autoindex_t_1"),
        Col::Text("t"),
        Col::Int(3),
        Col::Null,
    ]);
    let schema = page(true, 0x0d, 0, &[table_leaf_cell(1, &auto)]);
    let pager = Pager::open(database(vec![schema])).unwrap();
    let entries = load_schema(&pager).unwrap();
    assert_eq!(entries[0].sql, "");
    assert_eq!(entries[0].kind, EntryKind::Index);
    assert_eq!(tables_line(&entries), "");
}

#[test]
fn projected_values_keep_their_class() {
    let sql = "CREATE TABLE m (id integer primary key, n integer, x real, t text, b blob)";
    let schema = page(true, 0x0d, 0, &[table_leaf_cell(1, &schema_row("table", "m", "m", 2, sql))]);
    let row = record(&[
        Col::Null,
        Col::Int(-70000),
        Col::Real(2.5),
        Col::Text("caf\u{e9}"),
        Col::Blob(&[1, 2, 3]),
    ]);
    let table = page(false, 0x0d, 0, &[table_leaf_cell(9, &row)]);
    let (pager, entries) = open(database(vec![schema, table]));
    let plan = plan_query("SELECT id, n, x, t FROM m", &entries).unwrap();
    assert_eq!(
        execute(&pager, &entries, &plan),
        Ok(QueryOutput::Rows(vec![vec![
            Value::Integer(9),
            Value::Integer(-70000),
            Value::Real(2.5f64.to_bits()),
            Value::Text("caf\u{e9}".to_string()),
        ]]))
    );
    let plan = plan_query("SELECT b FROM m", &entries).unwrap();
    assert_eq!(
        execute(&pager, &entries, &plan).unwrap_err().cause,
        DbError::Unsupported(Feature::ColumnClass)
    );
    let plan = plan_query("SELECT t FROM m WHERE t = 'CAF\u{e9}'", &entries).unwrap();
    assert_eq!(render(&execute(&pager, &entries, &plan).unwrap()), "caf\u{e9}\n");
    let plan = plan_query("SELECT x FROM m WHERE t = 'caf'", &entries).unwrap();
    assert_eq!(render(&execute(&pager, &entries, &plan).unwrap()), "");
}

#[test]
fn index_entry_is_key_bytes_and_rowid() {
    assert_eq!(read_index_entry(&entry("chad", 77)), Ok((&b"chad"[..], 77)));
    assert_eq!(
        read_index_entry(&record(&[Col::Null, Col::Int(5)])),
        Ok((&b""[..], 5))
    );
    assert_eq!(
        read_index_entry(&record(&[Col::Text("a"), Col::Text("b")])),
        Err(DbError::TypeMismatch { expected: SqlType::Integer, got: 15 })
    );
    assert_eq!(
        read_index_entry(&record(&[Col::Text("a")])),
        Err(DbError::MalformedRecord(RecordFault::NoSuchColumn))
    );
    assert_eq!(
        read_index_entry(&[1]),
        Err(DbError::MalformedRecord(RecordFault::NoSuchColumn))
    );
}

#[test]
fn render_integer_is_decimal() {
    assert_eq!(render_integer(0), "0");
    assert_eq!(render_integer(7), "7");
    assert_eq!(render_integer(1234567890), "1234567890");
    assert_eq!(render_integer(-45), "-45");
    assert_eq!(render_integer(i64::MAX), "9223372036854775807");
    assert_eq!(render_integer(i64::MIN), "-9223372036854775808");
}

#[test]
fn join_cells_puts_bars_between() {
    assert_eq!(join_cells(&vec![]), "");
    assert_eq!(join_cells(&vec!["a".to_string()]), "a");
    assert_eq!(join_cells(&vec!["a".to_string(), "".to_string(), "c".to_string()]), "a||c");
}

#[test]
fn rowid_of_the_index_that_the_table_lacks_is_not_found() {
    let schema = page(
        true,
        0x0d,
        0,
        &[
            table_leaf_cell(1, &schema_row("table", "t", "t", 2, "CREATE TABLE t (id integer primary key, c text)")),
            table_leaf_cell(2, &schema_row("index", "t_c", "t", 3, "CREATE UNIQUE INDEX \"t_c\" ON \"t\" (\"c\")")),
        ],
    );
    let table = page(
        false,
        0x0d,
        0,
        &[table_leaf_cell(1, &record(&[Col::Null, Col::Text("x")]))],
    );
    let index = page(
        false,
        0x0a,
        0,
        &[index_leaf_cell(&entry("x", 1)), index_leaf_cell(&entry("x", 2))],
    );
    let (pager, entries) = open(database(vec![schema, table, index]));
    let plan = plan_query("select c from t where c = 'x'", &entries).unwrap();
    assert_eq!(
        plan,
        QueryPlan::Select {
            table: "t".to_string(),
            projection: vec!["c".to_string()],
            filter: Some(Filter { column: "c".to_string(), literal: "x".to_string() }),
            use_index: Some("t_c".to_string()),
        }
    );
    let err = execute(&pager, &entries, &plan).unwrap_err();
    assert_eq!(err.cause, DbError::NotFound);
    assert_eq!(err.table, "t");
    assert_eq!(err.page, 2);
    let plan = plan_query("select id from t where id = 'x'", &entries).unwrap();
    assert_eq!(
        plan,
        QueryPlan::Select {
            table: "t".to_string(),
            projection: vec!["id".to_string()],
            filter: Some(Filter { column: "id".to_string(), literal: "x".to_string() }),
            use_index: None,
        }
    );
}

#[test]
fn scan_and_count_of_a_circle_end_with_depth() {
    let schema = page(true, 0x0d, 0, &[]);
    let looped = page(false, 0x05, 2, &[]);
    let pager = Pager::open(database(vec![schema, looped])).unwrap();
    assert_eq!(scan_table(&pager, 2).unwrap_err(), DbError::Unsupported(Feature::Depth));
    assert_eq!(count_rows(&pager, 2), Err(DbError::Unsupported(Feature::Depth)));
}

#[test]
fn only_tables_are_listed() {
    let (_, schema) = open(companies_db());
    assert_eq!(tables_line(&schema), "companies ");
}

#[test]
fn dbinfo_needs_no_schema_row_to_decode() {
    let broken = page(true, 0x0d, 0, &[table_leaf_cell(1, &[9, 13]), table_leaf_cell(2, &[0])]);
    let pager = Pager::open(database(vec![broken])).unwrap();
    assert!(load_schema(&pager).is_err());
    assert_eq!(pager.page_size(), 4096);
    assert_eq!(count_rows(&pager, 1), Ok(2));
}

#[test]
fn count_through_the_executor_walks_the_whole_tree() {
    assert_eq!(query(companies_db(), "SELECT COUNT(*) FROM companies"), "9\n");
    assert_eq!(query(fruit_db(), "select count(*) from oranges"), "0\n");
}

#[test]
fn filter_is_blind_to_the_case_of_ascii_letters() {
    assert_eq!(
        query(fruit_db(), "SELECT name FROM apples WHERE color = 'yellow'"),
        "Honeycrisp\nGolden Delicious\n"
    );
    assert_eq!(query(fruit_db(), "SELECT name FROM apples WHERE color = 'red'"), "Fuji\n");
    assert_eq!(query(fruit_db(), "SELECT name FROM apples WHERE color = 'blue'"), "");
}

#[test]
fn a_row_that_cannot_be_decoded_fails_the_whole_query() {
    let schema = page(
        true,
        0x0d,
        0,
        &[table_leaf_cell(1, &schema_row("table", "t", "t", 2, "CREATE TABLE t (a text, b text)"))],
    );
    let table = page(
        false,
        0x0d,
        0,
        &[
            table_leaf_cell(1, &record(&[Col::Text("x"), Col::Text("y")])),
            table_leaf_cell(2, &record(&[Col::Text("x")])),
        ],
    );
    let (pager, entries) = open(database(vec![schema, table]));
    let plan = plan_query("select b from t", &entries).unwrap();
    let err = execute(&pager, &entries, &plan).unwrap_err();
    assert_eq!(err.cause, DbError::MalformedRecord(RecordFault::NoSuchColumn));
    let plan = plan_query("select a from t", &entries).unwrap();
    assert_eq!(render(&execute(&pager, &entries, &plan).unwrap()), "x\nx\n");
}

#[test]
fn tables_are_resolved_by_name() {
    let (_, schema) = open(companies_db());
    let table = resolve_table(&schema, &"companies".to_string()).unwrap();
    assert_eq!(table.name, "companies");
    assert_eq!(table.rootpage, 2);
    assert_eq!(table.columns.len(), 10);
    assert_eq!(table.columns[0], Column { name: "id".to_string(), tpe: SqlType::Integer });
    assert_eq!(
        resolve_table(&schema, &"idx_companies_country".to_string()),
        Err(DbError::SchemaNotFound("idx_companies_country".to_string()))
    );
    assert_eq!(schema[0].as_table(), Some(table));
    assert_eq!(schema[1].as_table(), None);
}

#[test]
fn scan_with_a_limit_yields_the_first_rows() {
    let pager = Pager::open(companies_db()).unwrap();
    let all = scan_table(&pager, 2).unwrap();
    for limit in 0..12 {
        let first = scan_table_limit(&pager, 2, limit).unwrap();
        assert_eq!(first.len(), limit.min(9));
        assert_eq!(&first[..], &all[..first.len()]);
    }
    let ids: Vec<i64> = scan_table_limit(&pager, 2, 4).unwrap().iter().map(|r| r.rowid).collect();
    assert_eq!(ids, vec![1, 2, 3, 150]);
    assert_eq!(scan_table_limit(&pager, 2, usize::MAX).unwrap(), all);
}

#[test]
fn scan_with_a_limit_halts_before_what_lies_behind() {
    let mut data = companies_db();
    data[4 * PAGE] = 0x07;
    let pager = Pager::open(data).unwrap();
    assert_eq!(scan_table(&pager, 2).unwrap_err(), DbError::UnknownPageKind(0x07));
    let first = scan_table_limit(&pager, 2, 6).unwrap();
    let ids: Vec<i64> = first.iter().map(|r| r.rowid).collect();
    assert_eq!(ids, vec![1, 2, 3, 150, 300, 600]);
    assert_eq!(scan_table_limit(&pager, 2, 7).unwrap_err(), DbError::UnknownPageKind(0x07));
    assert_eq!(scan_table_limit(&pager, 9, 0).unwrap(), vec![]);
    assert_eq!(scan_table_limit(&pager, 99, 1).unwrap_err(), DbError::IoError);
}
