//! The planner: from the text of a statement to a plan for the executor.
//!
//! Two forms are understood: `SELECT COUNT(*) FROM table`, and
//! `SELECT columns FROM table` with an optional `WHERE column = 'text'`.
//! The column list is split at its commas and each item is trimmed of the
//! white space at its ends. A filtered selection goes through the first
//! index of the table whose first indexed column is the filter column.

use vstd::prelude::*;
use vstd::string::*;
use crate::error::{DbError, Feature, SchemaFault};
use crate::pattern::{
    Groups, captures, compile, first_match, groups_view, pattern_compiles, pattern_of,
};
use crate::query::{Filter, FilterView, PlanView, QueryPlan, names_view};
use crate::schema::{EntryKind, SchemaEntry, SchemaEntryView, schema_view};
use crate::text::{same_string, trim_part, trimmed_part};

verus! {

/// The pattern of a count; its first group is the table.
pub open spec fn count_pattern() -> Seq<char> {
    "(?i)SELECT\\s+COUNT\\s*\\(\\s*\\*\\s*\\)\\s+FROM\\s+(\\w+)"@
}

/// The pattern of a selection; its groups are the column list, the table
/// and, where there is a filter, the filter column and the literal.
pub open spec fn select_pattern() -> Seq<char> {
    "(?i)SELECT\\s+(.+?)\\s+FROM\\s+(\\w+)(?:\\s+WHERE\\s+(\\w+)\\s*=\\s*'([^']*)')?"@
}

/// The pattern of a `CREATE INDEX` statement; its first indexed column is
/// the first group where it stands in double quotes, else the second.
pub open spec fn index_pattern() -> Seq<char> {
    "(?si)CREATE\\s+(?:UNIQUE\\s+)?INDEX\\s+(?:\"[^\"]*\"|\\w+)\\s+ON\\s+(?:\"[^\"]*\"|\\w+)\\s*\\(\\s*(?:\"([^\"]*)\"|(\\w+))"@
}

/// Where the first comma from `from` on stands, or the length of `s`
/// where there is none.
pub open spec fn comma_from(s: Seq<char>, from: nat) -> nat
    decreases s.len() - from,
{
    if from >= s.len() {
        s.len()
    } else if s[from as int] == ',' {
        from
    } else {
        comma_from(s, from + 1)
    }
}

/// The first comma from `from` on stands at or behind `from`.
pub proof fn lemma_comma_from(s: Seq<char>, from: nat)
    requires
        from <= s.len(),
    ensures
        from <= comma_from(s, from) <= s.len(),
    decreases s.len() - from,
{
    if from < s.len() && s[from as int] != ',' {
        lemma_comma_from(s, from + 1);
    }
}

/// The items of the list `s` from `from` on: what stands between one
/// comma and the next, each without the white space at its ends. A list
/// with `k` commas has `k + 1` items, empty ones among them.
pub open spec fn split_trimmed(s: Seq<char>, from: nat) -> Seq<Seq<char>>
    decreases s.len() - from,
{
    let comma = comma_from(s, from);
    if from > s.len() || comma >= s.len() {
        seq![trimmed_part(s, from, s.len())]
    } else {
        proof {
            lemma_comma_from(s, from);
        }
        seq![trimmed_part(s, from, comma)] + split_trimmed(s, comma + 1)
    }
}

/// The first column that the index statement `sql` names.
pub open spec fn index_column(sql: Seq<char>) -> Option<Seq<char>> {
    match first_match(index_pattern(), sql) {
        None => None,
        Some(groups) => if groups.len() < 3 {
            None
        } else if groups[1] is Some {
            groups[1]
        } else {
            groups[2]
        },
    }
}

/// The name of the first index from `i` on that belongs to `table` and
/// whose first column is `column`.
pub open spec fn chosen_index(
    schema: Seq<SchemaEntryView>,
    table: Seq<char>,
    column: Seq<char>,
    i: nat,
) -> Option<Seq<char>>
    decreases schema.len() - i,
{
    if i >= schema.len() {
        None
    } else if schema[i as int].kind == EntryKind::Index && schema[i as int].tbl_name == table
        && index_column(schema[i as int].sql) == Some(column) {
        Some(schema[i as int].name)
    } else {
        chosen_index(schema, table, column, i + 1)
    }
}

/// The selection that the groups of a match of the select pattern stand
/// for.
pub open spec fn planned_select(
    groups: Seq<Option<Seq<char>>>,
    schema: Seq<SchemaEntryView>,
) -> Result<PlanView, DbError> {
    if groups.len() < 5 || groups[1] is None || groups[2] is None {
        Err(DbError::Unsupported(Feature::Statement))
    } else {
        let table = groups[2]->Some_0;
        let projection = split_trimmed(groups[1]->Some_0, 0);
        if groups[3] is None || groups[4] is None {
            Ok(PlanView::Select { table, projection, filter: None, use_index: None })
        } else if !pattern_compiles(index_pattern()) {
            Err(DbError::InvalidSchema(SchemaFault::Pattern))
        } else {
            Ok(
                PlanView::Select {
                    table,
                    projection,
                    filter: Some(
                        FilterView { column: groups[3]->Some_0, literal: groups[4]->Some_0 },
                    ),
                    use_index: chosen_index(schema, table, groups[3]->Some_0, 0),
                },
            )
        }
    }
}

/// The plan that the statement `sql` stands for on a database with the
/// schema `schema`.
pub open spec fn planned(sql: Seq<char>, schema: Seq<SchemaEntryView>) -> Result<
    PlanView,
    DbError,
> {
    if !pattern_compiles(count_pattern()) {
        Err(DbError::InvalidSchema(SchemaFault::Pattern))
    } else {
        let counted = first_match(count_pattern(), sql);
        if counted is Some && counted->Some_0.len() >= 2 && counted->Some_0[1] is Some {
            Ok(PlanView::CountAll { table: counted->Some_0[1]->Some_0 })
        } else if !pattern_compiles(select_pattern()) {
            Err(DbError::InvalidSchema(SchemaFault::Pattern))
        } else {
            match first_match(select_pattern(), sql) {
                None => Err(DbError::Unsupported(Feature::Statement)),
                Some(groups) => planned_select(groups, schema),
            }
        }
    }
}

proof fn lemma_names_view_push(names: Seq<String>, name: String)
    ensures
        names_view(names.push(name)) == names_view(names).push(name@),
{
    assert(names_view(names.push(name)) =~= names_view(names).push(name@));
}

/// The items of a column list: what stands between one comma and the
/// next, each without the white space at its ends.
pub fn split_names(list: &str) -> (r: Vec<String>)
    ensures
        names_view(r@) == split_trimmed(list@, 0),
{
    let n: usize = list.unicode_len();
    let mut out: Vec<String> = Vec::new();
    let mut start: usize = 0;
    let mut done: bool = false;
    assert(names_view(out@) + split_trimmed(list@, 0) =~= split_trimmed(list@, 0));
    while !done
        invariant
            n == list@.len(),
            start <= n,
            !done ==> split_trimmed(list@, 0) == names_view(out@) + split_trimmed(
                list@,
                start as nat,
            ),
            done ==> split_trimmed(list@, 0) == names_view(out@),
        decreases
                (n - start) + if done {
                    0int
                } else {
                    1int
                },
    {
        let mut comma: usize = start;
        while comma < n && list.get_char(comma) != ','
            invariant
                n == list@.len(),
                start <= comma <= n,
                comma_from(list@, start as nat) == comma_from(list@, comma as nat),
            decreases n - comma,
        {
            comma += 1;
        }
        let item = trim_part(list, start, comma);
        let ghost before = names_view(out@);
        proof {
            lemma_names_view_push(out@, item);
        }
        out.push(item);
        if comma >= n {
            proof {
                assert(before.push(item@) =~= before + seq![item@]);
            }
            done = true;
        } else {
            proof {
                let rest = split_trimmed(list@, (comma + 1) as nat);
                assert(before.push(item@) + rest =~= before + (seq![item@] + rest));
            }
            start = comma + 1;
        }
    }
    out
}

/// Picks the index to go through for a filter on `column` of `table`.
pub(crate) fn choose_index(
    index_re: &regex::Regex,
    schema: &Vec<SchemaEntry>,
    table: &String,
    column: &String,
) -> (r: Option<String>)
    requires
        pattern_of(*index_re) == index_pattern(),
    ensures
        match chosen_index(schema_view(schema@), table@, column@, 0) {
            Some(name) => r is Some && r->Some_0@ == name,
            None => r is None,
        },
{
    let mut i: usize = 0;
    while i < schema.len()
        invariant
            i <= schema@.len(),
            pattern_of(*index_re) == index_pattern(),
            chosen_index(schema_view(schema@), table@, column@, 0) == chosen_index(
                schema_view(schema@),
                table@,
                column@,
                i as nat,
            ),
        decreases schema@.len() - i,
    {
        let entry = &schema[i];
        assert(schema_view(schema@)[i as int] == entry@);
        let is_index: bool = match entry.kind {
            EntryKind::Index => true,
            _ => false,
        };
        if is_index && same_string(&entry.tbl_name, table) {
            match captures(index_re, entry.sql.as_str()) {
                None => {},
                Some(groups) => {
                    let ghost view = groups_view(groups@);
                    if groups.len() >= 3 {
                        let first: &Option<String> = match &groups[1] {
                            Some(_) => &groups[1],
                            None => &groups[2],
                        };
                        assert(view[1] is Some <==> groups@[1] is Some);
                        match first {
                            None => {
                                assert(view[1] is None && view[2] is None);
                            },
                            Some(name) => {
                                assert(index_column(entry@.sql) == Some(name@)) by {
                                    if groups@[1] is Some {
                                        assert(view[1] == Some(name@));
                                    } else {
                                        assert(view[2] == Some(name@));
                                    }
                                }
                                if same_string(name, column) {
                                    return Some(entry.name.clone());
                                }
                            },
                        }
                    }
                },
            }
        }
        i += 1;
    }
    None
}

/// The selection that the groups of a match of the select pattern stand
/// for.
pub fn plan_select(groups: &Groups, schema: &Vec<SchemaEntry>) -> (r: Result<QueryPlan, DbError>)
    ensures
        match planned_select(groups_view(groups@), schema_view(schema@)) {
            Ok(plan) => r is Ok && r->Ok_0@ == plan,
            Err(e) => r is Err && r->Err_0 == e,
        },
{
    let ghost view = groups_view(groups@);
    if groups.len() < 5 {
        return Err(DbError::Unsupported(Feature::Statement));
    }
    assert(view[1] is Some <==> groups@[1] is Some);
    assert(view[2] is Some <==> groups@[2] is Some);
    assert(view[3] is Some <==> groups@[3] is Some);
    assert(view[4] is Some <==> groups@[4] is Some);
    let (list, table) = match (&groups[1], &groups[2]) {
        (Some(list), Some(table)) => (list, table),
        _ => {
            return Err(DbError::Unsupported(Feature::Statement));
        },
    };
    assert(view[1] == Some(list@) && view[2] == Some(table@));
    let projection = split_names(list.as_str());
    let (column, literal) = match (&groups[3], &groups[4]) {
        (Some(column), Some(literal)) => (column, literal),
        _ => {
            return Ok(
                QueryPlan::Select {
                    table: table.clone(),
                    projection,
                    filter: None,
                    use_index: None,
                },
            );
        },
    };
    assert(view[3] == Some(column@) && view[4] == Some(literal@));
    let index_re = match compile(
        "(?si)CREATE\\s+(?:UNIQUE\\s+)?INDEX\\s+(?:\"[^\"]*\"|\\w+)\\s+ON\\s+(?:\"[^\"]*\"|\\w+)\\s*\\(\\s*(?:\"([^\"]*)\"|(\\w+))",
    ) {
        Err(_) => {
            return Err(DbError::InvalidSchema(SchemaFault::Pattern));
        },
        Ok(re) => re,
    };
    let use_index = choose_index(&index_re, schema, table, column);
    Ok(
        QueryPlan::Select {
            table: table.clone(),
            projection,
            filter: Some(Filter { column: column.clone(), literal: literal.clone() }),
            use_index,
        },
    )
}

/// Plans the statement `sql` for a database with the schema `schema`.
pub fn plan_query(sql: &str, schema: &Vec<SchemaEntry>) -> (r: Result<QueryPlan, DbError>)
    ensures
        match planned(sql@, schema_view(schema@)) {
            Ok(plan) => r is Ok && r->Ok_0@ == plan,
            Err(e) => r is Err && r->Err_0 == e,
        },
{
    let count_re = match compile("(?i)SELECT\\s+COUNT\\s*\\(\\s*\\*\\s*\\)\\s+FROM\\s+(\\w+)") {
        Err(_) => {
            return Err(DbError::InvalidSchema(SchemaFault::Pattern));
        },
        Ok(re) => re,
    };
    match captures(&count_re, sql) {
        None => {},
        Some(groups) => {
            let ghost view = groups_view(groups@);
            if groups.len() >= 2 {
                assert(view[1] is Some <==> groups@[1] is Some);
                match &groups[1] {
                    None => {},
                    Some(table) => {
                        assert(view[1] == Some(table@));
                        return Ok(QueryPlan::CountAll { table: table.clone() });
                    },
                }
            }
        },
    }
    let select_re = match compile(
        "(?i)SELECT\\s+(.+?)\\s+FROM\\s+(\\w+)(?:\\s+WHERE\\s+(\\w+)\\s*=\\s*'([^']*)')?",
    ) {
        Err(_) => {
            return Err(DbError::InvalidSchema(SchemaFault::Pattern));
        },
        Ok(re) => re,
    };
    match captures(&select_re, sql) {
        None => Err(DbError::Unsupported(Feature::Statement)),
        Some(groups) => plan_select(&groups, schema),
    }
}

} // verus!
