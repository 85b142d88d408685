//! A selection through an index against the same selection by a full scan:
//! where the table and the index are in key order and the index holds one
//! entry for each row, both give the same rows.

use vstd::prelude::*;
use vstd::multiset::Multiset;
use vstd::utf8::encode_utf8;
use crate::btree::{MAX_DEPTH, table_lookup, table_rows};
use crate::error::DbError;
use crate::index::{IndexEntry, index_matches};
use crate::page::RowView;
use crate::pager::PagerView;
use crate::query::{
    Criterion, FilterView, Projected, ValueView, fetched, find_column, find_entry, selected,
    selected_row, selected_rows,
};
use crate::schema::{EntryKind, SchemaEntryView, TableSchemaView};
use crate::record::parse_record;
use crate::sorted_index::{
    index_covers, index_entries, index_ordered, lemma_index_agrees_with_scan,
    lemma_matching_joined, lemma_matching_one, matching, row_entries, row_entry,
};
use crate::sorted_table::{increasing, lemma_lookup_finds, lemma_scan_increasing, table_ordered};
use crate::text::{KeyOrder, key_order, lemma_key_order_equal, same_text};

verus! {

/// The rowids of the rows from `i` on whose column `column` equals `key`,
/// in the order of the rows.
pub open spec fn passing_ids(rows: Seq<RowView>, i: nat, column: nat, key: Seq<u8>) -> Seq<i64>
    decreases rows.len() - i,
{
    if i >= rows.len() {
        Seq::empty()
    } else if key_order(key, row_entry(rows[i as int], column).key) == KeyOrder::Equal {
        seq![rows[i as int].rowid] + passing_ids(rows, i + 1, column, key)
    } else {
        passing_ids(rows, i + 1, column, key)
    }
}

/// What the row with the rowid `id` gives when it is fetched by a point
/// lookup.
pub open spec fn fetched_row(db: PagerView, root: u32, id: i64, columns: Seq<Projected>) -> Result<
    Seq<ValueView>,
    DbError,
> {
    match table_lookup(db, root, id, MAX_DEPTH as nat) {
        Err(e) => Err(e),
        Ok(payload) => match selected_row(RowView { rowid: id, payload }, columns, None) {
            Err(e) => Err(e),
            Ok(out) => Ok(out->Some_0),
        },
    }
}

proof fn lemma_passing_is_matching(rows: Seq<RowView>, i: nat, column: nat, key: Seq<u8>)
    requires
        i <= rows.len(),
    ensures
        passing_ids(rows, i, column, key) == matching(
            row_entries(rows, column).skip(i as int),
            key,
        ),
    decreases rows.len() - i,
{
    let all = row_entries(rows, column);
    if i >= rows.len() {
        assert(all.skip(i as int) =~= Seq::<IndexEntry>::empty());
    } else {
        lemma_passing_is_matching(rows, i + 1, column, key);
        let e = row_entry(rows[i as int], column);
        assert(all.skip(i as int) =~= seq![e] + all.skip(i as int + 1));
        lemma_matching_joined(seq![e], all.skip(i as int + 1), key);
        lemma_matching_one(e, key);
        let rest = matching(all.skip(i as int + 1), key);
        assert(Seq::<i64>::empty() + rest =~= rest);
    }
}

proof fn lemma_fetched_skip(
    db: PagerView,
    root: u32,
    ids: Seq<i64>,
    k: nat,
    columns: Seq<Projected>,
)
    requires
        k <= ids.len(),
    ensures
        fetched(db, root, ids, k, columns) == fetched(db, root, ids.skip(k as int), 0, columns),
    decreases ids.len() - k,
{
    let tail = ids.skip(k as int);
    if k < ids.len() {
        assert(tail[0] == ids[k as int]);
        lemma_fetched_skip(db, root, ids, k + 1, columns);
        lemma_fetched_skip(db, root, tail, 1, columns);
        assert(tail.skip(1) =~= ids.skip(k as int + 1));
    }
}

/// Fetching a run of rowids succeeds exactly when fetching each of them
/// does, and then gives what each of them gives, in order.
proof fn lemma_fetched_each(
    db: PagerView,
    root: u32,
    ids: Seq<i64>,
    k: nat,
    columns: Seq<Projected>,
)
    requires
        k <= ids.len(),
    ensures
        fetched(db, root, ids, k, columns) is Ok <==> forall|j: int|
            k <= j < ids.len() ==> (#[trigger] fetched_row(db, root, ids[j], columns)) is Ok,
        fetched(db, root, ids, k, columns) is Ok ==> fetched(db, root, ids, k, columns)->Ok_0
            == ids.skip(k as int).map_values(
            |id: i64| fetched_row(db, root, id, columns)->Ok_0,
        ),
    decreases ids.len() - k,
{
    let h = |id: i64| fetched_row(db, root, id, columns)->Ok_0;
    if k >= ids.len() {
        assert(ids.skip(k as int).map_values(h) =~= Seq::<Seq<ValueView>>::empty());
    } else {
        lemma_fetched_each(db, root, ids, k + 1, columns);
        let first = fetched_row(db, root, ids[k as int], columns);
        let rest = fetched(db, root, ids, k + 1, columns);
        if first is Ok && rest is Ok {
            assert(fetched(db, root, ids, k, columns)->Ok_0 == seq![first->Ok_0] + rest->Ok_0);
            assert(seq![first->Ok_0] + ids.skip(k as int + 1).map_values(h) =~= ids.skip(
                k as int,
            ).map_values(h));
            assert forall|j: int| k <= j < ids.len() implies (#[trigger] fetched_row(
                db,
                root,
                ids[j],
                columns,
            )) is Ok by {
                if j > k {
                    assert(k + 1 <= j);
                }
            }
        }
        if fetched(db, root, ids, k, columns) is Ok {
            assert(first is Ok && rest is Ok);
        }
        if forall|j: int|
            k <= j < ids.len() ==> (#[trigger] fetched_row(db, root, ids[j], columns)) is Ok {
            assert(fetched_row(db, root, ids[k as int], columns) is Ok);
            assert(rest is Ok);
        }
    }
}

proof fn lemma_mapped_count<A, B>(s: Seq<A>, h: spec_fn(A) -> B, v: B)
    ensures
        s.map_values(h).to_multiset().count(v) == s.to_multiset().filter(|x: A| h(x) == v).len(),
    decreases s.len(),
{
    broadcast use vstd::multiset::group_multiset_axioms;
    broadcast use vstd::multiset::group_multiset_properties;

    let pred = |x: A| h(x) == v;
    if s.len() == 0 {
        s.map_values(h).to_multiset_ensures();
        s.to_multiset_ensures();
        assert(s.to_multiset().filter(pred) =~= Multiset::<A>::empty());
        assert(s.map_values(h).to_multiset() =~= Multiset::<B>::empty());
    } else {
        let front = s.drop_last();
        let x = s.last();
        lemma_mapped_count(front, h, v);
        assert(s =~= front.push(x));
        front.to_multiset_ensures();
        assert(s.to_multiset() =~= front.to_multiset().insert(x));
        let before = front.map_values(h);
        before.to_multiset_ensures();
        assert(s.map_values(h) =~= before.push(h(x)));
        assert(before.push(h(x)).to_multiset() =~= before.to_multiset().insert(h(x)));
        if pred(x) {
            assert(s.to_multiset().filter(pred) =~= front.to_multiset().filter(pred).insert(x));
        } else {
            assert(s.to_multiset().filter(pred) =~= front.to_multiset().filter(pred));
        }
    }
}

/// Runs that are the same but for their order are still so after each of
/// their items is changed in the same way.
pub proof fn lemma_mapped_rearranged<A, B>(a: Seq<A>, b: Seq<A>, h: spec_fn(A) -> B)
    requires
        a.to_multiset() == b.to_multiset(),
    ensures
        a.map_values(h).to_multiset() == b.map_values(h).to_multiset(),
{
    assert forall|v: B|
        a.map_values(h).to_multiset().count(v) == b.map_values(h).to_multiset().count(v) by {
        lemma_mapped_count(a, h, v);
        lemma_mapped_count(b, h, v);
    }
    assert(a.map_values(h).to_multiset() =~= b.map_values(h).to_multiset());
}

proof fn lemma_same_items(a: Seq<i64>, b: Seq<i64>)
    requires
        a.to_multiset() == b.to_multiset(),
    ensures
        forall|j: int| 0 <= j < a.len() ==> b.contains(#[trigger] a[j]),
{
    a.to_multiset_ensures();
    b.to_multiset_ensures();
    assert forall|j: int| 0 <= j < a.len() implies b.contains(#[trigger] a[j]) by {
        assert(a.contains(a[j]));
        assert(a.to_multiset().count(a[j]) > 0);
    }
}

proof fn lemma_each_fetched(
    db: PagerView,
    root: u32,
    a: Seq<i64>,
    b: Seq<i64>,
    columns: Seq<Projected>,
)
    requires
        a.to_multiset() == b.to_multiset(),
        forall|j: int|
            0 <= j < a.len() ==> (#[trigger] fetched_row(db, root, a[j], columns)) is Ok,
    ensures
        forall|j: int|
            0 <= j < b.len() ==> (#[trigger] fetched_row(db, root, b[j], columns)) is Ok,
{
    lemma_same_items(b, a);
    assert forall|j: int| 0 <= j < b.len() implies (#[trigger] fetched_row(
        db,
        root,
        b[j],
        columns,
    )) is Ok by {
        assert(a.contains(b[j]));
        let k = choose|k: int| 0 <= k < a.len() && a[k] == b[j];
        assert(fetched_row(db, root, a[k], columns) is Ok);
    }
}

/// Fetching two runs of rowids that are the same but for their order
/// succeeds for both or for neither, and gives the same rows but for
/// their order.
pub proof fn lemma_fetch_rearranged(
    db: PagerView,
    root: u32,
    a: Seq<i64>,
    b: Seq<i64>,
    columns: Seq<Projected>,
)
    requires
        a.to_multiset() == b.to_multiset(),
    ensures
        fetched(db, root, a, 0, columns) is Ok <==> fetched(db, root, b, 0, columns) is Ok,
        fetched(db, root, a, 0, columns) is Ok ==> fetched(
            db,
            root,
            a,
            0,
            columns,
        )->Ok_0.to_multiset() == fetched(db, root, b, 0, columns)->Ok_0.to_multiset(),
{
    lemma_fetched_each(db, root, a, 0, columns);
    lemma_fetched_each(db, root, b, 0, columns);
    assert(a.skip(0) =~= a);
    assert(b.skip(0) =~= b);
    if fetched(db, root, a, 0, columns) is Ok {
        lemma_each_fetched(db, root, a, b, columns);
        lemma_mapped_rearranged(a, b, |id: i64| fetched_row(db, root, id, columns)->Ok_0);
    }
    if fetched(db, root, b, 0, columns) is Ok {
        lemma_each_fetched(db, root, b, a, columns);
    }
}

/// The filtered full scan gives what fetching the rowids of the passing
/// rows one by one gives.
proof fn lemma_scan_is_fetch(
    db: PagerView,
    root: u32,
    lo: int,
    hi: int,
    i: nat,
    column: nat,
    key: Seq<u8>,
    columns: Seq<Projected>,
)
    requires
        table_ordered(db, root, MAX_DEPTH as nat, lo, hi),
        forall|k: int|
            0 <= k < table_rows(db, root, MAX_DEPTH as nat)->Ok_0.len() ==> parse_record(
                (#[trigger] table_rows(db, root, MAX_DEPTH as nat)->Ok_0[k]).payload,
            ) is Ok && parse_record(
                table_rows(db, root, MAX_DEPTH as nat)->Ok_0[k].payload,
            )->Ok_0.text_bytes(column) is Ok,
        i <= table_rows(db, root, MAX_DEPTH as nat)->Ok_0.len(),
    ensures
        selected(
            table_rows(db, root, MAX_DEPTH as nat)->Ok_0,
            i,
            columns,
            Some(Criterion { index: column, literal: key }),
        ) == fetched(
            db,
            root,
            passing_ids(table_rows(db, root, MAX_DEPTH as nat)->Ok_0, i, column, key),
            0,
            columns,
        ),
    decreases table_rows(db, root, MAX_DEPTH as nat)->Ok_0.len() - i,
{
    let rows = table_rows(db, root, MAX_DEPTH as nat)->Ok_0;
    let criterion = Some(Criterion { index: column, literal: key });
    if i < rows.len() {
        lemma_scan_is_fetch(db, root, lo, hi, i + 1, column, key, columns);
        let row = rows[i as int];
        let record = parse_record(row.payload)->Ok_0;
        let bytes = record.column_bytes(column);
        assert(record.text_bytes(column) == Ok::<Seq<u8>, DbError>(bytes));
        lemma_key_order_equal(key, bytes);
        assert(same_text(bytes, key) == same_text(key, bytes));
        let later = passing_ids(rows, i + 1, column, key);
        if key_order(key, row_entry(row, column).key) == KeyOrder::Equal {
            let ids = seq![row.rowid] + later;
            lemma_lookup_finds(db, root, MAX_DEPTH as nat, lo, hi, row.rowid);
            assert(table_lookup(db, root, row.rowid, MAX_DEPTH as nat) == Ok::<Seq<u8>, DbError>(
                row.payload,
            ));
            assert(ids[0] == row.rowid);
            assert(RowView { rowid: row.rowid, payload: row.payload } == row);
            lemma_fetched_skip(db, root, ids, 1, columns);
            assert(ids.skip(1) =~= later);
        }
    }
}

/// Where a table B-tree and an index B-tree are in key order and the index
/// holds one entry for each row of the table, a selection through the
/// index succeeds exactly when the same selection by a full scan does, and
/// both give the same rows, each as often as the other; the full scan in
/// the order of the table, the index in its own.
pub proof fn lemma_index_selects_what_scan_selects(
    db: PagerView,
    table_root: u32,
    index_root: u32,
    lo: int,
    hi: int,
    column: nat,
    key: Seq<u8>,
    columns: Seq<Projected>,
)
    requires
        table_ordered(db, table_root, MAX_DEPTH as nat, lo, hi),
        index_ordered(db, index_root, MAX_DEPTH as nat, None, None),
        index_covers(
            index_entries(db, index_root, MAX_DEPTH as nat)->Ok_0,
            table_rows(db, table_root, MAX_DEPTH as nat)->Ok_0,
            column,
        ),
    ensures
        table_rows(db, table_root, MAX_DEPTH as nat) is Ok,
        index_matches(db, index_root, key, MAX_DEPTH as nat) is Ok,
        ({
            let scanned = selected(
                table_rows(db, table_root, MAX_DEPTH as nat)->Ok_0,
                0,
                columns,
                Some(Criterion { index: column, literal: key }),
            );
            let through = fetched(
                db,
                table_root,
                index_matches(db, index_root, key, MAX_DEPTH as nat)->Ok_0,
                0,
                columns,
            );
            &&& scanned is Ok <==> through is Ok
            &&& scanned is Ok ==> scanned->Ok_0.to_multiset() == through->Ok_0.to_multiset()
        }),
{
    let rows = table_rows(db, table_root, MAX_DEPTH as nat)->Ok_0;
    lemma_scan_increasing(db, table_root, MAX_DEPTH as nat, lo, hi);
    lemma_index_agrees_with_scan(db, index_root, MAX_DEPTH as nat, rows, column, key);
    let through_ids = index_matches(db, index_root, key, MAX_DEPTH as nat)->Ok_0;
    let scan_ids = passing_ids(rows, 0, column, key);
    lemma_passing_is_matching(rows, 0, column, key);
    assert(row_entries(rows, column).skip(0) =~= row_entries(rows, column));
    assert(scan_ids.to_multiset() == through_ids.to_multiset());
    lemma_scan_is_fetch(db, table_root, lo, hi, 0, column, key, columns);
    lemma_fetch_rearranged(db, table_root, scan_ids, through_ids, columns);
}

/// Whether the rowids in `ids` increase strictly.
pub open spec fn ascending(ids: Seq<i64>) -> bool {
    forall|j: int, k: int| 0 <= j < k < ids.len() ==> ids[j] < ids[k]
}

proof fn lemma_passing_ascending(
    rows: Seq<RowView>,
    i: nat,
    lo: int,
    hi: int,
    column: nat,
    key: Seq<u8>,
)
    requires
        increasing(rows, lo, hi),
        i <= rows.len(),
    ensures
        ascending(passing_ids(rows, i, column, key)),
        forall|j: int|
            0 <= j < passing_ids(rows, i, column, key).len() ==> i < rows.len() && rows[i as int].rowid
                <= #[trigger] passing_ids(rows, i, column, key)[j],
    decreases rows.len() - i,
{
    if i < rows.len() {
        lemma_passing_ascending(rows, i + 1, lo, hi, column, key);
        let later = passing_ids(rows, i + 1, column, key);
        let here = passing_ids(rows, i, column, key);
        if later.len() > 0 {
            assert(rows[i as int].rowid < rows[i as int + 1].rowid);
        }
        assert forall|j: int| 0 <= j < later.len() implies rows[i as int].rowid
            < #[trigger] later[j] by {
            assert(rows[i as int].rowid < rows[i as int + 1].rowid);
        }
        if key_order(key, row_entry(rows[i as int], column).key) == KeyOrder::Equal {
            assert(here == seq![rows[i as int].rowid] + later);
            assert forall|j: int, k: int| 0 <= j < k < here.len() implies here[j] < here[k] by {
                assert(here[k] == later[k - 1]);
                if j > 0 {
                    assert(here[j] == later[j - 1]);
                }
            }
            assert forall|j: int| 0 <= j < here.len() implies rows[i as int].rowid
                <= #[trigger] here[j] by {
                if j > 0 {
                    assert(here[j] == later[j - 1]);
                }
            }
        }
    }
}

proof fn lemma_ascending_unique(a: Seq<i64>, b: Seq<i64>)
    requires
        ascending(a),
        ascending(b),
        a.to_multiset() == b.to_multiset(),
    ensures
        a == b,
{
    let leq = |x: i64, y: i64| x <= y;
    assert(vstd::relations::total_ordering(leq));
    assert(vstd::relations::sorted_by(a, leq));
    assert(vstd::relations::sorted_by(b, leq));
    vstd::seq_lib::lemma_sorted_unique(a, b, leq);
}

/// Where, besides, the index yields its rowids in ascending order, the
/// selection through the index and the selection by a full scan give the
/// same result: the same rows in the same order, or the same failure.
pub proof fn lemma_selection_agrees_in_order(
    db: PagerView,
    schema: Seq<SchemaEntryView>,
    table: TableSchemaView,
    columns: Seq<Projected>,
    filter: FilterView,
    index_name: Seq<char>,
    lo: int,
    hi: int,
)
    requires
        find_column(table.columns, filter.column, 0) is Some,
        find_entry(schema, EntryKind::Index, index_name, 0) is Some,
        table_ordered(db, table.rootpage, MAX_DEPTH as nat, lo, hi),
        index_ordered(
            db,
            schema[find_entry(schema, EntryKind::Index, index_name, 0)->Some_0 as int].rootpage,
            MAX_DEPTH as nat,
            None,
            None,
        ),
        index_covers(
            index_entries(
                db,
                schema[find_entry(schema, EntryKind::Index, index_name, 0)->Some_0 as int].rootpage,
                MAX_DEPTH as nat,
            )->Ok_0,
            table_rows(db, table.rootpage, MAX_DEPTH as nat)->Ok_0,
            find_column(table.columns, filter.column, 0)->Some_0,
        ),
        ascending(
            index_matches(
                db,
                schema[find_entry(schema, EntryKind::Index, index_name, 0)->Some_0 as int].rootpage,
                encode_utf8(filter.literal),
                MAX_DEPTH as nat,
            )->Ok_0,
        ),
    ensures
        selected_rows(db, schema, table, columns, Some(filter), Some(index_name)) == selected_rows(
            db,
            schema,
            table,
            columns,
            Some(filter),
            None,
        ),
{
    let x = find_entry(schema, EntryKind::Index, index_name, 0)->Some_0;
    let index_root = schema[x as int].rootpage;
    let column = find_column(table.columns, filter.column, 0)->Some_0;
    let key = encode_utf8(filter.literal);
    let rows = table_rows(db, table.rootpage, MAX_DEPTH as nat)->Ok_0;
    lemma_scan_increasing(db, table.rootpage, MAX_DEPTH as nat, lo, hi);
    lemma_index_agrees_with_scan(db, index_root, MAX_DEPTH as nat, rows, column, key);
    lemma_passing_is_matching(rows, 0, column, key);
    assert(row_entries(rows, column).skip(0) =~= row_entries(rows, column));
    lemma_passing_ascending(rows, 0, lo, hi, column, key);
    lemma_ascending_unique(
        passing_ids(rows, 0, column, key),
        index_matches(db, index_root, key, MAX_DEPTH as nat)->Ok_0,
    );
    lemma_scan_is_fetch(db, table.rootpage, lo, hi, 0, column, key, columns);
}

/// The executor's selection with a filter gives the same rows whether it
/// goes through an index or scans the table, but for their order, and
/// fails in the one way exactly when it fails in the other: where the
/// table and the index are in key order and the index holds one entry for
/// each row of the table on the filter column.
pub proof fn lemma_selection_agrees(
    db: PagerView,
    schema: Seq<SchemaEntryView>,
    table: TableSchemaView,
    columns: Seq<Projected>,
    filter: FilterView,
    index_name: Seq<char>,
    lo: int,
    hi: int,
)
    requires
        find_column(table.columns, filter.column, 0) is Some,
        find_entry(schema, EntryKind::Index, index_name, 0) is Some,
        table_ordered(db, table.rootpage, MAX_DEPTH as nat, lo, hi),
        index_ordered(
            db,
            schema[find_entry(schema, EntryKind::Index, index_name, 0)->Some_0 as int].rootpage,
            MAX_DEPTH as nat,
            None,
            None,
        ),
        index_covers(
            index_entries(
                db,
                schema[find_entry(schema, EntryKind::Index, index_name, 0)->Some_0 as int].rootpage,
                MAX_DEPTH as nat,
            )->Ok_0,
            table_rows(db, table.rootpage, MAX_DEPTH as nat)->Ok_0,
            find_column(table.columns, filter.column, 0)->Some_0,
        ),
    ensures
        ({
            let through = selected_rows(db, schema, table, columns, Some(filter), Some(index_name));
            let scanned = selected_rows(db, schema, table, columns, Some(filter), None);
            &&& through is Ok <==> scanned is Ok
            &&& through is Ok ==> through->Ok_0.to_multiset() == scanned->Ok_0.to_multiset()
        }),
{
    let x = find_entry(schema, EntryKind::Index, index_name, 0)->Some_0;
    lemma_index_selects_what_scan_selects(
        db,
        table.rootpage,
        schema[x as int].rootpage,
        lo,
        hi,
        find_column(table.columns, filter.column, 0)->Some_0,
        encode_utf8(filter.literal),
        columns,
    );
}

} // verus!
