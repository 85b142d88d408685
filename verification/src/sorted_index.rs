//! What holds of an index B-tree that is in key order: the equality scan
//! yields the rowids of exactly the entries whose key equals the key
//! sought, in index order; and where the index holds one entry for each
//! row of a table, it yields the rowids of the rows that a full scan with
//! the same test finds.

use vstd::prelude::*;
use vstd::multiset::Multiset;
use crate::btree::{PageView, page_at};
use crate::error::DbError;
use crate::index::{IndexEntry, index_cell, index_matches, leaf_matches, matches_under};
use crate::page::{PageKind, RowView};
use crate::pager::PagerView;
use crate::record::parse_record;
use crate::text::{KeyOrder, key_order, lemma_key_order_chain, lemma_key_order_flip, not_above};

verus! {

/// The entries of an index leaf from cell `i` on, in array order.
pub open spec fn leaf_entries(page: PageView, i: nat) -> Result<Seq<IndexEntry>, DbError>
    decreases page.header.n_cells - i,
{
    if i >= page.header.n_cells {
        Ok(Seq::empty())
    } else {
        match index_cell(page, i) {
            Err(e) => Err(e),
            Ok(cell) => match leaf_entries(page, i + 1) {
                Err(e) => Err(e),
                Ok(rest) => Ok(seq![cell.entry] + rest),
            },
        }
    }
}

/// The entries of the index B-tree rooted at page `n`, in index order: on
/// an interior page what is under the left child of a cell, then the entry
/// of the cell, and behind the last cell what is under the right-most
/// child.
pub open spec fn index_entries(db: PagerView, n: u32, depth: nat) -> Result<
    Seq<IndexEntry>,
    DbError,
>
    decreases depth, 0nat, 0nat,
{
    match page_at(db, n) {
        Err(e) => Err(e),
        Ok(page) => match page.header.kind {
            PageKind::IndexLeaf => leaf_entries(page, 0),
            PageKind::IndexInterior => if depth == 0 {
                Err(DbError::Unsupported(crate::error::Feature::Depth))
            } else {
                entries_under(db, page, 0, (depth - 1) as nat)
            },
            _ => Err(DbError::UnknownPageKind(page.header.kind_byte)),
        },
    }
}

/// The entries from cell `i` of the interior page `page` on.
pub open spec fn entries_under(db: PagerView, page: PageView, i: nat, depth: nat) -> Result<
    Seq<IndexEntry>,
    DbError,
>
    decreases depth, 1nat, page.header.n_cells - i,
{
    if i >= page.header.n_cells {
        index_entries(db, page.header.right_most, depth)
    } else {
        match index_cell(page, i) {
            Err(e) => Err(e),
            Ok(cell) => match index_entries(db, cell.left_child, depth) {
                Err(e) => Err(e),
                Ok(left) => match entries_under(db, page, i + 1, depth) {
                    Err(e) => Err(e),
                    Ok(rest) => Ok(left.push(cell.entry) + rest),
                },
            },
        }
    }
}

/// Whether `key` lies between the bounds; an absent bound bounds nothing.
pub open spec fn between(lo: Option<Seq<u8>>, key: Seq<u8>, hi: Option<Seq<u8>>) -> bool {
    &&& lo matches Some(l) ==> not_above(l, key)
    &&& hi matches Some(h) ==> not_above(key, h)
}

/// Whether the cells of an index leaf from cell `i` on can be read and
/// their keys do not fall, between the bounds.
pub open spec fn leaf_sorted(
    page: PageView,
    i: nat,
    lo: Option<Seq<u8>>,
    hi: Option<Seq<u8>>,
) -> bool
    decreases page.header.n_cells - i,
{
    if i >= page.header.n_cells {
        true
    } else {
        &&& index_cell(page, i) is Ok
        &&& between(lo, index_cell(page, i)->Ok_0.entry.key, hi)
        &&& leaf_sorted(page, i + 1, Some(index_cell(page, i)->Ok_0.entry.key), hi)
    }
}

/// Whether the tree rooted at page `n` is an index B-tree in key order
/// with all keys between the bounds: every page and cell can be read, the
/// keys under the left child of a cell are not above the key of the cell,
/// and what follows the cell is not below it.
pub open spec fn index_ordered(
    db: PagerView,
    n: u32,
    depth: nat,
    lo: Option<Seq<u8>>,
    hi: Option<Seq<u8>>,
) -> bool
    decreases depth, 0nat, 0nat,
{
    match page_at(db, n) {
        Err(_) => false,
        Ok(page) => match page.header.kind {
            PageKind::IndexLeaf => leaf_sorted(page, 0, lo, hi),
            PageKind::IndexInterior => depth > 0 && branches_sorted(
                db,
                page,
                0,
                (depth - 1) as nat,
                lo,
                hi,
            ),
            _ => false,
        },
    }
}

/// Whether what hangs on the interior page `page` from cell `i` on is in
/// key order between the bounds.
pub open spec fn branches_sorted(
    db: PagerView,
    page: PageView,
    i: nat,
    depth: nat,
    lo: Option<Seq<u8>>,
    hi: Option<Seq<u8>>,
) -> bool
    decreases depth, 1nat, page.header.n_cells - i,
{
    if i >= page.header.n_cells {
        index_ordered(db, page.header.right_most, depth, lo, hi)
    } else {
        &&& index_cell(page, i) is Ok
        &&& between(lo, index_cell(page, i)->Ok_0.entry.key, hi)
        &&& index_ordered(
            db,
            index_cell(page, i)->Ok_0.left_child,
            depth,
            lo,
            Some(index_cell(page, i)->Ok_0.entry.key),
        )
        &&& branches_sorted(db, page, i + 1, depth, Some(index_cell(page, i)->Ok_0.entry.key), hi)
    }
}

/// The rowids of the entries whose key equals `key`, in the order of the
/// entries.
pub open spec fn matching(entries: Seq<IndexEntry>, key: Seq<u8>) -> Seq<i64>
    decreases entries.len(),
{
    if entries.len() == 0 {
        Seq::empty()
    } else {
        let before = matching(entries.drop_last(), key);
        if key_order(key, entries.last().key) == KeyOrder::Equal {
            before.push(entries.last().rowid)
        } else {
            before
        }
    }
}

/// Whether every key of `entries` lies between the bounds.
pub open spec fn bounded(
    entries: Seq<IndexEntry>,
    lo: Option<Seq<u8>>,
    hi: Option<Seq<u8>>,
) -> bool {
    forall|k: int| 0 <= k < entries.len() ==> between(lo, (#[trigger] entries[k]).key, hi)
}

pub(crate) proof fn lemma_matching_joined(a: Seq<IndexEntry>, b: Seq<IndexEntry>, key: Seq<u8>)
    ensures
        matching(a + b, key) == matching(a, key) + matching(b, key),
    decreases b.len(),
{
    if b.len() == 0 {
        assert(a + b =~= a);
        assert(matching(a, key) + matching(b, key) =~= matching(a, key));
    } else {
        assert((a + b).drop_last() =~= a + b.drop_last());
        assert((a + b).last() == b.last());
        lemma_matching_joined(a, b.drop_last(), key);
        let before = matching(b.drop_last(), key);
        if key_order(key, b.last().key) == KeyOrder::Equal {
            assert((matching(a, key) + before).push(b.last().rowid) =~= matching(a, key)
                + before.push(b.last().rowid));
        }
    }
}

pub(crate) proof fn lemma_matching_one(e: IndexEntry, key: Seq<u8>)
    ensures
        matching(seq![e], key) == if key_order(key, e.key) == KeyOrder::Equal {
            seq![e.rowid]
        } else {
            Seq::<i64>::empty()
        },
{
    let s = seq![e];
    assert(s.drop_last() =~= Seq::<IndexEntry>::empty());
    assert(matching(s.drop_last(), key) =~= Seq::<i64>::empty());
    assert(s.last() == e);
    if key_order(key, e.key) == KeyOrder::Equal {
        assert(Seq::<i64>::empty().push(e.rowid) =~= seq![e.rowid]);
    }
}

proof fn lemma_matching_none(entries: Seq<IndexEntry>, key: Seq<u8>)
    requires
        forall|k: int|
            0 <= k < entries.len() ==> key_order(key, (#[trigger] entries[k]).key)
                != KeyOrder::Equal,
    ensures
        matching(entries, key) == Seq::<i64>::empty(),
    decreases entries.len(),
{
    if entries.len() > 0 {
        let front = entries.drop_last();
        assert forall|k: int| 0 <= k < front.len() implies key_order(
            key,
            (#[trigger] front[k]).key,
        ) != KeyOrder::Equal by {
            assert(front[k] == entries[k]);
        }
        lemma_matching_none(front, key);
        assert(entries.last() == entries[entries.len() - 1]);
    }
}

/// Entries that are all at or above a key that `key` is below hold no match.
proof fn lemma_none_above(entries: Seq<IndexEntry>, lo: Seq<u8>, hi: Option<Seq<u8>>, key: Seq<u8>)
    requires
        bounded(entries, Some(lo), hi),
        key_order(key, lo) == KeyOrder::Less,
    ensures
        matching(entries, key) == Seq::<i64>::empty(),
{
    assert forall|k: int| 0 <= k < entries.len() implies key_order(
        key,
        (#[trigger] entries[k]).key,
    ) != KeyOrder::Equal by {
        lemma_key_order_chain(key, lo, entries[k].key);
    }
    lemma_matching_none(entries, key);
}

/// Entries that are all at or below a key that `key` is above hold no match.
proof fn lemma_none_below(entries: Seq<IndexEntry>, lo: Option<Seq<u8>>, hi: Seq<u8>, key: Seq<u8>)
    requires
        bounded(entries, lo, Some(hi)),
        key_order(key, hi) == KeyOrder::Greater,
    ensures
        matching(entries, key) == Seq::<i64>::empty(),
{
    assert forall|k: int| 0 <= k < entries.len() implies key_order(
        key,
        (#[trigger] entries[k]).key,
    ) != KeyOrder::Equal by {
        lemma_key_order_flip(key, hi);
        lemma_key_order_chain(entries[k].key, hi, key);
        lemma_key_order_flip(key, entries[k].key);
    }
    lemma_matching_none(entries, key);
}

proof fn lemma_bounded_widen(
    entries: Seq<IndexEntry>,
    lo: Option<Seq<u8>>,
    mid_lo: Option<Seq<u8>>,
    mid_hi: Option<Seq<u8>>,
    hi: Option<Seq<u8>>,
)
    requires
        bounded(entries, mid_lo, mid_hi),
        mid_lo == lo || (mid_lo matches Some(m) && between(lo, m, None)),
        mid_hi == hi || (mid_hi matches Some(m) && between(None, m, hi)),
    ensures
        bounded(entries, lo, hi),
{
    assert forall|k: int| 0 <= k < entries.len() implies between(
        lo,
        (#[trigger] entries[k]).key,
        hi,
    ) by {
        let key = entries[k].key;
        if mid_lo != lo {
            if let Some(l) = lo {
                lemma_key_order_chain(l, mid_lo->Some_0, key);
            }
        }
        if mid_hi != hi {
            if let Some(h) = hi {
                lemma_key_order_chain(key, mid_hi->Some_0, h);
            }
        }
    }
}

proof fn lemma_bounded_joined(
    a: Seq<IndexEntry>,
    b: Seq<IndexEntry>,
    lo: Option<Seq<u8>>,
    hi: Option<Seq<u8>>,
)
    requires
        bounded(a, lo, hi),
        bounded(b, lo, hi),
    ensures
        bounded(a + b, lo, hi),
{
    assert forall|k: int| 0 <= k < (a + b).len() implies between(
        lo,
        (#[trigger] (a + b)[k]).key,
        hi,
    ) by {
        if k < a.len() {
            assert((a + b)[k] == a[k]);
        } else {
            assert((a + b)[k] == b[k - a.len()]);
        }
    }
}

proof fn lemma_leaf_bounded(page: PageView, i: nat, lo: Option<Seq<u8>>, hi: Option<Seq<u8>>)
    requires
        leaf_sorted(page, i, lo, hi),
    ensures
        leaf_entries(page, i) is Ok,
        bounded(leaf_entries(page, i)->Ok_0, lo, hi),
    decreases page.header.n_cells - i,
{
    if i < page.header.n_cells {
        let e = index_cell(page, i)->Ok_0.entry;
        lemma_leaf_bounded(page, i + 1, Some(e.key), hi);
        let rest = leaf_entries(page, i + 1)->Ok_0;
        lemma_bounded_widen(rest, lo, Some(e.key), hi, hi);
        assert(bounded(seq![e], lo, hi));
        lemma_bounded_joined(seq![e], rest, lo, hi);
    }
}

/// The entries of an index B-tree in key order can all be read, and their
/// keys lie between the bounds of the tree.
pub proof fn lemma_entries_bounded(
    db: PagerView,
    n: u32,
    depth: nat,
    lo: Option<Seq<u8>>,
    hi: Option<Seq<u8>>,
)
    requires
        index_ordered(db, n, depth, lo, hi),
    ensures
        index_entries(db, n, depth) is Ok,
        bounded(index_entries(db, n, depth)->Ok_0, lo, hi),
    decreases depth, 0nat, 0nat,
{
    let page = page_at(db, n)->Ok_0;
    if page.header.kind == PageKind::IndexLeaf {
        lemma_leaf_bounded(page, 0, lo, hi);
    } else {
        lemma_branches_bounded(db, page, 0, (depth - 1) as nat, lo, hi);
    }
}

proof fn lemma_branches_bounded(
    db: PagerView,
    page: PageView,
    i: nat,
    depth: nat,
    lo: Option<Seq<u8>>,
    hi: Option<Seq<u8>>,
)
    requires
        branches_sorted(db, page, i, depth, lo, hi),
    ensures
        entries_under(db, page, i, depth) is Ok,
        bounded(entries_under(db, page, i, depth)->Ok_0, lo, hi),
    decreases depth, 1nat, page.header.n_cells - i,
{
    if i >= page.header.n_cells {
        lemma_entries_bounded(db, page.header.right_most, depth, lo, hi);
    } else {
        let cell = index_cell(page, i)->Ok_0;
        let e = cell.entry;
        lemma_entries_bounded(db, cell.left_child, depth, lo, Some(e.key));
        lemma_branches_bounded(db, page, i + 1, depth, Some(e.key), hi);
        let left = index_entries(db, cell.left_child, depth)->Ok_0;
        let rest = entries_under(db, page, i + 1, depth)->Ok_0;
        lemma_bounded_widen(left, lo, lo, Some(e.key), hi);
        lemma_bounded_widen(rest, lo, Some(e.key), hi, hi);
        assert(bounded(seq![e], lo, hi));
        assert(left.push(e) =~= left + seq![e]);
        lemma_bounded_joined(left, seq![e], lo, hi);
        lemma_bounded_joined(left.push(e), rest, lo, hi);
    }
}

proof fn lemma_leaf_scan(
    page: PageView,
    i: nat,
    lo: Option<Seq<u8>>,
    hi: Option<Seq<u8>>,
    key: Seq<u8>,
)
    requires
        leaf_sorted(page, i, lo, hi),
    ensures
        leaf_entries(page, i) is Ok,
        leaf_matches(page, i, key) == Ok::<Seq<i64>, DbError>(
            matching(leaf_entries(page, i)->Ok_0, key),
        ),
    decreases page.header.n_cells - i,
{
    lemma_leaf_bounded(page, i, lo, hi);
    if i < page.header.n_cells {
        let e = index_cell(page, i)->Ok_0.entry;
        lemma_leaf_scan(page, i + 1, Some(e.key), hi, key);
        lemma_leaf_bounded(page, i + 1, Some(e.key), hi);
        let rest = leaf_entries(page, i + 1)->Ok_0;
        lemma_matching_joined(seq![e], rest, key);
        lemma_matching_one(e, key);
        match key_order(key, e.key) {
            KeyOrder::Less => {
                lemma_none_above(rest, e.key, hi, key);
                assert(Seq::<i64>::empty() + Seq::<i64>::empty() =~= Seq::<i64>::empty());
            },
            KeyOrder::Greater => {
                assert(Seq::<i64>::empty() + matching(rest, key) =~= matching(rest, key));
            },
            KeyOrder::Equal => {},
        }
    }
}

/// The equality scan of an index B-tree in key order succeeds and yields
/// the rowids of exactly the entries whose key equals the key sought, in
/// index order.
pub proof fn lemma_index_scan_matches(
    db: PagerView,
    n: u32,
    depth: nat,
    lo: Option<Seq<u8>>,
    hi: Option<Seq<u8>>,
    key: Seq<u8>,
)
    requires
        index_ordered(db, n, depth, lo, hi),
    ensures
        index_entries(db, n, depth) is Ok,
        index_matches(db, n, key, depth) == Ok::<Seq<i64>, DbError>(
            matching(index_entries(db, n, depth)->Ok_0, key),
        ),
    decreases depth, 0nat, 0nat,
{
    let page = page_at(db, n)->Ok_0;
    if page.header.kind == PageKind::IndexLeaf {
        lemma_leaf_scan(page, 0, lo, hi, key);
    } else {
        lemma_branches_scan(db, page, 0, (depth - 1) as nat, lo, hi, key);
    }
}

proof fn lemma_branches_scan(
    db: PagerView,
    page: PageView,
    i: nat,
    depth: nat,
    lo: Option<Seq<u8>>,
    hi: Option<Seq<u8>>,
    key: Seq<u8>,
)
    requires
        branches_sorted(db, page, i, depth, lo, hi),
    ensures
        entries_under(db, page, i, depth) is Ok,
        matches_under(db, page, i, key, depth) == Ok::<Seq<i64>, DbError>(
            matching(entries_under(db, page, i, depth)->Ok_0, key),
        ),
    decreases depth, 1nat, page.header.n_cells - i,
{
    lemma_branches_bounded(db, page, i, depth, lo, hi);
    if i >= page.header.n_cells {
        lemma_index_scan_matches(db, page.header.right_most, depth, lo, hi, key);
    } else {
        let cell = index_cell(page, i)->Ok_0;
        let e = cell.entry;
        lemma_index_scan_matches(db, cell.left_child, depth, lo, Some(e.key), key);
        lemma_entries_bounded(db, cell.left_child, depth, lo, Some(e.key));
        lemma_branches_scan(db, page, i + 1, depth, Some(e.key), hi, key);
        lemma_branches_bounded(db, page, i + 1, depth, Some(e.key), hi);
        let left = index_entries(db, cell.left_child, depth)->Ok_0;
        let rest = entries_under(db, page, i + 1, depth)->Ok_0;
        assert(left.push(e) =~= left + seq![e]);
        lemma_matching_joined(left, seq![e], key);
        lemma_matching_joined(left.push(e), rest, key);
        lemma_matching_one(e, key);
        let found = matching(left, key);
        match key_order(key, e.key) {
            KeyOrder::Less => {
                lemma_none_above(rest, e.key, hi, key);
                assert((found + Seq::<i64>::empty()) + Seq::<i64>::empty() =~= found);
            },
            KeyOrder::Greater => {
                lemma_none_below(left, lo, e.key, key);
                assert((Seq::<i64>::empty() + Seq::<i64>::empty()) + matching(rest, key)
                    =~= matching(rest, key));
            },
            KeyOrder::Equal => {
                assert(found + seq![e.rowid] =~= found.push(e.rowid));
            },
        }
    }
}

/// The entry that an index on column `column` holds for `row`: the bytes
/// of that column and the rowid.
pub open spec fn row_entry(row: RowView, column: nat) -> IndexEntry {
    IndexEntry { key: parse_record(row.payload)->Ok_0.column_bytes(column), rowid: row.rowid }
}

/// The entries that an index on column `column` holds for `rows`.
pub open spec fn row_entries(rows: Seq<RowView>, column: nat) -> Seq<IndexEntry> {
    Seq::new(rows.len(), |i: int| row_entry(rows[i], column))
}

/// Whether `entries` are those of an index on column `column` of a table
/// with the rows `rows`: every row holds text in that column, and the
/// index holds, in whatever order, one entry for each row.
pub open spec fn index_covers(entries: Seq<IndexEntry>, rows: Seq<RowView>, column: nat) -> bool {
    &&& forall|k: int|
        0 <= k < rows.len() ==> parse_record((#[trigger] rows[k]).payload) is Ok && parse_record(
            rows[k].payload,
        )->Ok_0.text_bytes(column) is Ok
    &&& entries.to_multiset() == row_entries(rows, column).to_multiset()
}

/// Whether `e` is an entry for `rowid` whose key equals `key`.
pub open spec fn is_match(e: IndexEntry, key: Seq<u8>, rowid: i64) -> bool {
    key_order(key, e.key) == KeyOrder::Equal && e.rowid == rowid
}

proof fn lemma_matching_count(entries: Seq<IndexEntry>, key: Seq<u8>, rowid: i64)
    ensures
        matching(entries, key).to_multiset().count(rowid) == entries.to_multiset().filter(
            |e: IndexEntry| is_match(e, key, rowid),
        ).len(),
    decreases entries.len(),
{
    broadcast use vstd::multiset::group_multiset_axioms;
    broadcast use vstd::multiset::group_multiset_properties;

    let pred = |e: IndexEntry| is_match(e, key, rowid);
    if entries.len() == 0 {
        matching(entries, key).to_multiset_ensures();
        entries.to_multiset_ensures();
        assert(entries.to_multiset().filter(pred) =~= Multiset::<IndexEntry>::empty());
        assert(matching(entries, key).to_multiset() =~= Multiset::<i64>::empty());
    } else {
        let front = entries.drop_last();
        let e = entries.last();
        lemma_matching_count(front, key, rowid);
        assert(entries =~= front.push(e));
        front.to_multiset_ensures();
        assert(entries.to_multiset() =~= front.to_multiset().insert(e));
        let before = matching(front, key);
        before.to_multiset_ensures();
        if pred(e) {
            assert(entries.to_multiset().filter(pred) =~= front.to_multiset().filter(pred).insert(
                e,
            ));
            assert(matching(entries, key) == before.push(rowid));
            assert(before.push(rowid).to_multiset() =~= before.to_multiset().insert(rowid));
        } else {
            assert(entries.to_multiset().filter(pred) =~= front.to_multiset().filter(pred));
            if key_order(key, e.key) == KeyOrder::Equal {
                assert(matching(entries, key) == before.push(e.rowid));
                assert(before.push(e.rowid).to_multiset() =~= before.to_multiset().insert(
                    e.rowid,
                ));
            }
        }
    }
}

/// Entries that are the same but for their order hold the same matches but
/// for their order.
pub proof fn lemma_matching_of_rearranged(a: Seq<IndexEntry>, b: Seq<IndexEntry>, key: Seq<u8>)
    requires
        a.to_multiset() == b.to_multiset(),
    ensures
        matching(a, key).to_multiset() == matching(b, key).to_multiset(),
{
    assert forall|rowid: i64|
        matching(a, key).to_multiset().count(rowid) == matching(b, key).to_multiset().count(
            rowid,
        ) by {
        lemma_matching_count(a, key, rowid);
        lemma_matching_count(b, key, rowid);
    }
    assert(matching(a, key).to_multiset() =~= matching(b, key).to_multiset());
}

/// Where an index B-tree in key order holds one entry for each row of a
/// table, its equality scan for `key` yields, as a multiset, the rowids of
/// the rows of the table whose indexed column equals `key`.
pub proof fn lemma_index_agrees_with_scan(
    db: PagerView,
    index_root: u32,
    depth: nat,
    rows: Seq<RowView>,
    column: nat,
    key: Seq<u8>,
)
    requires
        index_ordered(db, index_root, depth, None, None),
        index_covers(index_entries(db, index_root, depth)->Ok_0, rows, column),
    ensures
        index_matches(db, index_root, key, depth) is Ok,
        index_matches(db, index_root, key, depth)->Ok_0.to_multiset() == matching(
            row_entries(rows, column),
            key,
        ).to_multiset(),
{
    lemma_index_scan_matches(db, index_root, depth, None, None, key);
    lemma_matching_of_rearranged(
        index_entries(db, index_root, depth)->Ok_0,
        row_entries(rows, column),
        key,
    );
}

} // verus!
