//! What holds of a table B-tree that is in key order: the scan yields
//! increasing rowids and the point lookup finds exactly the rows of the
//! scan. And what holds wherever the scan succeeds: the count is the
//! length of the scan, and the scan with a limit yields its first rows.

use vstd::prelude::*;
use crate::btree::{
    PageView, count_under, first_rows, first_rows_under, page_at, prefix, rows_under, table_count,
    table_lookup, table_rows,
};
use crate::error::DbError;
use crate::page::{PageKind, RowView};
use crate::pager::PagerView;

verus! {

/// Whether the cells of a table leaf from cell `i` on can be read and
/// their rowids increase from above `lo` up to at most `hi`.
pub open spec fn leaf_ordered(page: PageView, i: nat, lo: int, hi: int) -> bool
    decreases page.header.n_cells - i,
{
    if i >= page.header.n_cells {
        true
    } else {
        &&& page.row(i) is Ok
        &&& lo < page.row(i)->Ok_0.rowid <= hi
        &&& leaf_ordered(page, i + 1, page.row(i)->Ok_0.rowid as int, hi)
    }
}

/// Whether the tree rooted at page `n` is a table B-tree in key order with
/// all rowids above `lo` and at most `hi`: every page and cell can be read,
/// the rowids under the left child of a cell are at most the cell's key,
/// and what follows the cell is above that key.
pub open spec fn table_ordered(db: PagerView, n: u32, depth: nat, lo: int, hi: int) -> bool
    decreases depth, 0nat, 0nat,
{
    match page_at(db, n) {
        Err(_) => false,
        Ok(page) => match page.header.kind {
            PageKind::TableLeaf => leaf_ordered(page, 0, lo, hi),
            PageKind::TableInterior => depth > 0 && children_ordered(
                db,
                page,
                0,
                (depth - 1) as nat,
                lo,
                hi,
            ),
            _ => false,
        },
    }
}

/// Whether the children of the interior page `page` from cell `i` on are
/// in key order, with all rowids above `lo` and at most `hi`.
pub open spec fn children_ordered(
    db: PagerView,
    page: PageView,
    i: nat,
    depth: nat,
    lo: int,
    hi: int,
) -> bool
    decreases depth, 1nat, page.header.n_cells - i,
{
    if i >= page.header.n_cells {
        table_ordered(db, page.header.right_most, depth, lo, hi)
    } else {
        &&& page.branch(i) is Ok
        &&& lo <= page.branch(i)->Ok_0.key <= hi
        &&& table_ordered(
            db,
            page.branch(i)->Ok_0.left_child,
            depth,
            lo,
            page.branch(i)->Ok_0.key as int,
        )
        &&& children_ordered(db, page, i + 1, depth, page.branch(i)->Ok_0.key as int, hi)
    }
}

/// Whether the rowids of `rows` increase strictly, from above `lo` up to at
/// most `hi`.
pub open spec fn increasing(rows: Seq<RowView>, lo: int, hi: int) -> bool {
    &&& forall|k: int| 0 <= k < rows.len() ==> lo < (#[trigger] rows[k]).rowid <= hi
    &&& forall|j: int, k: int|
        0 <= j < k < rows.len() ==> (#[trigger] rows[j]).rowid < (#[trigger] rows[k]).rowid
}

proof fn lemma_increasing_joined(a: Seq<RowView>, b: Seq<RowView>, lo: int, mid: int, hi: int)
    requires
        increasing(a, lo, mid),
        increasing(b, mid, hi),
        lo <= mid <= hi,
    ensures
        increasing(a + b, lo, hi),
{
    let c = a + b;
    assert forall|k: int| 0 <= k < c.len() implies lo < (#[trigger] c[k]).rowid <= hi by {
        if k < a.len() {
            assert(c[k] == a[k]);
        } else {
            assert(c[k] == b[k - a.len()]);
        }
    }
    assert forall|j: int, k: int| 0 <= j < k < c.len() implies (#[trigger] c[j]).rowid < (
    #[trigger] c[k]).rowid by {
        if j < a.len() {
            assert(c[j] == a[j]);
        } else {
            assert(c[j] == b[j - a.len()]);
        }
        if k < a.len() {
            assert(c[k] == a[k]);
        } else {
            assert(c[k] == b[k - a.len()]);
        }
    }
}

proof fn lemma_leaf_sorted(page: PageView, i: nat, lo: int, hi: int)
    requires
        leaf_ordered(page, i, lo, hi),
    ensures
        page.rows_from(i) is Ok,
        increasing(page.rows_from(i)->Ok_0, lo, hi),
        page.rows_from(i)->Ok_0.len() == if i >= page.header.n_cells {
            0
        } else {
            page.header.n_cells - i
        },
    decreases page.header.n_cells - i,
{
    if i < page.header.n_cells {
        let row = page.row(i)->Ok_0;
        lemma_leaf_sorted(page, i + 1, row.rowid as int, hi);
        let rest = page.rows_from(i + 1)->Ok_0;
        assert(increasing(seq![row], lo, row.rowid as int));
        lemma_increasing_joined(seq![row], rest, lo, row.rowid as int, hi);
    }
}

/// The scan of a table B-tree in key order succeeds and yields its rows
/// with strictly increasing rowids, all of them within the bounds of the
/// tree.
pub proof fn lemma_scan_increasing(db: PagerView, n: u32, depth: nat, lo: int, hi: int)
    requires
        table_ordered(db, n, depth, lo, hi),
    ensures
        table_rows(db, n, depth) is Ok,
        increasing(table_rows(db, n, depth)->Ok_0, lo, hi),
    decreases depth, 0nat, 0nat,
{
    let page = page_at(db, n)->Ok_0;
    if page.header.kind == PageKind::TableLeaf {
        lemma_leaf_sorted(page, 0, lo, hi);
    } else {
        lemma_children_increasing(db, page, 0, (depth - 1) as nat, lo, hi);
    }
}

proof fn lemma_children_increasing(
    db: PagerView,
    page: PageView,
    i: nat,
    depth: nat,
    lo: int,
    hi: int,
)
    requires
        children_ordered(db, page, i, depth, lo, hi),
    ensures
        rows_under(db, page, i, depth) is Ok,
        increasing(rows_under(db, page, i, depth)->Ok_0, lo, hi),
    decreases depth, 1nat, page.header.n_cells - i,
{
    if i >= page.header.n_cells {
        lemma_scan_increasing(db, page.header.right_most, depth, lo, hi);
    } else {
        let cell = page.branch(i)->Ok_0;
        lemma_scan_increasing(db, cell.left_child, depth, lo, cell.key as int);
        lemma_children_increasing(db, page, i + 1, depth, cell.key as int, hi);
        lemma_increasing_joined(
            table_rows(db, cell.left_child, depth)->Ok_0,
            rows_under(db, page, i + 1, depth)->Ok_0,
            lo,
            cell.key as int,
            hi,
        );
    }
}

/// Whether the lookup result `found` is right for `rowid` among `rows`:
/// the payload of the row with that rowid, or `NotFound` where no row has
/// it.
pub open spec fn finds(found: Result<Seq<u8>, DbError>, rows: Seq<RowView>, rowid: i64) -> bool {
    &&& forall|k: int|
        0 <= k < rows.len() && (#[trigger] rows[k]).rowid == rowid ==> found == Ok::<
            Seq<u8>,
            DbError,
        >(rows[k].payload)
    &&& (forall|k: int| 0 <= k < rows.len() ==> (#[trigger] rows[k]).rowid != rowid) ==> found
        == Err::<Seq<u8>, DbError>(DbError::NotFound)
}

proof fn lemma_leaf_lookup(page: PageView, i: nat, lo: int, hi: int, rowid: i64)
    requires
        leaf_ordered(page, i, lo, hi),
    ensures
        page.rows_from(i) is Ok,
        finds(page.find_from(i, rowid), page.rows_from(i)->Ok_0, rowid),
    decreases page.header.n_cells - i,
{
    lemma_leaf_sorted(page, i, lo, hi);
    if i < page.header.n_cells {
        let row = page.row(i)->Ok_0;
        lemma_leaf_lookup(page, i + 1, row.rowid as int, hi, rowid);
        lemma_leaf_sorted(page, i + 1, row.rowid as int, hi);
        let rest = page.rows_from(i + 1)->Ok_0;
        let rows = page.rows_from(i)->Ok_0;
        assert(rows == seq![row] + rest);
        assert(rows[0] == row);
        assert forall|k: int| 1 <= k < rows.len() implies (#[trigger] rows[k]) == rest[k - 1] by {}
        if row.rowid == rowid {
            assert forall|k: int|
                0 <= k < rows.len() && (#[trigger] rows[k]).rowid == rowid implies k == 0 by {
                if k > 0 {
                    assert(rows[k] == rest[k - 1]);
                }
            }
        } else {
            assert forall|k: int|
                0 <= k < rows.len() && (#[trigger] rows[k]).rowid == rowid implies page.find_from(
                i,
                rowid,
            ) == Ok::<Seq<u8>, DbError>(rows[k].payload) by {
                assert(k > 0);
                assert(rows[k] == rest[k - 1]);
            }
            if forall|k: int| 0 <= k < rows.len() ==> (#[trigger] rows[k]).rowid != rowid {
                assert forall|k: int| 0 <= k < rest.len() implies (#[trigger] rest[k]).rowid
                    != rowid by {
                    assert(rows[k + 1] == rest[k]);
                }
            }
        }
    }
}

/// The point lookup in a table B-tree in key order gives, for a rowid that
/// a row of the scan has, the payload of that row, and for any other rowid
/// `NotFound`.
pub proof fn lemma_lookup_finds(db: PagerView, n: u32, depth: nat, lo: int, hi: int, rowid: i64)
    requires
        table_ordered(db, n, depth, lo, hi),
    ensures
        table_rows(db, n, depth) is Ok,
        finds(table_lookup(db, n, rowid, depth), table_rows(db, n, depth)->Ok_0, rowid),
    decreases depth, 0nat, 0nat,
{
    lemma_scan_increasing(db, n, depth, lo, hi);
    let page = page_at(db, n)->Ok_0;
    if page.header.kind == PageKind::TableLeaf {
        lemma_leaf_lookup(page, 0, lo, hi, rowid);
    } else {
        lemma_children_lookup(db, page, 0, (depth - 1) as nat, lo, hi, rowid);
    }
}

proof fn lemma_children_lookup(
    db: PagerView,
    page: PageView,
    i: nat,
    depth: nat,
    lo: int,
    hi: int,
    rowid: i64,
)
    requires
        children_ordered(db, page, i, depth, lo, hi),
    ensures
        rows_under(db, page, i, depth) is Ok,
        page.child_for(i, rowid) is Ok,
        finds(
            table_lookup(db, page.child_for(i, rowid)->Ok_0, rowid, depth),
            rows_under(db, page, i, depth)->Ok_0,
            rowid,
        ),
    decreases depth, 1nat, page.header.n_cells - i,
{
    lemma_children_increasing(db, page, i, depth, lo, hi);
    if i >= page.header.n_cells {
        lemma_lookup_finds(db, page.header.right_most, depth, lo, hi, rowid);
    } else {
        let cell = page.branch(i)->Ok_0;
        let key = cell.key as int;
        lemma_scan_increasing(db, cell.left_child, depth, lo, key);
        lemma_children_increasing(db, page, i + 1, depth, key, hi);
        let left = table_rows(db, cell.left_child, depth)->Ok_0;
        let rest = rows_under(db, page, i + 1, depth)->Ok_0;
        let rows = rows_under(db, page, i, depth)->Ok_0;
        assert(rows == left + rest);
        assert forall|k: int| 0 <= k < left.len() implies (#[trigger] rows[k]) == left[k] by {}
        assert forall|k: int| left.len() <= k < rows.len() implies (#[trigger] rows[k]) == rest[k
            - left.len()] by {}
        if cell.key >= rowid {
            lemma_lookup_finds(db, cell.left_child, depth, lo, key, rowid);
            let found = table_lookup(db, cell.left_child, rowid, depth);
            assert forall|k: int|
                0 <= k < rows.len() && (#[trigger] rows[k]).rowid == rowid implies found == Ok::<
                Seq<u8>,
                DbError,
            >(rows[k].payload) by {
                if k >= left.len() {
                    assert(rows[k] == rest[k - left.len()]);
                    assert(rest[k - left.len()].rowid > key);
                } else {
                    assert(rows[k] == left[k]);
                }
            }
            if forall|k: int| 0 <= k < rows.len() ==> (#[trigger] rows[k]).rowid != rowid {
                assert forall|k: int| 0 <= k < left.len() implies (#[trigger] left[k]).rowid
                    != rowid by {
                    assert(rows[k] == left[k]);
                }
            }
        } else {
            lemma_children_lookup(db, page, i + 1, depth, key, hi, rowid);
            let found = table_lookup(db, page.child_for(i + 1, rowid)->Ok_0, rowid, depth);
            assert forall|k: int|
                0 <= k < rows.len() && (#[trigger] rows[k]).rowid == rowid implies found == Ok::<
                Seq<u8>,
                DbError,
            >(rows[k].payload) by {
                if k < left.len() {
                    assert(rows[k] == left[k]);
                    assert(left[k].rowid <= key);
                } else {
                    assert(rows[k] == rest[k - left.len()]);
                }
            }
            if forall|k: int| 0 <= k < rows.len() ==> (#[trigger] rows[k]).rowid != rowid {
                assert forall|k: int| 0 <= k < rest.len() implies (#[trigger] rest[k]).rowid
                    != rowid by {
                    assert(rows[k + left.len()] == rest[k]);
                }
            }
        }
    }
}

proof fn lemma_leaf_length(page: PageView, i: nat)
    requires
        page.rows_from(i) is Ok,
        i <= page.header.n_cells,
    ensures
        page.rows_from(i)->Ok_0.len() == page.header.n_cells - i,
    decreases page.header.n_cells - i,
{
    if i < page.header.n_cells {
        lemma_leaf_length(page, i + 1);
    }
}

/// Where the scan of a table B-tree succeeds, the count is the number of
/// rows that the scan yields.
pub proof fn lemma_count_is_scan_length(db: PagerView, n: u32, depth: nat)
    requires
        table_rows(db, n, depth) is Ok,
    ensures
        table_count(db, n, depth) == Ok::<nat, DbError>(table_rows(db, n, depth)->Ok_0.len()),
    decreases depth, 0nat, 0nat,
{
    let page = page_at(db, n)->Ok_0;
    if page.header.kind == PageKind::TableLeaf {
        lemma_leaf_length(page, 0);
    } else {
        lemma_count_under(db, page, 0, (depth - 1) as nat);
    }
}

proof fn lemma_count_under(db: PagerView, page: PageView, i: nat, depth: nat)
    requires
        rows_under(db, page, i, depth) is Ok,
    ensures
        count_under(db, page, i, depth) == Ok::<nat, DbError>(
            rows_under(db, page, i, depth)->Ok_0.len(),
        ),
    decreases depth, 1nat, page.header.n_cells - i,
{
    if i >= page.header.n_cells {
        lemma_count_is_scan_length(db, page.header.right_most, depth);
    } else {
        let cell = page.branch(i)->Ok_0;
        lemma_count_is_scan_length(db, cell.left_child, depth);
        lemma_count_under(db, page, i + 1, depth);
    }
}

proof fn lemma_leaf_prefix(page: PageView, i: nat, limit: nat)
    requires
        page.rows_from(i) is Ok,
    ensures
        page.rows_upto(i, limit) == Ok::<Seq<RowView>, DbError>(
            prefix(page.rows_from(i)->Ok_0, limit),
        ),
    decreases page.header.n_cells - i,
{
    let all = page.rows_from(i)->Ok_0;
    if i >= page.header.n_cells || limit == 0 {
        assert(prefix(all, limit) =~= Seq::<RowView>::empty());
    } else {
        lemma_leaf_prefix(page, i + 1, (limit - 1) as nat);
        let row = page.row(i)->Ok_0;
        let rest = page.rows_from(i + 1)->Ok_0;
        assert(seq![row] + prefix(rest, (limit - 1) as nat) =~= prefix(seq![row] + rest, limit));
    }
}

/// Where the scan of a table B-tree succeeds, the scan with a limit
/// yields the first rows of the full scan: as many as the limit says, or
/// all where they are fewer.
pub proof fn lemma_first_rows_is_prefix(db: PagerView, n: u32, depth: nat, limit: nat)
    requires
        table_rows(db, n, depth) is Ok,
    ensures
        first_rows(db, n, depth, limit) == Ok::<Seq<RowView>, DbError>(
            prefix(table_rows(db, n, depth)->Ok_0, limit),
        ),
    decreases depth, 0nat, 0nat,
{
    let all = table_rows(db, n, depth)->Ok_0;
    if limit == 0 {
        assert(prefix(all, limit) =~= Seq::<RowView>::empty());
    } else {
        let page = page_at(db, n)->Ok_0;
        if page.header.kind == PageKind::TableLeaf {
            lemma_leaf_prefix(page, 0, limit);
        } else {
            lemma_first_rows_under(db, page, 0, (depth - 1) as nat, limit);
        }
    }
}

proof fn lemma_first_rows_under(db: PagerView, page: PageView, i: nat, depth: nat, limit: nat)
    requires
        rows_under(db, page, i, depth) is Ok,
    ensures
        first_rows_under(db, page, i, depth, limit) == Ok::<Seq<RowView>, DbError>(
            prefix(rows_under(db, page, i, depth)->Ok_0, limit),
        ),
    decreases depth, 1nat, page.header.n_cells - i,
{
    let all = rows_under(db, page, i, depth)->Ok_0;
    if limit == 0 {
        assert(prefix(all, limit) =~= Seq::<RowView>::empty());
    } else if i >= page.header.n_cells {
        lemma_first_rows_is_prefix(db, page.header.right_most, depth, limit);
    } else {
        let cell = page.branch(i)->Ok_0;
        let left = table_rows(db, cell.left_child, depth)->Ok_0;
        let rest = rows_under(db, page, i + 1, depth)->Ok_0;
        lemma_first_rows_is_prefix(db, cell.left_child, depth, limit);
        if prefix(left, limit).len() >= limit {
            assert(prefix(left, limit) =~= prefix(left + rest, limit));
        } else {
            let more = (limit - left.len()) as nat;
            lemma_first_rows_under(db, page, i + 1, depth, more);
            assert(left + prefix(rest, more) =~= prefix(left + rest, limit));
        }
    }
}

} // verus!
