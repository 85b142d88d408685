//! Walking table B-trees: the full scan in key order, the scan that halts
//! early at a limit, the point lookup by rowid and the row count.
//!
//! A tree is walked by page number. The walk descends through at most
//! `MAX_DEPTH` interior pages, so it ends on every image, also on one whose
//! child pointers run in a circle.

use vstd::prelude::*;
use crate::error::{DbError, Feature};
use crate::page::{
    PageHeader, PageKind, RowView, TableLeafCell, cell_pointer, parse_page_header,
    read_cell_pointer, read_page_header, read_table_interior_cell, read_table_leaf_cell,
    table_interior_cell, table_leaf_cell,
};
use crate::pager::{Pager, PagerView, HEADER_LEN};

verus! {

/// The number of interior pages that a walk descends through at most.
pub const MAX_DEPTH: usize = 20;

/// A page as the walkers see it: its content and its header.
pub struct PageView {
    pub bytes: Seq<u8>,
    pub header: PageHeader,
}

/// Page `n` of `db` with its header read.
pub open spec fn page_at(db: PagerView, n: u32) -> Result<PageView, DbError> {
    match db.area(n) {
        Err(e) => Err(e),
        Ok(bytes) => match parse_page_header(bytes, PagerView::header_start(n)) {
            Err(e) => Err(e),
            Ok(header) => Ok(PageView { bytes, header }),
        },
    }
}

impl PageView {
    /// Cell `i` read as a table-leaf cell.
    pub open spec fn row(self, i: nat) -> Result<RowView, DbError> {
        match cell_pointer(self.bytes, self.header, i) {
            Err(e) => Err(e),
            Ok(ptr) => table_leaf_cell(self.bytes, ptr as nat),
        }
    }

    /// Cell `i` read as a table-interior cell.
    pub open spec fn branch(self, i: nat) -> Result<crate::page::TableInteriorCell, DbError> {
        match cell_pointer(self.bytes, self.header, i) {
            Err(e) => Err(e),
            Ok(ptr) => table_interior_cell(self.bytes, ptr as nat),
        }
    }

    /// The rows of the cells of a table leaf from cell `i` on, in array order.
    pub open spec fn rows_from(self, i: nat) -> Result<Seq<RowView>, DbError>
        decreases self.header.n_cells - i,
    {
        if i >= self.header.n_cells {
            Ok(Seq::empty())
        } else {
            match self.row(i) {
                Err(e) => Err(e),
                Ok(row) => match self.rows_from(i + 1) {
                    Err(e) => Err(e),
                    Ok(rest) => Ok(seq![row] + rest),
                },
            }
        }
    }

    /// The payload of the first cell from `i` on whose rowid is `rowid`.
    pub open spec fn find_from(self, i: nat, rowid: i64) -> Result<Seq<u8>, DbError>
        decreases self.header.n_cells - i,
    {
        if i >= self.header.n_cells {
            Err(DbError::NotFound)
        } else {
            match self.row(i) {
                Err(e) => Err(e),
                Ok(row) => if row.rowid == rowid {
                    Ok(row.payload)
                } else {
                    self.find_from(i + 1, rowid)
                },
            }
        }
    }

    /// The child to descend into for `rowid`: the left child of the first
    /// cell from `i` on whose key is at least `rowid`, else the right-most
    /// child.
    pub open spec fn child_for(self, i: nat, rowid: i64) -> Result<u32, DbError>
        decreases self.header.n_cells - i,
    {
        if i >= self.header.n_cells {
            Ok(self.header.right_most)
        } else {
            match self.branch(i) {
                Err(e) => Err(e),
                Ok(cell) => if cell.key >= rowid {
                    Ok(cell.left_child)
                } else {
                    self.child_for(i + 1, rowid)
                },
            }
        }
    }
}

/// The rows of the table B-tree rooted at page `n`, in order: on a leaf
/// its cells in array order; on an interior page the rows under each left
/// child in array order, then those under the right-most child.
pub open spec fn table_rows(db: PagerView, n: u32, depth: nat) -> Result<Seq<RowView>, DbError>
    decreases depth, 0nat, 0nat,
{
    match page_at(db, n) {
        Err(e) => Err(e),
        Ok(page) => match page.header.kind {
            PageKind::TableLeaf => page.rows_from(0),
            PageKind::TableInterior => if depth == 0 {
                Err(DbError::Unsupported(Feature::Depth))
            } else {
                rows_under(db, page, 0, (depth - 1) as nat)
            },
            _ => Err(DbError::UnknownPageKind(page.header.kind_byte)),
        },
    }
}

/// The rows under the children of the interior page `page` from cell `i` on.
pub open spec fn rows_under(db: PagerView, page: PageView, i: nat, depth: nat) -> Result<
    Seq<RowView>,
    DbError,
>
    decreases depth, 1nat, page.header.n_cells - i,
{
    if i >= page.header.n_cells {
        table_rows(db, page.header.right_most, depth)
    } else {
        match page.branch(i) {
            Err(e) => Err(e),
            Ok(cell) => match table_rows(db, cell.left_child, depth) {
                Err(e) => Err(e),
                Ok(rows) => match rows_under(db, page, i + 1, depth) {
                    Err(e) => Err(e),
                    Ok(rest) => Ok(rows + rest),
                },
            },
        }
    }
}

/// What the point lookup of `rowid` in the tree rooted at page `n` gives:
/// the payload of the row, or `NotFound`.
pub open spec fn table_lookup(db: PagerView, n: u32, rowid: i64, depth: nat) -> Result<
    Seq<u8>,
    DbError,
>
    decreases depth,
{
    match page_at(db, n) {
        Err(e) => Err(e),
        Ok(page) => match page.header.kind {
            PageKind::TableLeaf => page.find_from(0, rowid),
            PageKind::TableInterior => if depth == 0 {
                Err(DbError::Unsupported(Feature::Depth))
            } else {
                match page.child_for(0, rowid) {
                    Err(e) => Err(e),
                    Ok(child) => table_lookup(db, child, rowid, (depth - 1) as nat),
                }
            },
            _ => Err(DbError::UnknownPageKind(page.header.kind_byte)),
        },
    }
}

/// The number of cells on the leaves of the tree rooted at page `n`.
pub open spec fn table_count(db: PagerView, n: u32, depth: nat) -> Result<nat, DbError>
    decreases depth, 0nat, 0nat,
{
    match page_at(db, n) {
        Err(e) => Err(e),
        Ok(page) => match page.header.kind {
            PageKind::TableLeaf => Ok(page.header.n_cells as nat),
            PageKind::TableInterior => if depth == 0 {
                Err(DbError::Unsupported(Feature::Depth))
            } else {
                count_under(db, page, 0, (depth - 1) as nat)
            },
            _ => Err(DbError::UnknownPageKind(page.header.kind_byte)),
        },
    }
}

/// The number of leaf cells under the children of `page` from cell `i` on.
pub open spec fn count_under(db: PagerView, page: PageView, i: nat, depth: nat) -> Result<
    nat,
    DbError,
>
    decreases depth, 1nat, page.header.n_cells - i,
{
    if i >= page.header.n_cells {
        table_count(db, page.header.right_most, depth)
    } else {
        match page.branch(i) {
            Err(e) => Err(e),
            Ok(cell) => match table_count(db, cell.left_child, depth) {
                Err(e) => Err(e),
                Ok(count) => match count_under(db, page, i + 1, depth) {
                    Err(e) => Err(e),
                    Ok(rest) => Ok(count + rest),
                },
            },
        }
    }
}

/// What the cells in `cells` hold.
pub open spec fn rows_of(cells: Seq<TableLeafCell<'_>>) -> Seq<RowView> {
    Seq::new(cells.len(), |i: int| cells[i]@)
}

proof fn lemma_rows_of_push(cells: Seq<TableLeafCell<'_>>, cell: TableLeafCell<'_>)
    ensures
        rows_of(cells.push(cell)) == rows_of(cells).push(cell@),
{
    assert(rows_of(cells.push(cell)) =~= rows_of(cells).push(cell@));
}

/// Reads page `n` and its header.
pub fn load_page<'a>(pager: &'a Pager, n: u32) -> (r: Result<(&'a [u8], PageHeader), DbError>)
    ensures
        r is Ok <==> page_at(pager@, n) is Ok,
        r matches Ok((bytes, header)) ==> page_at(pager@, n)->Ok_0 == (PageView {
            bytes: bytes@,
            header,
        }),
        r matches Err(e) ==> e == page_at(pager@, n)->Err_0,
{
    let bytes = match pager.read_area(n) {
        Err(e) => {
            return Err(e);
        },
        Ok(bytes) => bytes,
    };
    let start: usize = if n == 1 {
        HEADER_LEN
    } else {
        0
    };
    match read_page_header(bytes, start) {
        Err(e) => Err(e),
        Ok(header) => Ok((bytes, header)),
    }
}

/// Reads cell `i` of a table leaf.
fn read_row<'a>(bytes: &'a [u8], header: &PageHeader, i: u16) -> (r: Result<
    TableLeafCell<'a>,
    DbError,
>)
    ensures
        r is Ok <==> (PageView { bytes: bytes@, header: *header }).row(i as nat) is Ok,
        r matches Ok(cell) ==> cell@ == (PageView { bytes: bytes@, header: *header }).row(
            i as nat,
        )->Ok_0,
        r matches Err(e) ==> e == (PageView { bytes: bytes@, header: *header }).row(
            i as nat,
        )->Err_0,
{
    match read_cell_pointer(bytes, header, i) {
        Err(e) => Err(e),
        Ok(ptr) => read_table_leaf_cell(bytes, ptr),
    }
}

/// Reads cell `i` of a table interior page.
fn read_branch(bytes: &[u8], header: &PageHeader, i: u16) -> (r: Result<
    crate::page::TableInteriorCell,
    DbError,
>)
    ensures
        r == (PageView { bytes: bytes@, header: *header }).branch(i as nat),
{
    match read_cell_pointer(bytes, header, i) {
        Err(e) => Err(e),
        Ok(ptr) => read_table_interior_cell(bytes, ptr),
    }
}

/// Appends the rows of a table leaf to `out`.
fn scan_leaf<'a>(bytes: &'a [u8], header: &PageHeader, out: &mut Vec<TableLeafCell<'a>>) -> (r:
    Result<(), DbError>)
    ensures
        match (PageView { bytes: bytes@, header: *header }).rows_from(0) {
            Ok(rows) => r is Ok && rows_of(final(out)@) == rows_of(old(out)@) + rows,
            Err(e) => r == Err::<(), DbError>(e),
        },
{
    let ghost page = PageView { bytes: bytes@, header: *header };
    let ghost mut done: Seq<RowView> = Seq::empty();
    let mut i: u16 = 0;
    proof {
        assert(rows_of(out@) =~= rows_of(old(out)@) + done);
    }
    while i < header.n_cells
        invariant
            i <= header.n_cells,
            page == (PageView { bytes: bytes@, header: *header }),
            rows_of(out@) == rows_of(old(out)@) + done,
            match page.rows_from(i as nat) {
                Ok(rest) => page.rows_from(0) == Ok::<Seq<RowView>, DbError>(done + rest),
                Err(e) => page.rows_from(0) == Err::<Seq<RowView>, DbError>(e),
            },
        decreases header.n_cells - i,
    {
        match read_row(bytes, header, i) {
            Err(e) => {
                return Err(e);
            },
            Ok(cell) => {
                proof {
                    if let Ok(rest) = page.rows_from((i + 1) as nat) {
                        assert(done.push(cell@) + rest =~= done + (seq![cell@] + rest));
                    }
                    lemma_rows_of_push(out@, cell);
                    assert(rows_of(out@.push(cell)) =~= rows_of(old(out)@) + done.push(cell@));
                    done = done.push(cell@);
                }
                out.push(cell);
                i += 1;
            },
        }
    }
    proof {
        assert(done + Seq::<RowView>::empty() =~= done);
    }
    Ok(())
}

/// Appends the rows of the tree rooted at page `n` to `out`.
#[verifier::loop_isolation(false)]
fn scan_page<'a>(pager: &'a Pager, n: u32, depth: usize, out: &mut Vec<TableLeafCell<'a>>) -> (r:
    Result<(), DbError>)
    ensures
        match table_rows(pager@, n, depth as nat) {
            Ok(rows) => r is Ok && rows_of(final(out)@) == rows_of(old(out)@) + rows,
            Err(e) => r == Err::<(), DbError>(e),
        },
    decreases depth,
{
    let (bytes, header) = match load_page(pager, n) {
        Err(e) => {
            return Err(e);
        },
        Ok(pair) => pair,
    };
    let ghost page = PageView { bytes: bytes@, header };
    match header.kind {
        PageKind::TableLeaf => scan_leaf(bytes, &header, out),
        PageKind::TableInterior => {
            if depth == 0 {
                return Err(DbError::Unsupported(Feature::Depth));
            }
            let ghost mut done: Seq<RowView> = Seq::empty();
            let ghost d = (depth - 1) as nat;
            let mut i: u16 = 0;
            proof {
                assert(rows_of(out@) =~= rows_of(old(out)@) + done);
            }
            while i < header.n_cells
                invariant
                    i <= header.n_cells,
                    depth > 0,
                    d == depth - 1,
                    page == (PageView { bytes: bytes@, header }),
                    rows_of(out@) == rows_of(old(out)@) + done,
                    match rows_under(pager@, page, i as nat, d) {
                        Ok(rest) => rows_under(pager@, page, 0, d) == Ok::<Seq<RowView>, DbError>(
                            done + rest,
                        ),
                        Err(e) => rows_under(pager@, page, 0, d) == Err::<Seq<RowView>, DbError>(e),
                    },
                decreases header.n_cells - i,
            {
                let cell = match read_branch(bytes, &header, i) {
                    Err(e) => {
                        return Err(e);
                    },
                    Ok(cell) => cell,
                };
                let ghost before = rows_of(out@);
                match scan_page(pager, cell.left_child, depth - 1, out) {
                    Err(e) => {
                        return Err(e);
                    },
                    Ok(()) => {},
                }
                proof {
                    let rows = table_rows(pager@, cell.left_child, d)->Ok_0;
                    if let Ok(rest) = rows_under(pager@, page, (i + 1) as nat, d) {
                        assert((done + rows) + rest =~= done + (rows + rest));
                    }
                    assert(rows_of(out@) =~= rows_of(old(out)@) + (done + rows));
                    done = done + rows;
                }
                i += 1;
            }
            let ghost before = rows_of(out@);
            match scan_page(pager, header.right_most, depth - 1, out) {
                Err(e) => Err(e),
                Ok(()) => {
                    proof {
                        let rows = table_rows(pager@, header.right_most, d)->Ok_0;
                        assert(rows_of(final(out)@) =~= rows_of(old(out)@) + (done + rows));
                    }
                    Ok(())
                },
            }
        },
        _ => Err(DbError::UnknownPageKind(header.kind_byte)),
    }
}

/// The rows of the table B-tree rooted at page `root`, in key order.
pub fn scan_table<'a>(pager: &'a Pager, root: u32) -> (r: Result<Vec<TableLeafCell<'a>>, DbError>)
    ensures
        match table_rows(pager@, root, MAX_DEPTH as nat) {
            Ok(rows) => r is Ok && rows_of(r->Ok_0@) == rows,
            Err(e) => r is Err && r->Err_0 == e,
        },
{
    let mut out: Vec<TableLeafCell<'a>> = Vec::new();
    match scan_page(pager, root, MAX_DEPTH, &mut out) {
        Err(e) => Err(e),
        Ok(()) => {
            proof {
                let rows = table_rows(pager@, root, MAX_DEPTH as nat)->Ok_0;
                assert(rows_of(Seq::<TableLeafCell<'a>>::empty()) + rows =~= rows);
            }
            Ok(out)
        },
    }
}

/// Finds the cell of a table leaf whose rowid is `rowid`.
fn find_in_leaf<'a>(bytes: &'a [u8], header: &PageHeader, rowid: i64) -> (r: Result<
    &'a [u8],
    DbError,
>)
    ensures
        r is Ok <==> (PageView { bytes: bytes@, header: *header }).find_from(0, rowid) is Ok,
        r matches Ok(p) ==> p@ == (PageView { bytes: bytes@, header: *header }).find_from(
            0,
            rowid,
        )->Ok_0,
        r matches Err(e) ==> e == (PageView { bytes: bytes@, header: *header }).find_from(
            0,
            rowid,
        )->Err_0,
{
    let ghost page = PageView { bytes: bytes@, header: *header };
    let mut i: u16 = 0;
    while i < header.n_cells
        invariant
            i <= header.n_cells,
            page == (PageView { bytes: bytes@, header: *header }),
            page.find_from(0, rowid) == page.find_from(i as nat, rowid),
        decreases header.n_cells - i,
    {
        match read_row(bytes, header, i) {
            Err(e) => {
                return Err(e);
            },
            Ok(cell) => {
                if cell.rowid == rowid {
                    return Ok(cell.payload);
                }
            },
        }
        i += 1;
    }
    Err(DbError::NotFound)
}

/// Picks the child of a table interior page to descend into for `rowid`.
fn pick_child(bytes: &[u8], header: &PageHeader, rowid: i64) -> (r: Result<u32, DbError>)
    ensures
        r == (PageView { bytes: bytes@, header: *header }).child_for(0, rowid),
{
    let ghost page = PageView { bytes: bytes@, header: *header };
    let mut i: u16 = 0;
    while i < header.n_cells
        invariant
            i <= header.n_cells,
            page == (PageView { bytes: bytes@, header: *header }),
            page.child_for(0, rowid) == page.child_for(i as nat, rowid),
        decreases header.n_cells - i,
    {
        match read_branch(bytes, header, i) {
            Err(e) => {
                return Err(e);
            },
            Ok(cell) => {
                if cell.key >= rowid {
                    return Ok(cell.left_child);
                }
            },
        }
        i += 1;
    }
    Ok(header.right_most)
}

/// Looks `rowid` up in the tree rooted at page `n`.
fn lookup_page<'a>(pager: &'a Pager, n: u32, rowid: i64, depth: usize) -> (r: Result<
    &'a [u8],
    DbError,
>)
    ensures
        r is Ok <==> table_lookup(pager@, n, rowid, depth as nat) is Ok,
        r matches Ok(p) ==> p@ == table_lookup(pager@, n, rowid, depth as nat)->Ok_0,
        r matches Err(e) ==> e == table_lookup(pager@, n, rowid, depth as nat)->Err_0,
    decreases depth,
{
    let (bytes, header) = match load_page(pager, n) {
        Err(e) => {
            return Err(e);
        },
        Ok(pair) => pair,
    };
    match header.kind {
        PageKind::TableLeaf => find_in_leaf(bytes, &header, rowid),
        PageKind::TableInterior => {
            if depth == 0 {
                return Err(DbError::Unsupported(Feature::Depth));
            }
            match pick_child(bytes, &header, rowid) {
                Err(e) => Err(e),
                Ok(child) => lookup_page(pager, child, rowid, depth - 1),
            }
        },
        _ => Err(DbError::UnknownPageKind(header.kind_byte)),
    }
}

/// The payload of the row with rowid `rowid` in the table B-tree rooted at
/// page `root`. On an interior page the first cell whose key is at least
/// `rowid` gives the child to descend into, else the right-most child; on a
/// leaf the cells are searched in array order. A rowid that is not there
/// gives `NotFound`.
pub fn lookup_rowid<'a>(pager: &'a Pager, root: u32, rowid: i64) -> (r: Result<&'a [u8], DbError>)
    ensures
        r is Ok <==> table_lookup(pager@, root, rowid, MAX_DEPTH as nat) is Ok,
        r matches Ok(p) ==> p@ == table_lookup(pager@, root, rowid, MAX_DEPTH as nat)->Ok_0,
        r matches Err(e) ==> e == table_lookup(pager@, root, rowid, MAX_DEPTH as nat)->Err_0,
{
    lookup_page(pager, root, rowid, MAX_DEPTH)
}

/// `count`, or the largest 64-bit number where `count` is larger.
pub open spec fn capped(count: nat) -> u64 {
    if count > u64::MAX {
        u64::MAX
    } else {
        count as u64
    }
}

/// Counts the leaf cells of the tree rooted at page `n`.
#[verifier::loop_isolation(false)]
fn count_page(pager: &Pager, n: u32, depth: usize) -> (r: Result<u64, DbError>)
    ensures
        match table_count(pager@, n, depth as nat) {
            Ok(count) => r == Ok::<u64, DbError>(capped(count)),
            Err(e) => r == Err::<u64, DbError>(e),
        },
    decreases depth,
{
    let (bytes, header) = match load_page(pager, n) {
        Err(e) => {
            return Err(e);
        },
        Ok(pair) => pair,
    };
    let ghost page = PageView { bytes: bytes@, header };
    match header.kind {
        PageKind::TableLeaf => Ok(header.n_cells as u64),
        PageKind::TableInterior => {
            if depth == 0 {
                return Err(DbError::Unsupported(Feature::Depth));
            }
            let ghost d = (depth - 1) as nat;
            let ghost mut done: nat = 0;
            let mut total: u64 = 0;
            let mut i: u16 = 0;
            while i < header.n_cells
                invariant
                    i <= header.n_cells,
                    total == capped(done),
                    match count_under(pager@, page, i as nat, d) {
                        Ok(rest) => count_under(pager@, page, 0, d) == Ok::<nat, DbError>(
                            done + rest,
                        ),
                        Err(e) => count_under(pager@, page, 0, d) == Err::<nat, DbError>(e),
                    },
                decreases header.n_cells - i,
            {
                let cell = match read_branch(bytes, &header, i) {
                    Err(e) => {
                        return Err(e);
                    },
                    Ok(cell) => cell,
                };
                let count: u64 = match count_page(pager, cell.left_child, depth - 1) {
                    Err(e) => {
                        return Err(e);
                    },
                    Ok(count) => count,
                };
                proof {
                    done = done + table_count(pager@, cell.left_child, d)->Ok_0;
                }
                total = total.saturating_add(count);
                i += 1;
            }
            match count_page(pager, header.right_most, depth - 1) {
                Err(e) => Err(e),
                Ok(count) => Ok(total.saturating_add(count)),
            }
        },
        _ => Err(DbError::UnknownPageKind(header.kind_byte)),
    }
}

/// The number of rows of the table B-tree rooted at page `root`: the cells
/// of its leaves, read from the page headers alone. A count that does not
/// fit 64 bits is given as the largest 64-bit number.
pub fn count_rows(pager: &Pager, root: u32) -> (r: Result<u64, DbError>)
    ensures
        match table_count(pager@, root, MAX_DEPTH as nat) {
            Ok(count) => r == Ok::<u64, DbError>(capped(count)),
            Err(e) => r == Err::<u64, DbError>(e),
        },
{
    count_page(pager, root, MAX_DEPTH)
}

impl PageView {
    /// The rows of the cells of a table leaf from cell `i` on, but no more
    /// than `limit`; behind the last row taken no cell is read.
    pub open spec fn rows_upto(self, i: nat, limit: nat) -> Result<Seq<RowView>, DbError>
        decreases self.header.n_cells - i,
    {
        if i >= self.header.n_cells || limit == 0 {
            Ok(Seq::empty())
        } else {
            match self.row(i) {
                Err(e) => Err(e),
                Ok(row) => match self.rows_upto(i + 1, (limit - 1) as nat) {
                    Err(e) => Err(e),
                    Ok(rest) => Ok(seq![row] + rest),
                },
            }
        }
    }
}

/// The first rows of the table B-tree rooted at page `n`, in order, but no
/// more than `limit`: the walk halts with the row that fills the limit,
/// and no page or cell behind that row is read.
pub open spec fn first_rows(db: PagerView, n: u32, depth: nat, limit: nat) -> Result<
    Seq<RowView>,
    DbError,
>
    decreases depth, 0nat, 0nat,
{
    if limit == 0 {
        Ok(Seq::empty())
    } else {
        match page_at(db, n) {
            Err(e) => Err(e),
            Ok(page) => match page.header.kind {
                PageKind::TableLeaf => page.rows_upto(0, limit),
                PageKind::TableInterior => if depth == 0 {
                    Err(DbError::Unsupported(Feature::Depth))
                } else {
                    first_rows_under(db, page, 0, (depth - 1) as nat, limit)
                },
                _ => Err(DbError::UnknownPageKind(page.header.kind_byte)),
            },
        }
    }
}

/// The first rows under the children of the interior page `page` from
/// cell `i` on, but no more than `limit`.
pub open spec fn first_rows_under(
    db: PagerView,
    page: PageView,
    i: nat,
    depth: nat,
    limit: nat,
) -> Result<Seq<RowView>, DbError>
    decreases depth, 1nat, page.header.n_cells - i,
{
    if limit == 0 {
        Ok(Seq::empty())
    } else if i >= page.header.n_cells {
        first_rows(db, page.header.right_most, depth, limit)
    } else {
        match page.branch(i) {
            Err(e) => Err(e),
            Ok(cell) => match first_rows(db, cell.left_child, depth, limit) {
                Err(e) => Err(e),
                Ok(rows) => if rows.len() >= limit {
                    Ok(rows)
                } else {
                    match first_rows_under(db, page, i + 1, depth, (limit - rows.len()) as nat) {
                        Err(e) => Err(e),
                        Ok(rest) => Ok(rows + rest),
                    }
                },
            },
        }
    }
}

/// The first `limit` of `rows`, or all of them where they are fewer.
pub open spec fn prefix(rows: Seq<RowView>, limit: nat) -> Seq<RowView> {
    if limit >= rows.len() {
        rows
    } else {
        rows.take(limit as int)
    }
}

/// Appends the first rows of a table leaf to `out`, no more than `limit`.
fn take_leaf<'a>(
    bytes: &'a [u8],
    header: &PageHeader,
    limit: usize,
    out: &mut Vec<TableLeafCell<'a>>,
) -> (r: Result<(), DbError>)
    ensures
        match (PageView { bytes: bytes@, header: *header }).rows_upto(0, limit as nat) {
            Ok(rows) => r is Ok && rows_of(final(out)@) == rows_of(old(out)@) + rows && rows.len()
                <= limit && final(out)@.len() == old(out)@.len() + rows.len(),
            Err(e) => r == Err::<(), DbError>(e),
        },
{
    let ghost page = PageView { bytes: bytes@, header: *header };
    let ghost mut done: Seq<RowView> = Seq::empty();
    let mut i: u16 = 0;
    let mut taken: usize = 0;
    proof {
        assert(rows_of(out@) =~= rows_of(old(out)@) + done);
    }
    while i < header.n_cells && taken < limit
        invariant
            i <= header.n_cells,
            taken <= limit,
            taken == done.len(),
            out@.len() == old(out)@.len() + taken,
            page == (PageView { bytes: bytes@, header: *header }),
            rows_of(out@) == rows_of(old(out)@) + done,
            match page.rows_upto(i as nat, (limit - taken) as nat) {
                Ok(rest) => page.rows_upto(0, limit as nat) == Ok::<Seq<RowView>, DbError>(
                    done + rest,
                ),
                Err(e) => page.rows_upto(0, limit as nat) == Err::<Seq<RowView>, DbError>(e),
            },
        decreases header.n_cells - i,
    {
        match read_row(bytes, header, i) {
            Err(e) => {
                return Err(e);
            },
            Ok(cell) => {
                proof {
                    if let Ok(rest) = page.rows_upto((i + 1) as nat, (limit - taken - 1) as nat) {
                        assert(done.push(cell@) + rest =~= done + (seq![cell@] + rest));
                    }
                    lemma_rows_of_push(out@, cell);
                    assert(rows_of(out@.push(cell)) =~= rows_of(old(out)@) + done.push(cell@));
                    done = done.push(cell@);
                }
                out.push(cell);
                taken += 1;
                i += 1;
            },
        }
    }
    proof {
        assert(done + Seq::<RowView>::empty() =~= done);
    }
    Ok(())
}

/// Appends the first rows of the tree rooted at page `n` to `out`, no more
/// than `limit`.
fn take_page<'a>(
    pager: &'a Pager,
    n: u32,
    depth: usize,
    limit: usize,
    out: &mut Vec<TableLeafCell<'a>>,
) -> (r: Result<(), DbError>)
    ensures
        match first_rows(pager@, n, depth as nat, limit as nat) {
            Ok(rows) => r is Ok && rows_of(final(out)@) == rows_of(old(out)@) + rows && rows.len()
                <= limit && final(out)@.len() == old(out)@.len() + rows.len(),
            Err(e) => r == Err::<(), DbError>(e),
        },
    decreases depth, 0nat,
{
    if limit == 0 {
        proof {
            assert(rows_of(out@) + Seq::<RowView>::empty() =~= rows_of(out@));
        }
        return Ok(());
    }
    let (bytes, header) = match load_page(pager, n) {
        Err(e) => {
            return Err(e);
        },
        Ok(pair) => pair,
    };
    match header.kind {
        PageKind::TableLeaf => take_leaf(bytes, &header, limit, out),
        PageKind::TableInterior => {
            if depth == 0 {
                return Err(DbError::Unsupported(Feature::Depth));
            }
            take_interior(pager, bytes, &header, depth - 1, limit, out)
        },
        _ => Err(DbError::UnknownPageKind(header.kind_byte)),
    }
}

/// Appends the first rows under an interior page to `out`, no more than
/// `limit`.
fn take_interior<'a>(
    pager: &'a Pager,
    bytes: &'a [u8],
    header: &PageHeader,
    depth: usize,
    limit: usize,
    out: &mut Vec<TableLeafCell<'a>>,
) -> (r: Result<(), DbError>)
    ensures
        match first_rows_under(
            pager@,
            PageView { bytes: bytes@, header: *header },
            0,
            depth as nat,
            limit as nat,
        ) {
            Ok(rows) => r is Ok && rows_of(final(out)@) == rows_of(old(out)@) + rows && rows.len()
                <= limit && final(out)@.len() == old(out)@.len() + rows.len(),
            Err(e) => r == Err::<(), DbError>(e),
        },
    decreases depth, 1nat,
{
    let ghost page = PageView { bytes: bytes@, header: *header };
    let ghost d = depth as nat;
    let ghost mut done: Seq<RowView> = Seq::empty();
    let mut left: usize = limit;
    let mut i: u16 = 0;
    proof {
        assert(rows_of(out@) =~= rows_of(old(out)@) + done);
    }
    while i < header.n_cells && left > 0
        invariant
            i <= header.n_cells,
            d == depth,
            left + done.len() == limit,
            out@.len() == old(out)@.len() + done.len(),
            page == (PageView { bytes: bytes@, header: *header }),
            rows_of(out@) == rows_of(old(out)@) + done,
            match first_rows_under(pager@, page, i as nat, d, left as nat) {
                Ok(rest) => first_rows_under(pager@, page, 0, d, limit as nat) == Ok::<
                    Seq<RowView>,
                    DbError,
                >(done + rest),
                Err(e) => first_rows_under(pager@, page, 0, d, limit as nat) == Err::<
                    Seq<RowView>,
                    DbError,
                >(e),
            },
        decreases header.n_cells - i,
    {
        let cell = match read_branch(bytes, header, i) {
            Err(e) => {
                return Err(e);
            },
            Ok(cell) => cell,
        };
        let before: usize = out.len();
        match take_page(pager, cell.left_child, depth, left, out) {
            Err(e) => {
                return Err(e);
            },
            Ok(()) => {},
        }
        let got: usize = out.len() - before;
        proof {
            let rows = first_rows(pager@, cell.left_child, d, left as nat)->Ok_0;
            assert(got == rows.len());
            if rows.len() < left {
                if let Ok(rest) = first_rows_under(
                    pager@,
                    page,
                    (i + 1) as nat,
                    d,
                    (left - rows.len()) as nat,
                ) {
                    assert((done + rows) + rest =~= done + (rows + rest));
                }
            } else {
                assert((done + rows) + Seq::<RowView>::empty() =~= done + rows);
            }
            assert(rows_of(out@) =~= rows_of(old(out)@) + (done + rows));
            done = done + rows;
        }
        left = left - got;
        i += 1;
    }
    if left == 0 {
        proof {
            assert(done + Seq::<RowView>::empty() =~= done);
        }
        return Ok(());
    }
    match take_page(pager, header.right_most, depth, left, out) {
        Err(e) => Err(e),
        Ok(()) => {
            proof {
                let rows = first_rows(pager@, header.right_most, d, left as nat)->Ok_0;
                assert(rows_of(final(out)@) =~= rows_of(old(out)@) + (done + rows));
            }
            Ok(())
        },
    }
}

/// The first rows of the table B-tree rooted at page `root`, in key
/// order, but no more than `limit`. The walk halts with the row that fills
/// the limit: what lies behind it is not read, and a fault there is not
/// met.
pub fn scan_table_limit<'a>(pager: &'a Pager, root: u32, limit: usize) -> (r: Result<
    Vec<TableLeafCell<'a>>,
    DbError,
>)
    ensures
        match first_rows(pager@, root, MAX_DEPTH as nat, limit as nat) {
            Ok(rows) => r is Ok && rows_of(r->Ok_0@) == rows && rows.len() <= limit,
            Err(e) => r is Err && r->Err_0 == e,
        },
{
    let mut out: Vec<TableLeafCell<'a>> = Vec::new();
    match take_page(pager, root, MAX_DEPTH, limit, &mut out) {
        Err(e) => Err(e),
        Ok(()) => {
            proof {
                let rows = first_rows(pager@, root, MAX_DEPTH as nat, limit as nat)->Ok_0;
                assert(rows_of(Seq::<TableLeafCell<'a>>::empty()) + rows =~= rows);
            }
            Ok(out)
        },
    }
}

} // verus!
