//! Walking index B-trees: the equality scan that yields rowids.
//!
//! An index entry is a record whose first column is the indexed key and
//! whose second column is the rowid of the table row. Keys are compared
//! byte by byte with ASCII case folded.

use vstd::prelude::*;
use crate::btree::{PageView, page_at, load_page, MAX_DEPTH};
use crate::error::{DbError, Feature, RecordFault};
use crate::page::{
    PageHeader, PageKind, cell_pointer, index_interior_cell, index_leaf_cell, read_cell_pointer,
    read_index_interior_cell, read_index_leaf_cell,
};
use crate::pager::{Pager, PagerView};
use crate::record::{decode_record, parse_record};
use crate::text::{KeyOrder, key_order, order_keys};

verus! {

/// An entry of an index: the bytes of the indexed key and the rowid it
/// belongs to.
pub struct IndexEntry {
    pub key: Seq<u8>,
    pub rowid: i64,
}

/// An entry of an index with the child left of it (0 on a leaf).
pub struct Branch {
    pub left_child: u32,
    pub entry: IndexEntry,
}

/// The index entry that the record in `payload` holds: the bytes of its
/// first column, whatever the class, and its second column as an integer.
pub open spec fn index_entry(payload: Seq<u8>) -> Result<IndexEntry, DbError> {
    match parse_record(payload) {
        Err(e) => Err(e),
        Ok(record) => if record.serial_types.len() < 1 {
            Err(DbError::MalformedRecord(RecordFault::NoSuchColumn))
        } else {
            match record.integer(1) {
                Err(e) => Err(e),
                Ok(rowid) => Ok(IndexEntry { key: record.column_bytes(0), rowid }),
            }
        },
    }
}

/// Cell `i` of the index page `page` with its entry decoded.
#[verifier::opaque]
pub open spec fn index_cell(page: PageView, i: nat) -> Result<Branch, DbError> {
    match cell_pointer(page.bytes, page.header, i) {
        Err(e) => Err(e),
        Ok(ptr) => {
            let cell = if page.header.kind == PageKind::IndexInterior {
                index_interior_cell(page.bytes, ptr as nat)
            } else {
                index_leaf_cell(page.bytes, ptr as nat)
            };
            match cell {
                Err(e) => Err(e),
                Ok(raw) => match index_entry(raw.payload) {
                    Err(e) => Err(e),
                    Ok(entry) => Ok(Branch { left_child: raw.left_child, entry }),
                },
            }
        },
    }
}

/// The rowids of the entries of an index leaf from cell `i` on whose key
/// equals `key`; the search stops at the first key above `key`.
pub open spec fn leaf_matches(page: PageView, i: nat, key: Seq<u8>) -> Result<Seq<i64>, DbError>
    decreases page.header.n_cells - i,
{
    if i >= page.header.n_cells {
        Ok(Seq::empty())
    } else {
        match index_cell(page, i) {
            Err(e) => Err(e),
            Ok(cell) => match key_order(key, cell.entry.key) {
                KeyOrder::Less => Ok(Seq::empty()),
                KeyOrder::Greater => leaf_matches(page, i + 1, key),
                KeyOrder::Equal => match leaf_matches(page, i + 1, key) {
                    Err(e) => Err(e),
                    Ok(rest) => Ok(seq![cell.entry.rowid] + rest),
                },
            },
        }
    }
}

/// What the equality scan of the index B-tree rooted at page `n` yields
/// for `key`.
pub open spec fn index_matches(db: PagerView, n: u32, key: Seq<u8>, depth: nat) -> Result<
    Seq<i64>,
    DbError,
>
    decreases depth, 0nat, 0nat,
{
    match page_at(db, n) {
        Err(e) => Err(e),
        Ok(page) => match page.header.kind {
            PageKind::IndexLeaf => leaf_matches(page, 0, key),
            PageKind::IndexInterior => if depth == 0 {
                Err(DbError::Unsupported(Feature::Depth))
            } else {
                matches_under(db, page, 0, key, (depth - 1) as nat)
            },
            _ => Err(DbError::UnknownPageKind(page.header.kind_byte)),
        },
    }
}

/// What the equality scan yields from cell `i` of the interior page `page`
/// on. A cell whose key is above `key` sends the scan into its left child
/// and ends it. A cell whose key equals `key` gives what is under its left
/// child, then its own rowid, and the scan goes on. A cell whose key is
/// below `key` is passed over. Behind the last cell the scan descends into
/// the right-most child.
pub open spec fn matches_under(
    db: PagerView,
    page: PageView,
    i: nat,
    key: Seq<u8>,
    depth: nat,
) -> Result<Seq<i64>, DbError>
    decreases depth, 1nat, page.header.n_cells - i,
{
    if i >= page.header.n_cells {
        index_matches(db, page.header.right_most, key, depth)
    } else {
        match index_cell(page, i) {
            Err(e) => Err(e),
            Ok(cell) => match key_order(key, cell.entry.key) {
                KeyOrder::Less => index_matches(db, cell.left_child, key, depth),
                KeyOrder::Greater => matches_under(db, page, i + 1, key, depth),
                KeyOrder::Equal => match index_matches(db, cell.left_child, key, depth) {
                    Err(e) => Err(e),
                    Ok(left) => match matches_under(db, page, i + 1, key, depth) {
                        Err(e) => Err(e),
                        Ok(rest) => Ok(left.push(cell.entry.rowid) + rest),
                    },
                },
            },
        }
    }
}

/// Decodes the index entry that the record in `payload` holds: its key
/// bytes and its rowid.
pub fn read_index_entry<'a>(payload: &'a [u8]) -> (r: Result<(&'a [u8], i64), DbError>)
    ensures
        r is Ok <==> index_entry(payload@) is Ok,
        r matches Ok((key, rowid)) ==> index_entry(payload@)->Ok_0 == (IndexEntry {
            key: key@,
            rowid,
        }),
        r matches Err(e) ==> e == index_entry(payload@)->Err_0,
{
    let record = match decode_record(payload) {
        Err(e) => {
            return Err(e);
        },
        Ok(record) => record,
    };
    if record.column_count() < 1 {
        return Err(DbError::MalformedRecord(RecordFault::NoSuchColumn));
    }
    let rowid: i64 = match record.as_integer(1) {
        Err(e) => {
            return Err(e);
        },
        Ok(rowid) => rowid,
    };
    match record.column_bytes(0) {
        Err(e) => Err(e),
        Ok(key) => Ok((key, rowid)),
    }
}

/// Reads cell `i` of an index page and decodes its entry: the left child
/// (0 on a leaf), the key bytes and the rowid.
fn read_index_cell<'a>(bytes: &'a [u8], header: &PageHeader, i: u16) -> (r: Result<
    (u32, &'a [u8], i64),
    DbError,
>)
    requires
        header.kind == PageKind::IndexInterior || header.kind == PageKind::IndexLeaf,
    ensures
        r is Ok <==> index_cell(PageView { bytes: bytes@, header: *header }, i as nat) is Ok,
        r matches Ok((child, key, rowid)) ==> index_cell(
            PageView { bytes: bytes@, header: *header },
            i as nat,
        )->Ok_0 == (Branch { left_child: child, entry: IndexEntry { key: key@, rowid } }),
        r matches Err(e) ==> e == index_cell(
            PageView { bytes: bytes@, header: *header },
            i as nat,
        )->Err_0,
{
    reveal(index_cell);
    let ptr: u16 = match read_cell_pointer(bytes, header, i) {
        Err(e) => {
            return Err(e);
        },
        Ok(ptr) => ptr,
    };
    let interior: bool = match header.kind {
        PageKind::IndexInterior => true,
        _ => false,
    };
    let (child, payload) = if interior {
        match read_index_interior_cell(bytes, ptr) {
            Err(e) => {
                return Err(e);
            },
            Ok(cell) => (cell.left_child, cell.payload),
        }
    } else {
        match read_index_leaf_cell(bytes, ptr) {
            Err(e) => {
                return Err(e);
            },
            Ok(cell) => (0u32, cell.payload),
        }
    };
    match read_index_entry(payload) {
        Err(e) => Err(e),
        Ok((key, rowid)) => Ok((child, key, rowid)),
    }
}

/// Appends to `out` what the equality scan yields on an index leaf.
fn match_leaf(bytes: &[u8], header: &PageHeader, key: &[u8], out: &mut Vec<i64>) -> (r: Result<
    (),
    DbError,
>)
    requires
        header.kind == PageKind::IndexLeaf,
    ensures
        match leaf_matches(PageView { bytes: bytes@, header: *header }, 0, key@) {
            Ok(ids) => r is Ok && final(out)@ == old(out)@ + ids,
            Err(e) => r == Err::<(), DbError>(e),
        },
{
    let ghost page = PageView { bytes: bytes@, header: *header };
    let ghost mut done: Seq<i64> = Seq::empty();
    let mut i: u16 = 0;
    proof {
        assert(out@ =~= old(out)@ + done);
    }
    while i < header.n_cells
        invariant
            i <= header.n_cells,
            header.kind == PageKind::IndexLeaf,
            page == (PageView { bytes: bytes@, header: *header }),
            out@ == old(out)@ + done,
            match leaf_matches(page, i as nat, key@) {
                Ok(rest) => leaf_matches(page, 0, key@) == Ok::<Seq<i64>, DbError>(done + rest),
                Err(e) => leaf_matches(page, 0, key@) == Err::<Seq<i64>, DbError>(e),
            },
        decreases header.n_cells - i,
    {
        let (_, cell_key, rowid) = match read_index_cell(bytes, header, i) {
            Err(e) => {
                return Err(e);
            },
            Ok(cell) => cell,
        };
        match order_keys(key, cell_key) {
            KeyOrder::Less => {
                proof {
                    assert(done + Seq::<i64>::empty() =~= done);
                }
                return Ok(());
            },
            KeyOrder::Greater => {},
            KeyOrder::Equal => {
                proof {
                    if let Ok(rest) = leaf_matches(page, (i + 1) as nat, key@) {
                        assert(done.push(rowid) + rest =~= done + (seq![rowid] + rest));
                    }
                    assert(out@.push(rowid) =~= old(out)@ + done.push(rowid));
                    done = done.push(rowid);
                }
                out.push(rowid);
            },
        }
        i += 1;
    }
    proof {
        assert(done + Seq::<i64>::empty() =~= done);
    }
    Ok(())
}

/// Appends to `out` what the equality scan yields in the tree rooted at
/// page `n`.
fn match_page(pager: &Pager, n: u32, key: &[u8], depth: usize, out: &mut Vec<i64>) -> (r: Result<
    (),
    DbError,
>)
    ensures
        match index_matches(pager@, n, key@, depth as nat) {
            Ok(ids) => r is Ok && final(out)@ == old(out)@ + ids,
            Err(e) => r == Err::<(), DbError>(e),
        },
    decreases depth, 0nat,
{
    let (bytes, header) = match load_page(pager, n) {
        Err(e) => {
            return Err(e);
        },
        Ok(pair) => pair,
    };
    match header.kind {
        PageKind::IndexLeaf => match_leaf(bytes, &header, key, out),
        PageKind::IndexInterior => {
            if depth == 0 {
                return Err(DbError::Unsupported(Feature::Depth));
            }
            match_interior(pager, bytes, &header, key, depth - 1, out)
        },
        _ => Err(DbError::UnknownPageKind(header.kind_byte)),
    }
}

/// Appends to `out` what the equality scan yields under an interior page.
fn match_interior(
    pager: &Pager,
    bytes: &[u8],
    header: &PageHeader,
    key: &[u8],
    depth: usize,
    out: &mut Vec<i64>,
) -> (r: Result<(), DbError>)
    requires
        header.kind == PageKind::IndexInterior,
    ensures
        match matches_under(
            pager@,
            PageView { bytes: bytes@, header: *header },
            0,
            key@,
            depth as nat,
        ) {
            Ok(ids) => r is Ok && final(out)@ == old(out)@ + ids,
            Err(e) => r == Err::<(), DbError>(e),
        },
    decreases depth, 1nat,
{
    let ghost page = PageView { bytes: bytes@, header: *header };
    let ghost d = depth as nat;
    let ghost mut done: Seq<i64> = Seq::empty();
    let mut i: u16 = 0;
    proof {
        assert(out@ =~= old(out)@ + done);
    }
    while i < header.n_cells
        invariant
            i <= header.n_cells,
            header.kind == PageKind::IndexInterior,
            page == (PageView { bytes: bytes@, header: *header }),
            d == depth,
            out@ == old(out)@ + done,
            match matches_under(pager@, page, i as nat, key@, d) {
                Ok(rest) => matches_under(pager@, page, 0, key@, d) == Ok::<Seq<i64>, DbError>(
                    done + rest,
                ),
                Err(e) => matches_under(pager@, page, 0, key@, d) == Err::<Seq<i64>, DbError>(e),
            },
        decreases header.n_cells - i,
    {
        let (child, cell_key, rowid) = match read_index_cell(bytes, header, i) {
            Err(e) => {
                return Err(e);
            },
            Ok(cell) => cell,
        };
        let ghost before = out@;
        match order_keys(key, cell_key) {
            KeyOrder::Less => {
                match match_page(pager, child, key, depth, out) {
                    Err(e) => {
                        return Err(e);
                    },
                    Ok(()) => {
                        proof {
                            let left = index_matches(pager@, child, key@, d)->Ok_0;
                            assert(out@ =~= old(out)@ + (done + left));
                        }
                        return Ok(());
                    },
                }
            },
            KeyOrder::Greater => {},
            KeyOrder::Equal => {
                match match_page(pager, child, key, depth, out) {
                    Err(e) => {
                        return Err(e);
                    },
                    Ok(()) => {},
                }
                proof {
                    let left = index_matches(pager@, child, key@, d)->Ok_0;
                    let mine = left.push(rowid);
                    if let Ok(rest) = matches_under(pager@, page, (i + 1) as nat, key@, d) {
                        assert((done + mine) + rest =~= done + (mine + rest));
                    }
                    assert(out@.push(rowid) =~= old(out)@ + (done + mine));
                    done = done + mine;
                }
                out.push(rowid);
            },
        }
        i += 1;
    }
    match match_page(pager, header.right_most, key, depth, out) {
        Err(e) => Err(e),
        Ok(()) => {
            proof {
                let last = index_matches(pager@, header.right_most, key@, d)->Ok_0;
                assert(final(out)@ =~= old(out)@ + (done + last));
            }
            Ok(())
        },
    }
}

/// The rowids of the entries of the index B-tree rooted at page `root`
/// whose key equals `key`, in index order.
pub fn scan_index_eq(pager: &Pager, root: u32, key: &[u8]) -> (r: Result<Vec<i64>, DbError>)
    ensures
        match index_matches(pager@, root, key@, MAX_DEPTH as nat) {
            Ok(ids) => r is Ok && r->Ok_0@ == ids,
            Err(e) => r is Err && r->Err_0 == e,
        },
{
    let mut out: Vec<i64> = Vec::new();
    match match_page(pager, root, key, MAX_DEPTH, &mut out) {
        Err(e) => Err(e),
        Ok(()) => {
            proof {
                let ids = index_matches(pager@, root, key@, MAX_DEPTH as nat)->Ok_0;
                assert(Seq::<i64>::empty() + ids =~= ids);
            }
            Ok(out)
        },
    }
}

} // verus!
