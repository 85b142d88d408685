//! B-tree pages: the page header, the cell-pointer array and the four
//! cell layouts.

use vstd::prelude::*;
use vstd::slice::*;
use crate::error::{DbError, Feature};
use crate::serial::{
    as_signed, be_unsigned, lemma_be_unsigned_bound, lemma_radix_values, read_be, to_signed,
};
use crate::varint::{lemma_varint_bounds, read_varint, varint_len, varint_value};

verus! {

/// The four kinds of B-tree page.
#[derive(Debug, Clone, Copy, PartialEq, Eq, Structural)]
pub enum PageKind {
    TableInterior,
    TableLeaf,
    IndexInterior,
    IndexLeaf,
}

/// The page kind that a page-type byte stands for.
pub open spec fn page_kind_of(byte: u8) -> Option<PageKind> {
    if byte == 0x05 {
        Some(PageKind::TableInterior)
    } else if byte == 0x0d {
        Some(PageKind::TableLeaf)
    } else if byte == 0x02 {
        Some(PageKind::IndexInterior)
    } else if byte == 0x0a {
        Some(PageKind::IndexLeaf)
    } else {
        None
    }
}

impl PageKind {
    /// The page kind that the page-type byte `byte` stands for.
    pub fn from_byte(byte: u8) -> (r: Result<PageKind, DbError>)
        ensures
            match page_kind_of(byte) {
                Some(kind) => r == Ok::<PageKind, DbError>(kind),
                None => r == Err::<PageKind, DbError>(DbError::UnknownPageKind(byte)),
            },
    {
        if byte == 0x05 {
            Ok(PageKind::TableInterior)
        } else if byte == 0x0d {
            Ok(PageKind::TableLeaf)
        } else if byte == 0x02 {
            Ok(PageKind::IndexInterior)
        } else if byte == 0x0a {
            Ok(PageKind::IndexLeaf)
        } else {
            Err(DbError::UnknownPageKind(byte))
        }
    }

    /// Whether pages of this kind route to child pages.
    pub open spec fn is_interior(self) -> bool {
        self == PageKind::TableInterior || self == PageKind::IndexInterior
    }

    /// The length of the header of a page of this kind.
    pub open spec fn header_len(self) -> nat {
        if self.is_interior() {
            12
        } else {
            8
        }
    }
}

/// What a page header says: the kind of the page, the number of its cells,
/// the right-most child of an interior page (0 on a leaf), the page-type
/// byte as read, and where the cell-pointer array starts.
#[derive(Debug, Clone, Copy, PartialEq, Eq)]
pub struct PageHeader {
    pub kind: PageKind,
    pub kind_byte: u8,
    pub n_cells: u16,
    pub right_most: u32,
    pub pointers_at: usize,
}

/// The big-endian number in the `len` bytes of `page` from `at` on.
pub open spec fn field(page: Seq<u8>, at: nat, len: nat) -> nat {
    be_unsigned(page.subrange(at as int, (at + len) as int))
}

/// The header that starts at `start` of `page`. A page too short for the
/// header is a short read.
pub open spec fn parse_page_header(page: Seq<u8>, start: nat) -> Result<PageHeader, DbError> {
    if start + 8 > page.len() {
        Err(DbError::IoError)
    } else {
        match page_kind_of(page[start as int]) {
            None => Err(DbError::UnknownPageKind(page[start as int])),
            Some(kind) => if start + kind.header_len() > page.len() {
                Err(DbError::IoError)
            } else {
                Ok(
                    PageHeader {
                        kind,
                        kind_byte: page[start as int],
                        n_cells: field(page, start + 3, 2) as u16,
                        right_most: if kind.is_interior() {
                            field(page, start + 8, 4) as u32
                        } else {
                            0
                        },
                        pointers_at: (start + kind.header_len()) as usize,
                    },
                )
            },
        }
    }
}

/// Entry `i` of the cell-pointer array: where cell `i` starts in the page.
pub open spec fn cell_pointer(page: Seq<u8>, header: PageHeader, i: nat) -> Result<u16, DbError> {
    if header.pointers_at + 2 * i + 2 > page.len() {
        Err(DbError::IoError)
    } else {
        Ok(field(page, (header.pointers_at + 2 * i) as nat, 2) as u16)
    }
}

/// Reads the page header that starts at `start` of `page`.
pub fn read_page_header(page: &[u8], start: usize) -> (r: Result<PageHeader, DbError>)
    ensures
        r == parse_page_header(page@, start as nat),
{
    let total: usize = page.len();
    if start > total || total - start < 8 {
        return Err(DbError::IoError);
    }
    let kind_byte: u8 = page[start];
    let kind = match PageKind::from_byte(kind_byte) {
        Err(e) => {
            return Err(e);
        },
        Ok(kind) => kind,
    };
    let interior: bool = match kind {
        PageKind::TableInterior => true,
        PageKind::IndexInterior => true,
        _ => false,
    };
    let len: usize = if interior {
        12
    } else {
        8
    };
    if total - start < len {
        return Err(DbError::IoError);
    }
    proof {
        lemma_radix_values();
        lemma_be_unsigned_bound(page@.subrange(start + 3, start + 3 + 2));
        lemma_be_unsigned_bound(page@.subrange(start + 8, start + 8 + 4));
    }
    let n_cells: u16 = read_be(page, start + 3, 2) as u16;
    let right_most: u32 = if interior {
        read_be(page, start + 8, 4) as u32
    } else {
        0
    };
    Ok(PageHeader { kind, kind_byte, n_cells, right_most, pointers_at: start + len })
}

/// Reads entry `i` of the cell-pointer array of `page`.
pub fn read_cell_pointer(page: &[u8], header: &PageHeader, i: u16) -> (r: Result<u16, DbError>)
    ensures
        r == cell_pointer(page@, *header, i as nat),
{
    let total: usize = page.len();
    let at: usize = header.pointers_at;
    if at > total || total - at < 2 * (i as usize) + 2 {
        return Err(DbError::IoError);
    }
    proof {
        lemma_radix_values();
        lemma_be_unsigned_bound(page@.subrange(at + 2 * i, at + 2 * i + 2));
    }
    Ok(read_be(page, at + 2 * (i as usize), 2) as u16)
}

/// Whether a table-leaf payload of `size` bytes lies wholly in a page with
/// `usable` bytes of content.
pub open spec fn fits_table_leaf(size: nat, usable: nat) -> bool {
    size + 35 <= usable
}

/// Whether an index payload of `size` bytes lies wholly in a page with
/// `usable` bytes of content.
pub open spec fn fits_index(size: nat, usable: nat) -> bool {
    usable >= 12 && size + 23 <= (usable - 12) * 64 / 255
}

/// A row of a table: its rowid and its record payload.
pub struct RowView {
    pub rowid: i64,
    pub payload: Seq<u8>,
}

/// An entry of an index: the child left of it (0 on a leaf) and its record
/// payload, which holds the indexed key and then the rowid.
pub struct EntryView {
    pub left_child: u32,
    pub payload: Seq<u8>,
}

/// A cell of a table leaf page.
#[derive(Debug, Clone, Copy, PartialEq, Eq)]
pub struct TableLeafCell<'a> {
    pub rowid: i64,
    pub payload: &'a [u8],
}

/// A cell of a table interior page: rowids up to `key` are under `left_child`.
#[derive(Debug, Clone, Copy, PartialEq, Eq)]
pub struct TableInteriorCell {
    pub left_child: u32,
    pub key: i64,
}

/// A cell of an index leaf page.
#[derive(Debug, Clone, Copy, PartialEq, Eq)]
pub struct IndexLeafCell<'a> {
    pub payload: &'a [u8],
}

/// A cell of an index interior page.
#[derive(Debug, Clone, Copy, PartialEq, Eq)]
pub struct IndexInteriorCell<'a> {
    pub left_child: u32,
    pub payload: &'a [u8],
}

impl<'a> View for TableLeafCell<'a> {
    type V = RowView;

    open spec fn view(&self) -> RowView {
        RowView { rowid: self.rowid, payload: self.payload@ }
    }
}

impl<'a> View for IndexLeafCell<'a> {
    type V = EntryView;

    open spec fn view(&self) -> EntryView {
        EntryView { left_child: 0, payload: self.payload@ }
    }
}

impl<'a> View for IndexInteriorCell<'a> {
    type V = EntryView;

    open spec fn view(&self) -> EntryView {
        EntryView { left_child: self.left_child, payload: self.payload@ }
    }
}

/// The `size` bytes of `page` from `at` on, where `fits` says that a
/// payload of this size is not spilled to other pages.
pub open spec fn payload_at(page: Seq<u8>, at: nat, size: nat, fits: bool) -> Result<
    Seq<u8>,
    DbError,
> {
    if !fits || at + size > page.len() {
        Err(DbError::Unsupported(Feature::Overflow))
    } else {
        Ok(page.subrange(at as int, (at + size) as int))
    }
}

/// The table-leaf cell at `ptr`: payload size, rowid, payload.
pub open spec fn table_leaf_cell(page: Seq<u8>, ptr: nat) -> Result<RowView, DbError> {
    if ptr >= page.len() {
        Err(DbError::TruncatedVarint)
    } else {
        let size = varint_value(page.skip(ptr as int));
        let at = ptr + varint_len(page.skip(ptr as int));
        if at >= page.len() {
            Err(DbError::TruncatedVarint)
        } else {
            let rowid = as_signed(varint_value(page.skip(at as int)) as u64) as i64;
            let body = at + varint_len(page.skip(at as int));
            match payload_at(page, body, size, fits_table_leaf(size, page.len())) {
                Err(e) => Err(e),
                Ok(payload) => Ok(RowView { rowid, payload }),
            }
        }
    }
}

/// The table-interior cell at `ptr`: left child, key.
pub open spec fn table_interior_cell(page: Seq<u8>, ptr: nat) -> Result<
    TableInteriorCell,
    DbError,
> {
    if ptr + 4 > page.len() {
        Err(DbError::IoError)
    } else if ptr + 4 == page.len() {
        Err(DbError::TruncatedVarint)
    } else {
        Ok(
            TableInteriorCell {
                left_child: field(page, ptr, 4) as u32,
                key: as_signed(varint_value(page.skip((ptr + 4) as int)) as u64) as i64,
            },
        )
    }
}

/// The index-leaf cell at `ptr`: payload size, payload.
pub open spec fn index_leaf_cell(page: Seq<u8>, ptr: nat) -> Result<EntryView, DbError> {
    if ptr >= page.len() {
        Err(DbError::TruncatedVarint)
    } else {
        let size = varint_value(page.skip(ptr as int));
        let body = ptr + varint_len(page.skip(ptr as int));
        match payload_at(page, body, size, fits_index(size, page.len())) {
            Err(e) => Err(e),
            Ok(payload) => Ok(EntryView { left_child: 0, payload }),
        }
    }
}

/// The index-interior cell at `ptr`: left child, payload size, payload.
pub open spec fn index_interior_cell(page: Seq<u8>, ptr: nat) -> Result<EntryView, DbError> {
    if ptr + 4 > page.len() {
        Err(DbError::IoError)
    } else {
        match index_leaf_cell(page, ptr + 4) {
            Err(e) => Err(e),
            Ok(entry) => Ok(
                EntryView { left_child: field(page, ptr, 4) as u32, payload: entry.payload },
            ),
        }
    }
}

/// Takes the payload of `size` bytes at `at`.
fn take_payload<'a>(page: &'a [u8], at: usize, size: u64, fits: bool) -> (r: Result<
    &'a [u8],
    DbError,
>)
    requires
        at <= page@.len(),
    ensures
        r is Ok <==> payload_at(page@, at as nat, size as nat, fits) is Ok,
        r matches Ok(p) ==> p@ == payload_at(page@, at as nat, size as nat, fits)->Ok_0,
        r matches Err(e) ==> e == DbError::Unsupported(Feature::Overflow),
{
    let total: usize = page.len();
    if !fits || size > (total - at) as u64 {
        return Err(DbError::Unsupported(Feature::Overflow));
    }
    Ok(slice_subrange(page, at, at + size as usize))
}

/// Reads the varint at `at` of `page`: its value and where the next field
/// starts.
fn varint_at(page: &[u8], at: usize) -> (r: Result<(u64, usize), DbError>)
    ensures
        r is Err <==> at >= page@.len(),
        r matches Err(e) ==> e == DbError::TruncatedVarint,
        r matches Ok((v, next)) ==> v == varint_value(page@.skip(at as int)) && next == at
            + varint_len(page@.skip(at as int)) && next <= page@.len(),
{
    let total: usize = page.len();
    if at >= total {
        return Err(DbError::TruncatedVarint);
    }
    let rest = slice_subrange(page, at, total);
    proof {
        assert(rest@ =~= page@.skip(at as int));
        lemma_varint_bounds(rest@);
    }
    match read_varint(rest) {
        Err(e) => Err(e),
        Ok((v, n)) => Ok((v, at + n)),
    }
}

/// Whether a table-leaf payload of `size` bytes is held in a page with
/// `usable` bytes of content without spilling.
fn table_leaf_fits(size: u64, usable: usize) -> (r: bool)
    ensures
        r == fits_table_leaf(size as nat, usable as nat),
{
    usable >= 35 && size <= (usable - 35) as u64
}

/// Whether an index payload of `size` bytes is held in a page with `usable`
/// bytes of content without spilling.
fn index_fits(size: u64, usable: usize) -> (r: bool)
    ensures
        r == fits_index(size as nat, usable as nat),
{
    if usable < 12 {
        return false;
    }
    let limit: u128 = (usable - 12) as u128 * 64 / 255;
    size as u128 + 23 <= limit
}

/// Reads the table-leaf cell that starts at `ptr` of `page`.
pub fn read_table_leaf_cell<'a>(page: &'a [u8], ptr: u16) -> (r: Result<TableLeafCell<'a>, DbError>)
    ensures
        r is Ok <==> table_leaf_cell(page@, ptr as nat) is Ok,
        r matches Ok(cell) ==> cell@ == table_leaf_cell(page@, ptr as nat)->Ok_0,
        r matches Err(e) ==> e == table_leaf_cell(page@, ptr as nat)->Err_0,
{
    let (size, at) = match varint_at(page, ptr as usize) {
        Err(e) => {
            return Err(e);
        },
        Ok(pair) => pair,
    };
    let (raw, body) = match varint_at(page, at) {
        Err(e) => {
            return Err(e);
        },
        Ok(pair) => pair,
    };
    let rowid: i64 = to_signed(raw);
    match take_payload(page, body, size, table_leaf_fits(size, page.len())) {
        Err(e) => Err(e),
        Ok(payload) => Ok(TableLeafCell { rowid, payload }),
    }
}

/// Reads the table-interior cell that starts at `ptr` of `page`.
pub fn read_table_interior_cell(page: &[u8], ptr: u16) -> (r: Result<TableInteriorCell, DbError>)
    ensures
        r == table_interior_cell(page@, ptr as nat),
{
    let total: usize = page.len();
    let at: usize = ptr as usize;
    if at > total || total - at < 4 {
        return Err(DbError::IoError);
    }
    proof {
        lemma_radix_values();
        lemma_be_unsigned_bound(page@.subrange(at as int, at + 4));
    }
    let left_child: u32 = read_be(page, at, 4) as u32;
    match varint_at(page, at + 4) {
        Err(e) => Err(e),
        Ok((raw, _)) => Ok(TableInteriorCell { left_child, key: to_signed(raw) }),
    }
}

/// Reads the index-leaf cell that starts at `at` of `page`.
fn index_cell_at<'a>(page: &'a [u8], at: usize) -> (r: Result<&'a [u8], DbError>)
    ensures
        r is Ok <==> index_leaf_cell(page@, at as nat) is Ok,
        r matches Ok(p) ==> p@ == index_leaf_cell(page@, at as nat)->Ok_0.payload,
        r matches Err(e) ==> e == index_leaf_cell(page@, at as nat)->Err_0,
{
    let (size, body) = match varint_at(page, at) {
        Err(e) => {
            return Err(e);
        },
        Ok(pair) => pair,
    };
    take_payload(page, body, size, index_fits(size, page.len()))
}

/// Reads the index-leaf cell that starts at `ptr` of `page`.
pub fn read_index_leaf_cell<'a>(page: &'a [u8], ptr: u16) -> (r: Result<IndexLeafCell<'a>, DbError>)
    ensures
        r is Ok <==> index_leaf_cell(page@, ptr as nat) is Ok,
        r matches Ok(cell) ==> cell@ == index_leaf_cell(page@, ptr as nat)->Ok_0,
        r matches Err(e) ==> e == index_leaf_cell(page@, ptr as nat)->Err_0,
{
    match index_cell_at(page, ptr as usize) {
        Err(e) => Err(e),
        Ok(payload) => Ok(IndexLeafCell { payload }),
    }
}

/// Reads the index-interior cell that starts at `ptr` of `page`.
pub fn read_index_interior_cell<'a>(page: &'a [u8], ptr: u16) -> (r: Result<
    IndexInteriorCell<'a>,
    DbError,
>)
    ensures
        r is Ok <==> index_interior_cell(page@, ptr as nat) is Ok,
        r matches Ok(cell) ==> cell@ == index_interior_cell(page@, ptr as nat)->Ok_0,
        r matches Err(e) ==> e == index_interior_cell(page@, ptr as nat)->Err_0,
{
    let total: usize = page.len();
    let at: usize = ptr as usize;
    if at > total || total - at < 4 {
        return Err(DbError::IoError);
    }
    proof {
        lemma_radix_values();
        lemma_be_unsigned_bound(page@.subrange(at as int, at + 4));
    }
    let left_child: u32 = read_be(page, at, 4) as u32;
    match index_cell_at(page, at + 4) {
        Err(e) => Err(e),
        Ok(payload) => Ok(IndexInteriorCell { left_child, payload }),
    }
}

} // verus!
