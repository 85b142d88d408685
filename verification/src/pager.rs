//! The database image and its pages.
//!
//! A database is a run of fixed-size pages, numbered from 1. The first
//! hundred bytes of page 1 are the database header, which gives the page
//! size and the number of bytes reserved at the end of each page.

use vstd::prelude::*;
use vstd::slice::*;
use crate::error::DbError;

verus! {

/// The length of the database header.
pub const HEADER_LEN: usize = 100;

/// The sixteen bytes every database starts with: `SQLite format 3` and a
/// zero byte.
pub open spec fn magic() -> Seq<u8> {
    seq![
        0x53u8, 0x51, 0x4c, 0x69, 0x74, 0x65, 0x20, 0x66, 0x6f, 0x72, 0x6d, 0x61, 0x74, 0x20, 0x33,
        0x00,
    ]
}

/// Whether `data` starts with a database header.
pub open spec fn has_header(data: Seq<u8>) -> bool {
    data.len() >= HEADER_LEN && data.subrange(0, 16) == magic()
}

/// The page size that the header of `data` gives: bytes 16 and 17,
/// big-endian, where 1 stands for 65536.
pub open spec fn header_page_size(data: Seq<u8>) -> nat {
    let raw = data[16] as nat * 256 + data[17] as nat;
    if raw == 1 {
        65536
    } else {
        raw
    }
}

/// What a pager is: the bytes of the file, the page size and the number of
/// bytes reserved at the end of each page.
pub struct PagerView {
    pub data: Seq<u8>,
    pub page_size: nat,
    pub reserved: nat,
}

impl PagerView {
    /// Page `n` in full.
    pub open spec fn page(self, n: u32) -> Result<Seq<u8>, DbError> {
        if n >= 1 && n * self.page_size <= self.data.len() {
            Ok(self.data.subrange((n - 1) * self.page_size, n * self.page_size))
        } else {
            Err(DbError::IoError)
        }
    }

    /// The number of bytes of a page that hold content.
    pub open spec fn usable_size(self) -> nat {
        if self.reserved <= self.page_size {
            (self.page_size - self.reserved) as nat
        } else {
            0
        }
    }

    /// Page `n` without the bytes reserved at its end.
    pub open spec fn area(self, n: u32) -> Result<Seq<u8>, DbError> {
        match self.page(n) {
            Ok(page) => Ok(page.subrange(0, self.usable_size() as int)),
            Err(e) => Err(e),
        }
    }

    /// Where the page header of page `n` starts: behind the database header
    /// on page 1, at the start of every other page.
    pub open spec fn header_start(n: u32) -> nat {
        if n == 1 {
            HEADER_LEN as nat
        } else {
            0
        }
    }
}

/// Random access to the pages of a database held in memory.
#[derive(Debug)]
pub struct Pager {
    data: Vec<u8>,
    page_size: u32,
    reserved: u8,
}

impl View for Pager {
    type V = PagerView;

    closed spec fn view(&self) -> PagerView {
        PagerView {
            data: self.data@,
            page_size: self.page_size as nat,
            reserved: self.reserved as nat,
        }
    }
}

fn starts_with_magic(data: &Vec<u8>) -> (r: bool)
    requires
        data@.len() >= 16,
    ensures
        r == (data@.subrange(0, 16) == magic()),
{
    let ok = data[0] == 0x53 && data[1] == 0x51 && data[2] == 0x4c && data[3] == 0x69 && data[4]
        == 0x74 && data[5] == 0x65 && data[6] == 0x20 && data[7] == 0x66 && data[8] == 0x6f
        && data[9] == 0x72 && data[10] == 0x6d && data[11] == 0x61 && data[12] == 0x74 && data[13]
        == 0x20 && data[14] == 0x33 && data[15] == 0x00;
    proof {
        let head = data@.subrange(0, 16);
        if ok {
            assert(head =~= magic());
        } else {
            if head == magic() {
                assert(forall|i: int| 0 <= i < 16 ==> head[i] == data@[i]);
                assert(head[0] == 0x53 && head[1] == 0x51 && head[2] == 0x4c && head[3] == 0x69);
                assert(head[4] == 0x74 && head[5] == 0x65 && head[6] == 0x20 && head[7] == 0x66);
                assert(head[8] == 0x6f && head[9] == 0x72 && head[10] == 0x6d && head[11] == 0x61);
                assert(head[12] == 0x74 && head[13] == 0x20 && head[14] == 0x33 && head[15]
                    == 0x00);
            }
        }
    }
    ok
}

impl Pager {
    #[verifier::type_invariant]
    spec fn valid(self) -> bool {
        &&& has_header(self.data@)
        &&& self.page_size == header_page_size(self.data@)
        &&& self.reserved == self.data@[20]
    }

    /// Takes the bytes of a database file. They are refused unless they
    /// start with a database header.
    pub fn open(data: Vec<u8>) -> (r: Result<Pager, DbError>)
        ensures
            r is Ok <==> has_header(data@),
            r matches Err(e) ==> e == DbError::InvalidHeader,
            r matches Ok(pager) ==> pager@ == (PagerView {
                data: data@,
                page_size: header_page_size(data@),
                reserved: data@[20] as nat,
            }),
    {
        if data.len() < HEADER_LEN {
            return Err(DbError::InvalidHeader);
        }
        if !starts_with_magic(&data) {
            return Err(DbError::InvalidHeader);
        }
        let raw: u32 = (data[16] as u32) * 256 + data[17] as u32;
        let page_size: u32 = if raw == 1 {
            65536
        } else {
            raw
        };
        let reserved: u8 = data[20];
        Ok(Pager { data, page_size, reserved })
    }

    /// The size of a page in bytes.
    pub fn page_size(&self) -> (r: u32)
        ensures
            r == self@.page_size,
            r == header_page_size(self@.data),
            has_header(self@.data),
    {
        proof {
            use_type_invariant(self);
        }
        self.page_size
    }

    /// The number of bytes of a page that hold content.
    pub fn usable_size(&self) -> (r: u32)
        ensures
            r == self@.usable_size(),
    {
        if self.reserved as u32 <= self.page_size {
            self.page_size - self.reserved as u32
        } else {
            0
        }
    }

    /// Page `n` in full. A page that does not lie wholly inside the file
    /// is a short read.
    pub fn read_page(&self, n: u32) -> (r: Result<&[u8], DbError>)
        ensures
            r is Ok <==> self@.page(n) is Ok,
            r matches Ok(page) ==> page@ == self@.page(n)->Ok_0 && page@.len()
                == self@.page_size,
            r matches Err(e) ==> e == DbError::IoError,
    {
        if n == 0 {
            return Err(DbError::IoError);
        }
        proof {
            use_type_invariant(self);
            let ps = self.page_size as int;
            assert(n * ps - (n - 1) * ps == ps) by (nonlinear_arith);
            assert(0 <= (n - 1) * ps <= n * ps <= 0xffff_ffff * 65536) by (nonlinear_arith)
                requires
                    1 <= n <= 0xffff_ffff,
                    0 <= ps <= 65536,
            ;
        }
        let end: u64 = n as u64 * self.page_size as u64;
        let total: usize = self.data.len();
        if end > total as u64 {
            return Err(DbError::IoError);
        }
        let start: u64 = (n - 1) as u64 * self.page_size as u64;
        Ok(slice_subrange(self.data.as_slice(), start as usize, end as usize))
    }

    /// Page `n` without the bytes reserved at its end.
    pub fn read_area(&self, n: u32) -> (r: Result<&[u8], DbError>)
        ensures
            r is Ok <==> self@.area(n) is Ok,
            r matches Ok(area) ==> area@ == self@.area(n)->Ok_0 && area@.len()
                == self@.usable_size(),
            r matches Err(e) ==> e == DbError::IoError,
    {
        match self.read_page(n) {
            Err(e) => Err(e),
            Ok(page) => Ok(slice_subrange(page, 0, self.usable_size() as usize)),
        }
    }
}

} // verus!
