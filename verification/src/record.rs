//! Records: a payload of the form header length, serial types, body.
//!
//! The header length counts its own bytes. The columns lie in the body in
//! header order, each as wide as its serial type says, and fill it exactly.

use vstd::prelude::*;
use vstd::slice::*;
use vstd::utf8::*;
use crate::error::{DbError, RecordFault};
use crate::serial::{
    SerialType, be_unsigned, extract_integer, integer_readable,
    integer_value, lemma_be_unsigned_bound, lemma_radix_values, lemma_serial_type_agrees, read_be,
    serial_type_of, serial_type_size, width_of,
};
use crate::sql_type::SqlType;
use crate::varint::{lemma_varint_bounds, read_varint, varint_len, varint_value};

verus! {

/// The sum of the body widths of the first `k` of `types`.
pub open spec fn sizes_sum(types: Seq<u64>, k: nat) -> nat
    decreases k,
{
    if k == 0 || k > types.len() {
        0
    } else {
        sizes_sum(types, (k - 1) as nat) + serial_type_size(types[k - 1])
    }
}

/// The serial types that the header holds between `pos` and `end`: one
/// varint after the other, the last of which must end at `end`.
pub open spec fn header_types(payload: Seq<u8>, pos: nat, end: nat) -> Result<
    Seq<u64>,
    RecordFault,
>
    decreases end - pos,
{
    if pos >= end {
        Ok(Seq::empty())
    } else if pos >= payload.len() {
        Err(RecordFault::HeaderOverrun)
    } else {
        let rest = payload.skip(pos as int);
        let n = varint_len(rest);
        let t = varint_value(rest) as u64;
        proof {
            lemma_varint_bounds(rest);
        }
        if pos + n > end {
            Err(RecordFault::HeaderOverrun)
        } else if t == 10 || t == 11 {
            Err(RecordFault::ReservedSerialType)
        } else {
            match header_types(payload, pos + n, end) {
                Ok(types) => Ok(seq![t] + types),
                Err(e) => Err(e),
            }
        }
    }
}

/// What a record is: its payload, the length of its header and the serial
/// types of its columns.
pub struct RecordView {
    pub payload: Seq<u8>,
    pub header_size: nat,
    pub serial_types: Seq<u64>,
}

impl RecordView {
    /// Where column `i` starts in the payload.
    pub open spec fn column_start(self, i: nat) -> nat {
        self.header_size + sizes_sum(self.serial_types, i)
    }

    /// The body bytes of column `i`.
    pub open spec fn column_bytes(self, i: nat) -> Seq<u8> {
        self.payload.subrange(
            self.column_start(i) as int,
            (self.column_start(i) + serial_type_size(self.serial_types[i as int])) as int,
        )
    }

    /// The code of the serial type of column `i`, if there is such a column.
    pub open spec fn serial_code(self, i: nat) -> Result<u64, DbError> {
        if i < self.serial_types.len() {
            Ok(self.serial_types[i as int])
        } else {
            Err(DbError::MalformedRecord(RecordFault::NoSuchColumn))
        }
    }

    /// Column `i` read as an integer.
    pub open spec fn integer(self, i: nat) -> Result<i64, DbError> {
        match self.serial_code(i) {
            Err(e) => Err(e),
            Ok(t) => if integer_readable(t) {
                Ok(integer_value(t, self.column_bytes(i)) as i64)
            } else {
                Err(DbError::TypeMismatch { expected: SqlType::Integer, got: t })
            },
        }
    }

    /// The bit pattern of column `i` read as a real.
    pub open spec fn real_bits(self, i: nat) -> Result<u64, DbError> {
        match self.serial_code(i) {
            Err(e) => Err(e),
            Ok(t) => if t == 7 {
                Ok(be_unsigned(self.column_bytes(i)) as u64)
            } else {
                Err(DbError::TypeMismatch { expected: SqlType::Real, got: t })
            },
        }
    }

    /// The bytes of column `i` read as text.
    pub open spec fn text_bytes(self, i: nat) -> Result<Seq<u8>, DbError> {
        match self.serial_code(i) {
            Err(e) => Err(e),
            Ok(t) => if t >= 13 && t % 2 == 1 {
                Ok(self.column_bytes(i))
            } else {
                Err(DbError::TypeMismatch { expected: SqlType::Text, got: t })
            },
        }
    }

    /// The bytes of column `i` read as a blob.
    pub open spec fn blob(self, i: nat) -> Result<Seq<u8>, DbError> {
        match self.serial_code(i) {
            Err(e) => Err(e),
            Ok(t) => if t >= 12 && t % 2 == 0 {
                Ok(self.column_bytes(i))
            } else {
                Err(DbError::TypeMismatch { expected: SqlType::Blob, got: t })
            },
        }
    }
}

/// The record that `payload` holds, or why it holds none.
pub open spec fn parse_record(payload: Seq<u8>) -> Result<RecordView, DbError> {
    if payload.len() == 0 {
        Err(DbError::TruncatedVarint)
    } else {
        let h = varint_value(payload);
        if h < varint_len(payload) || h > payload.len() {
            Err(DbError::MalformedRecord(RecordFault::HeaderSize))
        } else {
            match header_types(payload, varint_len(payload), h) {
                Err(fault) => Err(DbError::MalformedRecord(fault)),
                Ok(types) => if h + sizes_sum(types, types.len()) != payload.len() {
                    Err(DbError::MalformedRecord(RecordFault::BodySize))
                } else {
                    Ok(RecordView { payload, header_size: h, serial_types: types })
                },
            }
        }
    }
}

/// No serial type that a header is found to hold is a reserved code.
pub proof fn lemma_header_types_known(payload: Seq<u8>, pos: nat, end: nat)
    requires
        header_types(payload, pos, end) is Ok,
    ensures
        forall|i: int|
            0 <= i < header_types(payload, pos, end)->Ok_0.len() ==> serial_type_of(
                #[trigger] header_types(payload, pos, end)->Ok_0[i],
            ) is Some,
    decreases end - pos,
{
    if pos < end {
        let rest = payload.skip(pos as int);
        lemma_varint_bounds(rest);
        lemma_header_types_known(payload, pos + varint_len(rest), end);
    }
}

/// The widths of the first columns never add up to more than those of all.
pub proof fn lemma_sizes_sum_monotone(types: Seq<u64>, i: nat, j: nat)
    requires
        i <= j <= types.len(),
    ensures
        sizes_sum(types, i) <= sizes_sum(types, j),
    decreases j - i,
{
    if i < j {
        lemma_sizes_sum_monotone(types, i, (j - 1) as nat);
    }
}

/// Mass balance: in every payload that holds a record, the header length
/// and the widths of all columns add up to the length of the payload, and
/// so each column lies inside the payload.
pub proof fn lemma_record_mass_balance(payload: Seq<u8>)
    requires
        parse_record(payload) is Ok,
    ensures
        ({
            let r = parse_record(payload)->Ok_0;
            &&& r.payload == payload
            &&& r.header_size >= 1
            &&& r.header_size + sizes_sum(r.serial_types, r.serial_types.len()) == payload.len()
            &&& forall|i: nat|
                i < r.serial_types.len() ==> r.header_size <= #[trigger] r.column_start(i)
                    && r.column_start(i) + serial_type_size(r.serial_types[i as int])
                    <= payload.len()
        }),
{
    let r = parse_record(payload)->Ok_0;
    lemma_varint_bounds(payload);
    assert forall|i: nat| i < r.serial_types.len() implies r.header_size <= #[trigger] r.column_start(
        i,
    ) && r.column_start(i) + serial_type_size(r.serial_types[i as int]) <= payload.len() by {
        lemma_sizes_sum_monotone(r.serial_types, i + 1, r.serial_types.len());
    }
}

/// A name for the text that `String::from_utf8_lossy` makes of `bytes`:
/// the decoding of valid UTF-8, with a replacement character for each
/// invalid sequence.
pub uninterp spec fn lossy_text(bytes: Seq<u8>) -> Seq<char>;

/// `String::from_utf8_lossy`: the result is a function of the bytes alone,
/// and for valid UTF-8 it is their decoding.
#[verifier::external_body]
fn text_of(bytes: &[u8]) -> (s: String)
    ensures
        s@ == lossy_text(bytes@),
        valid_utf8(bytes@) ==> s@ == decode_utf8(bytes@),
{
    String::from_utf8_lossy(bytes).into_owned()
}

/// A decoded record: a borrowed payload with the serial types of its
/// header and the place of each column.
#[derive(Debug)]
pub struct Record<'a> {
    payload: &'a [u8],
    header_size: usize,
    serial_types: Vec<u64>,
    starts: Vec<usize>,
}

impl<'a> View for Record<'a> {
    type V = RecordView;

    closed spec fn view(&self) -> RecordView {
        RecordView {
            payload: self.payload@,
            header_size: self.header_size as nat,
            serial_types: self.serial_types@,
        }
    }
}

impl<'a> Record<'a> {
    #[verifier::type_invariant]
    spec fn valid(self) -> bool {
        &&& parse_record(self.payload@) == Ok::<RecordView, DbError>(self@)
        &&& self.starts@.len() == self.serial_types@.len()
        &&& forall|i: int|
            0 <= i < self.starts@.len() ==> #[trigger] self.starts@[i] == self@.column_start(
                i as nat,
            )
    }

    /// The payload that the record was decoded from.
    pub fn payload(&self) -> (p: &'a [u8])
        ensures
            p@ == self@.payload,
            parse_record(p@) == Ok::<RecordView, DbError>(self@),
    {
        proof {
            use_type_invariant(self);
        }
        self.payload
    }

    /// The number of columns.
    pub fn column_count(&self) -> (n: usize)
        ensures
            n == self@.serial_types.len(),
    {
        self.serial_types.len()
    }

    /// The code of the serial type of column `i`.
    pub fn serial_code(&self, i: usize) -> (r: Result<u64, DbError>)
        ensures
            r == self@.serial_code(i as nat),
    {
        if i < self.serial_types.len() {
            Ok(self.serial_types[i])
        } else {
            Err(DbError::MalformedRecord(RecordFault::NoSuchColumn))
        }
    }

    /// The serial type of column `i` as a tagged value.
    pub fn serial_type(&self, i: usize) -> (r: Result<SerialType, DbError>)
        ensures
            match self@.serial_code(i as nat) {
                Ok(code) => serial_type_of(code) is Some && r == Ok::<SerialType, DbError>(
                    serial_type_of(code)->Some_0,
                ) && r->Ok_0.width() == serial_type_size(code),
                Err(e) => r == Err::<SerialType, DbError>(e),
            },
    {
        if i >= self.serial_types.len() {
            return Err(DbError::MalformedRecord(RecordFault::NoSuchColumn));
        }
        proof {
            use_type_invariant(self);
            lemma_varint_bounds(self.payload@);
            lemma_header_types_known(
                self.payload@,
                varint_len(self.payload@),
                self.header_size as nat,
            );
            lemma_serial_type_agrees(self.serial_types@[i as int]);
        }
        SerialType::from_code(self.serial_types[i])
    }

    /// The body bytes of column `i`, borrowed from the payload.
    pub fn column_bytes(&self, i: usize) -> (r: Result<&'a [u8], DbError>)
        ensures
            i < self@.serial_types.len() ==> r is Ok && r->Ok_0@ == self@.column_bytes(i as nat),
            i >= self@.serial_types.len() ==> r == Err::<&[u8], DbError>(
                DbError::MalformedRecord(RecordFault::NoSuchColumn),
            ),
    {
        if i >= self.serial_types.len() {
            return Err(DbError::MalformedRecord(RecordFault::NoSuchColumn));
        }
        let total: usize = self.payload.len();
        proof {
            use_type_invariant(self);
            lemma_record_mass_balance(self.payload@);
            assert(self.starts@[i as int] == self@.column_start(i as nat));
            assert(self@.column_start(i as nat) + serial_type_size(self@.serial_types[i as int])
                <= total);
            lemma_varint_bounds(self.payload@);
            lemma_header_types_known(
                self.payload@,
                varint_len(self.payload@),
                self.header_size as nat,
            );
        }
        let start: usize = self.starts[i];
        let size: usize = width_of(self.serial_types[i]) as usize;
        Ok(slice_subrange(self.payload, start, start + size))
    }

    /// Column `i` as an integer, sign-extended from its width; a null
    /// counts as zero.
    pub fn as_integer(&self, i: usize) -> (r: Result<i64, DbError>)
        ensures
            r == self@.integer(i as nat),
    {
        if i >= self.serial_types.len() {
            return Err(DbError::MalformedRecord(RecordFault::NoSuchColumn));
        }
        proof {
            use_type_invariant(self);
            lemma_record_mass_balance(self.payload@);
            assert(self.starts@[i as int] == self@.column_start(i as nat));
        }
        extract_integer(self.payload, self.starts[i], self.serial_types[i])
    }

    /// The bit pattern of column `i`, which must hold a real.
    pub fn as_real_bits(&self, i: usize) -> (r: Result<u64, DbError>)
        ensures
            r == self@.real_bits(i as nat),
    {
        if i >= self.serial_types.len() {
            return Err(DbError::MalformedRecord(RecordFault::NoSuchColumn));
        }
        let t: u64 = self.serial_types[i];
        if t != 7 {
            return Err(DbError::TypeMismatch { expected: SqlType::Real, got: t });
        }
        proof {
            use_type_invariant(self);
            lemma_record_mass_balance(self.payload@);
            assert(self.starts@[i as int] == self@.column_start(i as nat));
            lemma_be_unsigned_bound(self@.column_bytes(i as nat));
            lemma_radix_values();
        }
        Ok(read_be(self.payload, self.starts[i], 8))
    }

    /// The bytes of column `i`, which must hold text.
    pub fn text_bytes(&self, i: usize) -> (r: Result<&'a [u8], DbError>)
        ensures
            r is Ok <==> self@.text_bytes(i as nat) is Ok,
            r matches Ok(b) ==> b@ == self@.text_bytes(i as nat)->Ok_0,
            r matches Err(e) ==> e == self@.text_bytes(i as nat)->Err_0,
    {
        if i >= self.serial_types.len() {
            return Err(DbError::MalformedRecord(RecordFault::NoSuchColumn));
        }
        let t: u64 = self.serial_types[i];
        if !(t >= 13 && t % 2 == 1) {
            return Err(DbError::TypeMismatch { expected: SqlType::Text, got: t });
        }
        self.column_bytes(i)
    }

    /// Column `i`, which must hold text, decoded as UTF-8; each invalid
    /// sequence becomes a replacement character.
    pub fn as_text(&self, i: usize) -> (r: Result<String, DbError>)
        ensures
            r is Ok <==> self@.text_bytes(i as nat) is Ok,
            r matches Ok(s) ==> s@ == lossy_text(self@.text_bytes(i as nat)->Ok_0),
            r matches Ok(s) ==> valid_utf8(self@.text_bytes(i as nat)->Ok_0) ==> s@ == decode_utf8(
                self@.text_bytes(i as nat)->Ok_0,
            ),
            r matches Err(e) ==> e == self@.text_bytes(i as nat)->Err_0,
    {
        match self.text_bytes(i) {
            Ok(bytes) => Ok(text_of(bytes)),
            Err(e) => Err(e),
        }
    }

    /// The bytes of column `i`, which must hold a blob.
    pub fn as_blob(&self, i: usize) -> (r: Result<&'a [u8], DbError>)
        ensures
            r is Ok <==> self@.blob(i as nat) is Ok,
            r matches Ok(b) ==> b@ == self@.blob(i as nat)->Ok_0,
            r matches Err(e) ==> e == self@.blob(i as nat)->Err_0,
    {
        if i >= self.serial_types.len() {
            return Err(DbError::MalformedRecord(RecordFault::NoSuchColumn));
        }
        let t: u64 = self.serial_types[i];
        if !(t >= 12 && t % 2 == 0) {
            return Err(DbError::TypeMismatch { expected: SqlType::Blob, got: t });
        }
        self.column_bytes(i)
    }
}

/// Whether the exec result `r` is what the model `m` says.
pub open spec fn decoded_as(
    r: Result<Record<'_>, DbError>,
    m: Result<RecordView, DbError>,
) -> bool {
    match r {
        Ok(record) => m == Ok::<RecordView, DbError>(record@),
        Err(e) => m == Err::<RecordView, DbError>(e),
    }
}

/// Reads the serial types of the header of `payload`, which ends at `end`.
fn read_header_types(payload: &[u8], first: usize, end: usize) -> (r: Result<Vec<u64>, RecordFault>)
    requires
        first <= end <= payload@.len(),
    ensures
        match r {
            Ok(types) => header_types(payload@, first as nat, end as nat) == Ok::<
                Seq<u64>,
                RecordFault,
            >(types@),
            Err(e) => header_types(payload@, first as nat, end as nat) == Err::<
                Seq<u64>,
                RecordFault,
            >(e),
        },
{
    let mut types: Vec<u64> = Vec::new();
    let mut pos: usize = first;
    let total: usize = payload.len();
    while pos < end
        invariant
            first <= pos <= end <= payload@.len(),
            total == payload@.len(),
            match header_types(payload@, pos as nat, end as nat) {
                Ok(rest) => header_types(payload@, first as nat, end as nat) == Ok::<
                    Seq<u64>,
                    RecordFault,
                >(types@ + rest),
                Err(e) => header_types(payload@, first as nat, end as nat) == Err::<
                    Seq<u64>,
                    RecordFault,
                >(e),
            },
        decreases end - pos,
    {
        let rest = slice_subrange(payload, pos, total);
        proof {
            assert(rest@ =~= payload@.skip(pos as int));
            lemma_varint_bounds(rest@);
        }
        match read_varint(rest) {
            Err(_) => {
                return Err(RecordFault::HeaderOverrun);
            },
            Ok((t, n)) => {
                if n > end - pos {
                    return Err(RecordFault::HeaderOverrun);
                }
                if t == 10 || t == 11 {
                    return Err(RecordFault::ReservedSerialType);
                }
                proof {
                    let ghost_next = header_types(payload@, (pos + n) as nat, end as nat);
                    if let Ok(tail) = ghost_next {
                        assert((types@.push(t)) + tail =~= types@ + (seq![t] + tail));
                    }
                }
                types.push(t);
                pos = pos + n;
            },
        }
    }
    proof {
        assert(types@ + Seq::<u64>::empty() =~= types@);
    }
    Ok(types)
}

/// Decodes `payload` as a record. The payload is refused when it is empty,
/// when its header length is smaller than its own encoding or larger than
/// the payload, when a serial type crosses the end of the header or is a
/// reserved code, and when the columns do not fill the body exactly.
#[verifier::loop_isolation(false)]
pub fn decode_record<'a>(payload: &'a [u8]) -> (r: Result<Record<'a>, DbError>)
    ensures
        decoded_as(r, parse_record(payload@)),
{
    let (h, n0) = match read_varint(payload) {
        Err(e) => {
            return Err(e);
        },
        Ok(pair) => pair,
    };
    let total: usize = payload.len();
    if h < n0 as u64 || h > total as u64 {
        return Err(DbError::MalformedRecord(RecordFault::HeaderSize));
    }
    let header_size: usize = h as usize;
    let serial_types = match read_header_types(payload, n0, header_size) {
        Err(fault) => {
            return Err(DbError::MalformedRecord(fault));
        },
        Ok(types) => types,
    };
    let mut starts: Vec<usize> = Vec::new();
    let mut pos: usize = header_size;
    let mut i: usize = 0;
    while i < serial_types.len()
        invariant
            i <= serial_types@.len(),
            starts@.len() == i,
            total == payload@.len(),
            header_size <= pos <= total,
            pos == header_size + sizes_sum(serial_types@, i as nat),
            forall|k: int|
                0 <= k < i ==> #[trigger] starts@[k] == header_size + sizes_sum(
                    serial_types@,
                    k as nat,
                ),
        decreases serial_types@.len() - i,
    {
        proof {
            lemma_header_types_known(payload@, n0 as nat, header_size as nat);
        }
        let size: u64 = width_of(serial_types[i]);
        if size > (total - pos) as u64 {
            proof {
                lemma_sizes_sum_monotone(
                    serial_types@,
                    (i + 1) as nat,
                    serial_types@.len(),
                );
                assert(sizes_sum(serial_types@, (i + 1) as nat) == sizes_sum(
                    serial_types@,
                    i as nat,
                ) + serial_type_size(serial_types@[i as int]));
            }
            return Err(DbError::MalformedRecord(RecordFault::BodySize));
        }
        starts.push(pos);
        pos = pos + size as usize;
        i += 1;
    }
    if pos != total {
        return Err(DbError::MalformedRecord(RecordFault::BodySize));
    }
    Ok(Record { payload, header_size, serial_types, starts })
}

} // verus!
