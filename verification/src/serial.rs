//! Serial types: the per-column tag of a record header, which gives the
//! column's storage class and its width in the body; and the big-endian
//! integers that the body holds.

use vstd::prelude::*;
use vstd::arithmetic::power2::{pow2, lemma2_to64, lemma_pow2_strictly_increases, lemma_pow2_pos};
use vstd::bits::{lemma_u64_shl_is_mul, lemma_u64_shr_is_div};
use crate::error::{DbError, RecordFault};
use crate::sql_type::SqlType;

verus! {

/// The number of body bytes of a column with serial type `n`. The two
/// reserved codes have no width and no record holds them; in sums over the
/// columns of a record they would count as nothing.
pub open spec fn serial_type_size(n: u64) -> nat {
    if n == 0 || n == 8 || n == 9 {
        0
    } else if 1 <= n <= 4 {
        n as nat
    } else if n == 5 {
        6
    } else if n == 6 || n == 7 {
        8
    } else if n >= 12 && n % 2 == 0 {
        ((n - 12) / 2) as nat
    } else if n >= 13 && n % 2 == 1 {
        ((n - 13) / 2) as nat
    } else {
        0
    }
}

/// The storage class of a column with serial type `n`; the reserved codes
/// have none.
pub open spec fn serial_type_class(n: u64) -> Option<SqlType> {
    if n == 0 {
        Some(SqlType::Null)
    } else if n <= 6 || n == 8 || n == 9 {
        Some(SqlType::Integer)
    } else if n == 7 {
        Some(SqlType::Real)
    } else if n == 10 || n == 11 {
        None
    } else if n % 2 == 0 {
        Some(SqlType::Blob)
    } else {
        Some(SqlType::Text)
    }
}

/// A serial type as a tagged value: the storage class with its width, and
/// for a blob or a text the number of its bytes.
#[derive(Debug, Clone, Copy, PartialEq, Eq, Structural)]
pub enum SerialType {
    Null,
    Int8,
    Int16,
    Int24,
    Int32,
    Int48,
    Int64,
    Real,
    Zero,
    One,
    Blob(u64),
    Text(u64),
}

/// The serial type that the code `n` stands for; the reserved codes stand
/// for none.
pub open spec fn serial_type_of(n: u64) -> Option<SerialType> {
    if n == 0 {
        Some(SerialType::Null)
    } else if n == 1 {
        Some(SerialType::Int8)
    } else if n == 2 {
        Some(SerialType::Int16)
    } else if n == 3 {
        Some(SerialType::Int24)
    } else if n == 4 {
        Some(SerialType::Int32)
    } else if n == 5 {
        Some(SerialType::Int48)
    } else if n == 6 {
        Some(SerialType::Int64)
    } else if n == 7 {
        Some(SerialType::Real)
    } else if n == 8 {
        Some(SerialType::Zero)
    } else if n == 9 {
        Some(SerialType::One)
    } else if n == 10 || n == 11 {
        None
    } else if n % 2 == 0 {
        Some(SerialType::Blob(((n - 12) / 2) as u64))
    } else {
        Some(SerialType::Text(((n - 13) / 2) as u64))
    }
}

impl SerialType {
    /// The number of body bytes of a column of this serial type.
    pub open spec fn width(self) -> nat {
        match self {
            SerialType::Null | SerialType::Zero | SerialType::One => 0,
            SerialType::Int8 => 1,
            SerialType::Int16 => 2,
            SerialType::Int24 => 3,
            SerialType::Int32 => 4,
            SerialType::Int48 => 6,
            SerialType::Int64 | SerialType::Real => 8,
            SerialType::Blob(len) => len as nat,
            SerialType::Text(len) => len as nat,
        }
    }

    /// The storage class of a column of this serial type.
    pub open spec fn storage_class(self) -> SqlType {
        match self {
            SerialType::Null => SqlType::Null,
            SerialType::Real => SqlType::Real,
            SerialType::Blob(_) => SqlType::Blob,
            SerialType::Text(_) => SqlType::Text,
            _ => SqlType::Integer,
        }
    }

    /// The serial type that the code `n` stands for. The two reserved codes
    /// are refused.
    pub fn from_code(n: u64) -> (r: Result<SerialType, DbError>)
        ensures
            match serial_type_of(n) {
                Some(t) => r == Ok::<SerialType, DbError>(t),
                None => r == Err::<SerialType, DbError>(
                    DbError::MalformedRecord(RecordFault::ReservedSerialType),
                ),
            },
    {
        if n == 0 {
            Ok(SerialType::Null)
        } else if n == 1 {
            Ok(SerialType::Int8)
        } else if n == 2 {
            Ok(SerialType::Int16)
        } else if n == 3 {
            Ok(SerialType::Int24)
        } else if n == 4 {
            Ok(SerialType::Int32)
        } else if n == 5 {
            Ok(SerialType::Int48)
        } else if n == 6 {
            Ok(SerialType::Int64)
        } else if n == 7 {
            Ok(SerialType::Real)
        } else if n == 8 {
            Ok(SerialType::Zero)
        } else if n == 9 {
            Ok(SerialType::One)
        } else if n == 10 || n == 11 {
            Err(DbError::MalformedRecord(RecordFault::ReservedSerialType))
        } else if n % 2 == 0 {
            Ok(SerialType::Blob((n - 12) / 2))
        } else {
            Ok(SerialType::Text((n - 13) / 2))
        }
    }

    /// The number of body bytes of a column of this serial type.
    pub fn size(&self) -> (r: u64)
        ensures
            r == self.width(),
    {
        match self {
            SerialType::Null | SerialType::Zero | SerialType::One => 0,
            SerialType::Int8 => 1,
            SerialType::Int16 => 2,
            SerialType::Int24 => 3,
            SerialType::Int32 => 4,
            SerialType::Int48 => 6,
            SerialType::Int64 | SerialType::Real => 8,
            SerialType::Blob(len) => *len,
            SerialType::Text(len) => *len,
        }
    }

    /// The storage class of a column of this serial type.
    pub fn class(&self) -> (r: SqlType)
        ensures
            r == self.storage_class(),
    {
        match self {
            SerialType::Null => SqlType::Null,
            SerialType::Real => SqlType::Real,
            SerialType::Blob(_) => SqlType::Blob,
            SerialType::Text(_) => SqlType::Text,
            _ => SqlType::Integer,
        }
    }
}

/// The tagged value of a code has the width and the class of the code.
pub proof fn lemma_serial_type_agrees(n: u64)
    requires
        serial_type_of(n) is Some,
    ensures
        serial_type_of(n)->Some_0.width() == serial_type_size(n),
        Some(serial_type_of(n)->Some_0.storage_class()) == serial_type_class(n),
{
}

/// The number of body bytes of a column with serial type `serial_type`.
/// The two reserved codes have none and are refused.
pub fn get_serial_type_size(serial_type: u64) -> (r: Result<u64, DbError>)
    ensures
        match serial_type_of(serial_type) {
            Some(t) => r == Ok::<u64, DbError>(t.width() as u64) && t.width()
                == serial_type_size(serial_type),
            None => r == Err::<u64, DbError>(
                DbError::MalformedRecord(RecordFault::ReservedSerialType),
            ),
        },
{
    if serial_type == 10 || serial_type == 11 {
        Err(DbError::MalformedRecord(RecordFault::ReservedSerialType))
    } else {
        Ok(width_of(serial_type))
    }
}

/// The number of body bytes of a column whose serial type is known not to
/// be a reserved code.
pub(crate) fn width_of(serial_type: u64) -> (r: u64)
    requires
        serial_type_of(serial_type) is Some,
    ensures
        r == serial_type_size(serial_type),
        r == serial_type_of(serial_type)->Some_0.width(),
{
    if serial_type == 0 || serial_type == 8 || serial_type == 9 {
        0
    } else if serial_type <= 4 {
        serial_type
    } else if serial_type == 5 {
        6
    } else if serial_type == 6 || serial_type == 7 {
        8
    } else if serial_type >= 12 {
        (serial_type - 12) / 2
    } else {
        0
    }
}

/// The storage class of a column with serial type `serial_type`.
pub fn get_serial_type_class(serial_type: u64) -> (r: Option<SqlType>)
    ensures
        r == serial_type_class(serial_type),
{
    if serial_type == 0 {
        Some(SqlType::Null)
    } else if serial_type <= 6 || serial_type == 8 || serial_type == 9 {
        Some(SqlType::Integer)
    } else if serial_type == 7 {
        Some(SqlType::Real)
    } else if serial_type == 10 || serial_type == 11 {
        None
    } else if serial_type % 2 == 0 {
        Some(SqlType::Blob)
    } else {
        Some(SqlType::Text)
    }
}

/// 256 to the power `len`.
pub open spec fn radix(len: nat) -> nat
    decreases len,
{
    if len == 0 {
        1
    } else {
        256 * radix((len - 1) as nat)
    }
}

/// The bytes read as one unsigned big-endian number.
pub open spec fn be_unsigned(bytes: Seq<u8>) -> nat
    decreases bytes.len(),
{
    if bytes.len() == 0 {
        0
    } else {
        be_unsigned(bytes.drop_last()) * 256 + bytes.last() as nat
    }
}

/// The bytes read as one two's-complement big-endian number.
pub open spec fn be_signed(bytes: Seq<u8>) -> int {
    let u = be_unsigned(bytes);
    if 2 * u >= radix(bytes.len()) {
        u - radix(bytes.len())
    } else {
        u as int
    }
}

/// A 64-bit pattern read as a two's-complement number.
pub open spec fn as_signed(v: u64) -> int {
    if v >= 0x8000_0000_0000_0000 {
        v - 0x1_0000_0000_0000_0000
    } else {
        v as int
    }
}

pub proof fn lemma_radix_values()
    ensures
        radix(0) == 1,
        radix(1) == 0x100,
        radix(2) == 0x1_0000,
        radix(3) == 0x100_0000,
        radix(4) == 0x1_0000_0000,
        radix(5) == 0x100_0000_0000,
        radix(6) == 0x1_0000_0000_0000,
        radix(7) == 0x100_0000_0000_0000,
        radix(8) == 0x1_0000_0000_0000_0000,
{
    reveal_with_fuel(radix, 9);
}

/// A big-endian number of `len` bytes is below 256 to the power `len`.
pub proof fn lemma_be_unsigned_bound(bytes: Seq<u8>)
    ensures
        be_unsigned(bytes) < radix(bytes.len()),
    decreases bytes.len(),
{
    if bytes.len() > 0 {
        lemma_be_unsigned_bound(bytes.drop_last());
    }
}

/// The 64-bit pattern `v` as a signed number.
pub fn to_signed(v: u64) -> (r: i64)
    ensures
        r == as_signed(v),
{
    if v >= 0x8000_0000_0000_0000 {
        ((v - 0x8000_0000_0000_0000) as i64) + i64::MIN
    } else {
        v as i64
    }
}

/// Reads the `len` bytes at `offset` as one unsigned big-endian number.
pub(crate) fn read_be(buffer: &[u8], offset: usize, len: usize) -> (r: u64)
    requires
        len <= 8,
        offset + len <= buffer@.len(),
    ensures
        r == be_unsigned(buffer@.subrange(offset as int, offset + len)),
{
    let mut val: u64 = 0;
    let mut i: usize = 0;
    let total: usize = buffer.len();
    proof {
        lemma_radix_values();
        assert(buffer@.subrange(offset as int, offset as int).len() == 0);
    }
    while i < len
        invariant
            i <= len <= 8,
            total == buffer@.len(),
            offset + len <= buffer@.len(),
            val == be_unsigned(buffer@.subrange(offset as int, offset + i)),
            val < radix(i as nat),
        decreases len - i,
    {
        proof {
            lemma_radix_values();
            let next = buffer@.subrange(offset as int, offset + i + 1);
            assert(next.drop_last() =~= buffer@.subrange(offset as int, offset + i));
            assert(next.last() == buffer@[offset + i]);
            assert(radix((i + 1) as nat) == 256 * radix(i as nat));
            assert(radix(i as nat) <= radix(7)) by {
                reveal_with_fuel(radix, 9);
            }
        }
        val = val * 256 + buffer[offset + i] as u64;
        i += 1;
    }
    val
}

/// The integer part of the IEEE-754 double with the bit pattern `bits`:
/// rounded toward zero, the nearest bound of the 64-bit range where it lies
/// outside, and zero for what is not a number.
pub open spec fn truncated_real(bits: u64) -> int {
    let negative = bits >= 0x8000_0000_0000_0000;
    let exponent = (bits / 0x10_0000_0000_0000) % 0x800;
    let fraction = bits % 0x10_0000_0000_0000;
    let significand = 0x10_0000_0000_0000 + fraction;
    if exponent == 0x7ff && fraction != 0 {
        0
    } else if exponent < 1023 {
        0
    } else if exponent >= 1086 {
        if negative {
            i64::MIN as int
        } else {
            i64::MAX as int
        }
    } else {
        let magnitude = if exponent >= 1075 {
            significand * pow2((exponent - 1075) as nat)
        } else {
            significand / pow2((1075 - exponent) as nat) as int
        };
        if negative {
            -magnitude
        } else {
            magnitude
        }
    }
}

/// The integer part of a double lies in the 64-bit range.
pub proof fn lemma_truncated_real_range(bits: u64)
    ensures
        i64::MIN <= truncated_real(bits) <= i64::MAX,
{
    let exponent = (bits / 0x10_0000_0000_0000) % 0x800;
    let fraction = bits % 0x10_0000_0000_0000;
    let significand = 0x10_0000_0000_0000 + fraction;
    lemma2_to64();
    if 1023 <= exponent < 1086 {
        if exponent >= 1075 {
            let shift = (exponent - 1075) as nat;
            if shift < 10 {
                lemma_pow2_strictly_increases(shift, 10);
            }
            assert(significand * pow2(shift) <= 0x1f_ffff_ffff_ffff * 1024) by (nonlinear_arith)
                requires
                    0 <= significand <= 0x1f_ffff_ffff_ffff,
                    pow2(shift) <= 1024,
            ;
            assert(0 <= significand * pow2(shift)) by (nonlinear_arith)
                requires
                    0 <= significand,
            ;
        } else {
            let shift = (1075 - exponent) as nat;
            lemma_pow2_pos(shift);
            let d = pow2(shift) as int;
            assert(0 <= significand / d <= significand) by (nonlinear_arith)
                requires
                    0 <= significand,
                    d >= 1,
            ;
        }
    }
}

/// The integer part of the double with the bit pattern `bits`.
pub fn truncate_real(bits: u64) -> (r: i64)
    ensures
        r == truncated_real(bits),
{
    let negative: bool = bits >= 0x8000_0000_0000_0000;
    let exponent: u64 = (bits / 0x10_0000_0000_0000) % 0x800;
    let fraction: u64 = bits % 0x10_0000_0000_0000;
    if exponent == 0x7ff && fraction != 0 {
        return 0;
    }
    if exponent < 1023 {
        return 0;
    }
    if exponent >= 1086 {
        return if negative {
            i64::MIN
        } else {
            i64::MAX
        };
    }
    let significand: u64 = 0x10_0000_0000_0000 + fraction;
    proof {
        lemma_truncated_real_range(bits);
        lemma2_to64();
    }
    let magnitude: u64 = if exponent >= 1075 {
        let shift: u64 = exponent - 1075;
        proof {
            if shift < 10 {
                lemma_pow2_strictly_increases(shift as nat, 10);
            }
            assert(significand * pow2(shift as nat) <= 0x1f_ffff_ffff_ffff * 1024)
                by (nonlinear_arith)
                requires
                    0 <= significand <= 0x1f_ffff_ffff_ffff,
                    pow2(shift as nat) <= 1024,
            ;
            lemma_u64_shl_is_mul(significand, shift);
        }
        significand << shift
    } else {
        let shift: u64 = 1075 - exponent;
        proof {
            lemma_u64_shr_is_div(significand, shift);
        }
        significand >> shift
    };
    if negative {
        -(magnitude as i64)
    } else {
        magnitude as i64
    }
}

/// What a column of serial type `t` whose body bytes are `bytes` is as an
/// integer. A null counts as zero, and a real as its integer part.
pub open spec fn integer_value(t: u64, bytes: Seq<u8>) -> int {
    if t == 9 {
        1
    } else if 1 <= t <= 6 {
        be_signed(bytes)
    } else if t == 7 {
        truncated_real(be_unsigned(bytes) as u64)
    } else {
        0
    }
}

/// Whether a column of serial type `t` can be read as an integer.
pub open spec fn integer_readable(t: u64) -> bool {
    t <= 9
}

/// What reading the column of serial type `t` that starts at `offset`
/// gives. A serial type without body bytes gives its constant wherever the
/// offset lies; any other must lie inside the buffer.
pub open spec fn integer_at(buffer: Seq<u8>, offset: nat, t: u64) -> Result<i64, DbError> {
    if !integer_readable(t) {
        Err(DbError::TypeMismatch { expected: SqlType::Integer, got: t })
    } else if serial_type_size(t) == 0 {
        Ok(integer_value(t, Seq::empty()) as i64)
    } else if offset + serial_type_size(t) > buffer.len() {
        Err(DbError::MalformedRecord(RecordFault::BodySize))
    } else {
        Ok(
            integer_value(
                t,
                buffer.subrange(offset as int, (offset + serial_type_size(t)) as int),
            ) as i64,
        )
    }
}

/// An integer column's value lies in the range of its width.
pub proof fn lemma_integer_value_range(t: u64, bytes: Seq<u8>)
    requires
        integer_readable(t),
        bytes.len() == serial_type_size(t),
    ensures
        i64::MIN <= integer_value(t, bytes) <= i64::MAX,
{
    lemma_radix_values();
    lemma_be_unsigned_bound(bytes);
    lemma_truncated_real_range(be_unsigned(bytes) as u64);
}

/// Reads the column of serial type `serial_type` that starts at `offset` of
/// `buffer` as an integer, sign-extended from its width. A serial type
/// without body bytes gives its constant and reads nothing, wherever the
/// offset lies.
pub fn extract_integer(buffer: &[u8], offset: usize, serial_type: u64) -> (r: Result<i64, DbError>)
    ensures
        r == integer_at(buffer@, offset as nat, serial_type),
{
    if serial_type > 9 {
        return Err(DbError::TypeMismatch { expected: SqlType::Integer, got: serial_type });
    }
    if serial_type == 0 || serial_type == 8 {
        return Ok(0);
    }
    if serial_type == 9 {
        return Ok(1);
    }
    let size: usize = width_of(serial_type) as usize;
    if offset > buffer.len() || size > buffer.len() - offset {
        return Err(DbError::MalformedRecord(RecordFault::BodySize));
    }
    proof {
        lemma_radix_values();
        lemma_integer_value_range(
            serial_type,
            buffer@.subrange(offset as int, offset + size),
        );
    }
    let raw: u64 = read_be(buffer, offset, size);
    proof {
        lemma_be_unsigned_bound(buffer@.subrange(offset as int, offset + size));
    }
    if serial_type == 7 {
        return Ok(truncate_real(raw));
    }
    let value: i64 = if size == 8 {
        to_signed(raw)
    } else {
        let full: u64 = if size == 1 {
            0x100
        } else if size == 2 {
            0x1_0000
        } else if size == 3 {
            0x100_0000
        } else if size == 4 {
            0x1_0000_0000
        } else {
            0x1_0000_0000_0000
        };
        if raw >= full / 2 {
            (raw as i64) - (full as i64)
        } else {
            raw as i64
        }
    };
    Ok(value)
}

} // verus!
