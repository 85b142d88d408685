//! Byte-wise comparison of text with ASCII letters folded to lower case,
//! and the trimming of white space.

use vstd::prelude::*;
use vstd::string::*;

verus! {

/// How one key stands to another.
#[derive(Debug, Clone, Copy, PartialEq, Eq, Structural)]
pub enum KeyOrder {
    Less,
    Equal,
    Greater,
}

/// `b` with an ASCII capital letter turned into its small letter.
pub open spec fn lower_byte(b: u8) -> u8 {
    if 0x41 <= b <= 0x5a {
        (b + 0x20) as u8
    } else {
        b
    }
}

/// `s` with every ASCII capital letter turned into its small letter.
pub open spec fn fold_ascii(s: Seq<u8>) -> Seq<u8> {
    Seq::new(s.len(), |i: int| lower_byte(s[i]))
}

/// Lexicographic order of what `a` and `b` hold from index `i` on.
pub open spec fn order_from(a: Seq<u8>, b: Seq<u8>, i: nat) -> KeyOrder
    decreases a.len() - i,
{
    if i >= a.len() {
        if i >= b.len() {
            KeyOrder::Equal
        } else {
            KeyOrder::Less
        }
    } else if i >= b.len() {
        KeyOrder::Greater
    } else if a[i as int] < b[i as int] {
        KeyOrder::Less
    } else if a[i as int] > b[i as int] {
        KeyOrder::Greater
    } else {
        order_from(a, b, i + 1)
    }
}

/// Lexicographic order of the bytes of `a` and `b`, ASCII case folded.
pub open spec fn key_order(a: Seq<u8>, b: Seq<u8>) -> KeyOrder {
    order_from(fold_ascii(a), fold_ascii(b), 0)
}

/// Whether `a` and `b` hold the same bytes, ASCII case folded.
pub open spec fn same_text(a: Seq<u8>, b: Seq<u8>) -> bool {
    fold_ascii(a) == fold_ascii(b)
}

proof fn lemma_order_equal(a: Seq<u8>, b: Seq<u8>, i: nat)
    requires
        i <= a.len(),
        i <= b.len(),
    ensures
        order_from(a, b, i) == KeyOrder::Equal <==> a.skip(i as int) == b.skip(i as int),
    decreases a.len() - i,
{
    if i >= a.len() || i >= b.len() {
        if a.skip(i as int) == b.skip(i as int) {
            assert(a.skip(i as int).len() == b.skip(i as int).len());
        }
        if i >= a.len() && i >= b.len() {
            assert(a.skip(i as int) =~= b.skip(i as int));
        }
    } else {
        lemma_order_equal(a, b, i + 1);
        assert(a.skip(i as int)[0] == a[i as int]);
        assert(b.skip(i as int)[0] == b[i as int]);
        if a[i as int] == b[i as int] {
            if a.skip(i as int + 1) == b.skip(i as int + 1) {
                let x = a.skip(i as int + 1);
                let y = b.skip(i as int + 1);
                assert(x.len() == a.len() - i - 1);
                assert(y.len() == b.len() - i - 1);
                assert(a.len() == b.len());
                assert forall|j: int| 0 <= j < a.skip(i as int).len() implies a.skip(
                    i as int,
                )[j] == b.skip(i as int)[j] by {
                    if j > 0 {
                        assert(x[j - 1] == a[i + j]);
                        assert(y[j - 1] == b[i + j]);
                    }
                }
                assert(a.skip(i as int) =~= b.skip(i as int));
            }
            if a.skip(i as int) == b.skip(i as int) {
                assert(a.skip(i as int + 1) =~= a.skip(i as int).skip(1));
                assert(b.skip(i as int + 1) =~= b.skip(i as int).skip(1));
            }
        }
    }
}

/// Two keys stand `Equal` exactly when they are the same text.
pub proof fn lemma_key_order_equal(a: Seq<u8>, b: Seq<u8>)
    ensures
        key_order(a, b) == KeyOrder::Equal <==> same_text(a, b),
{
    lemma_order_equal(fold_ascii(a), fold_ascii(b), 0);
    assert(fold_ascii(a).skip(0) =~= fold_ascii(a));
    assert(fold_ascii(b).skip(0) =~= fold_ascii(b));
}

proof fn lemma_order_flip(a: Seq<u8>, b: Seq<u8>, i: nat)
    ensures
        order_from(a, b, i) == KeyOrder::Greater <==> order_from(b, a, i) == KeyOrder::Less,
        order_from(a, b, i) == KeyOrder::Equal <==> order_from(b, a, i) == KeyOrder::Equal,
    decreases a.len() - i,
{
    if i < a.len() && i < b.len() && a[i as int] == b[i as int] {
        lemma_order_flip(a, b, i + 1);
    }
}

proof fn lemma_order_chain(a: Seq<u8>, b: Seq<u8>, c: Seq<u8>, i: nat)
    requires
        order_from(a, b, i) != KeyOrder::Greater,
        order_from(b, c, i) != KeyOrder::Greater,
    ensures
        order_from(a, c, i) != KeyOrder::Greater,
        order_from(a, b, i) == KeyOrder::Less || order_from(b, c, i) == KeyOrder::Less
            ==> order_from(a, c, i) == KeyOrder::Less,
    decreases a.len() - i,
{
    if i < a.len() && i < b.len() && i < c.len() && a[i as int] == b[i as int] && b[i as int]
        == c[i as int] {
        lemma_order_chain(a, b, c, i + 1);
    }
}

/// Whether `a` does not stand above `b`.
pub open spec fn not_above(a: Seq<u8>, b: Seq<u8>) -> bool {
    key_order(a, b) != KeyOrder::Greater
}

/// Turning two keys round turns their order round.
pub proof fn lemma_key_order_flip(a: Seq<u8>, b: Seq<u8>)
    ensures
        key_order(a, b) == KeyOrder::Greater <==> key_order(b, a) == KeyOrder::Less,
        key_order(a, b) == KeyOrder::Equal <==> key_order(b, a) == KeyOrder::Equal,
{
    lemma_order_flip(fold_ascii(a), fold_ascii(b), 0);
}

/// The order of keys is transitive, and strict where one step is strict.
pub proof fn lemma_key_order_chain(a: Seq<u8>, b: Seq<u8>, c: Seq<u8>)
    requires
        not_above(a, b),
        not_above(b, c),
    ensures
        not_above(a, c),
        key_order(a, b) == KeyOrder::Less || key_order(b, c) == KeyOrder::Less ==> key_order(a, c)
            == KeyOrder::Less,
{
    lemma_order_chain(fold_ascii(a), fold_ascii(b), fold_ascii(c), 0);
}

/// `b` with an ASCII capital letter turned into its small letter.
pub fn to_lower_byte(b: u8) -> (r: u8)
    ensures
        r == lower_byte(b),
{
    if 0x41 <= b && b <= 0x5a {
        b + 0x20
    } else {
        b
    }
}

/// Orders `a` against `b` byte by byte, ASCII case folded.
pub fn order_keys(a: &[u8], b: &[u8]) -> (r: KeyOrder)
    ensures
        r == key_order(a@, b@),
{
    let mut i: usize = 0;
    while i < a.len() && i < b.len()
        invariant
            i <= a@.len(),
            i <= b@.len(),
            key_order(a@, b@) == order_from(fold_ascii(a@), fold_ascii(b@), i as nat),
        decreases a@.len() - i,
    {
        let x: u8 = to_lower_byte(a[i]);
        let y: u8 = to_lower_byte(b[i]);
        if x < y {
            return KeyOrder::Less;
        }
        if x > y {
            return KeyOrder::Greater;
        }
        i += 1;
    }
    if i < b.len() {
        KeyOrder::Less
    } else if i < a.len() {
        KeyOrder::Greater
    } else {
        KeyOrder::Equal
    }
}

/// Whether `a` and `b` hold the same bytes.
pub fn bytes_equal(a: &[u8], b: &[u8]) -> (r: bool)
    ensures
        r == (a@ == b@),
{
    if a.len() != b.len() {
        return false;
    }
    let mut i: usize = 0;
    while i < a.len()
        invariant
            i <= a@.len(),
            a@.len() == b@.len(),
            forall|k: int| 0 <= k < i ==> a@[k] == b@[k],
        decreases a@.len() - i,
    {
        if a[i] != b[i] {
            return false;
        }
        i += 1;
    }
    assert(a@ =~= b@);
    true
}

/// Whether `a` and `b` are the same text.
pub fn same_string(a: &String, b: &String) -> (r: bool)
    ensures
        r == (a@ == b@),
{
    *a == *b
}

/// Whether `a` and `b` hold the same bytes, ASCII case folded.
pub fn eq_ignore_case(a: &[u8], b: &[u8]) -> (r: bool)
    ensures
        r == same_text(a@, b@),
{
    proof {
        lemma_key_order_equal(a@, b@);
    }
    match order_keys(a, b) {
        KeyOrder::Equal => true,
        _ => false,
    }
}

/// Whether `c` is white space: one of the characters to which Unicode gives
/// the property White_Space.
pub open spec fn is_white_space(c: char) -> bool {
    let n = c as u32;
    ||| 0x09 <= n <= 0x0d
    ||| n == 0x20
    ||| n == 0x85
    ||| n == 0xa0
    ||| n == 0x1680
    ||| 0x2000 <= n <= 0x200a
    ||| n == 0x2028
    ||| n == 0x2029
    ||| n == 0x202f
    ||| n == 0x205f
    ||| n == 0x3000
}

/// Whether `c` is white space.
pub fn white_space(c: char) -> (r: bool)
    ensures
        r == is_white_space(c),
{
    let n: u32 = c as u32;
    (0x09 <= n && n <= 0x0d) || n == 0x20 || n == 0x85 || n == 0xa0 || n == 0x1680 || (0x2000 <= n
        && n <= 0x200a) || n == 0x2028 || n == 0x2029 || n == 0x202f || n == 0x205f || n == 0x3000
}

/// Where the first character from `from` on that is no white space stands,
/// or `to` where all up to `to` are white space.
pub open spec fn trim_start(s: Seq<char>, from: nat, to: nat) -> nat
    decreases to - from,
{
    if from < to && from < s.len() && is_white_space(s[from as int]) {
        trim_start(s, from + 1, to)
    } else {
        from
    }
}

/// Where the white space that ends at `to` begins, but not before `from`.
pub open spec fn trim_end(s: Seq<char>, from: nat, to: nat) -> nat
    decreases to,
{
    if from < to && to <= s.len() && is_white_space(s[to - 1]) {
        trim_end(s, from, (to - 1) as nat)
    } else {
        to
    }
}

/// The characters of `s` between `from` and `to` without the white space
/// at both ends.
pub open spec fn trimmed_part(s: Seq<char>, from: nat, to: nat) -> Seq<char> {
    let start = trim_start(s, from, to);
    s.subrange(start as int, trim_end(s, start, to) as int)
}

/// The part of `text` between the characters `from` and `to` without the
/// white space at both ends.
pub(crate) fn trim_part(text: &str, from: usize, to: usize) -> (r: String)
    requires
        from <= to <= text@.len(),
    ensures
        r@ == trimmed_part(text@, from as nat, to as nat),
{
    let mut start: usize = from;
    while start < to && white_space(text.get_char(start))
        invariant
            from <= start <= to <= text@.len(),
            trim_start(text@, from as nat, to as nat) == trim_start(
                text@,
                start as nat,
                to as nat,
            ),
        decreases to - start,
    {
        start += 1;
    }
    let mut end: usize = to;
    while end > start && white_space(text.get_char(end - 1))
        invariant
            start <= end <= to <= text@.len(),
            trim_end(text@, start as nat, to as nat) == trim_end(
                text@,
                start as nat,
                end as nat,
            ),
        decreases end,
    {
        end -= 1;
    }
    text.substring_char(start, end).to_owned()
}

} // verus!
