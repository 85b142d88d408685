//! Rendering results as text: integers in decimal, the cells of a row
//! joined by a bar, the names of the tables on one line.

use vstd::prelude::*;
use vstd::string::*;
use crate::schema::{EntryKind, SchemaEntry, SchemaEntryView, schema_view};

verus! {

/// The text of one decimal digit.
pub open spec fn digit_text(d: nat) -> Seq<char> {
    if d == 0 {
        "0"@
    } else if d == 1 {
        "1"@
    } else if d == 2 {
        "2"@
    } else if d == 3 {
        "3"@
    } else if d == 4 {
        "4"@
    } else if d == 5 {
        "5"@
    } else if d == 6 {
        "6"@
    } else if d == 7 {
        "7"@
    } else if d == 8 {
        "8"@
    } else {
        "9"@
    }
}

/// The decimal digits of `n`, without leading zeros.
pub open spec fn decimal(n: nat) -> Seq<char>
    decreases n,
{
    if n < 10 {
        digit_text(n)
    } else {
        decimal(n / 10) + digit_text(n % 10)
    }
}

/// `v` in decimal, with a minus sign where it is negative.
pub open spec fn signed_decimal(v: int) -> Seq<char> {
    if v < 0 {
        "-"@ + decimal((-v) as nat)
    } else {
        decimal(v as nat)
    }
}

fn digit_str(d: u64) -> (r: &'static str)
    requires
        d < 10,
    ensures
        r@ == digit_text(d as nat),
{
    if d == 0 {
        "0"
    } else if d == 1 {
        "1"
    } else if d == 2 {
        "2"
    } else if d == 3 {
        "3"
    } else if d == 4 {
        "4"
    } else if d == 5 {
        "5"
    } else if d == 6 {
        "6"
    } else if d == 7 {
        "7"
    } else if d == 8 {
        "8"
    } else {
        "9"
    }
}

/// Appends the decimal digits of `n` to `out`.
fn push_decimal(out: &mut String, n: u64)
    ensures
        final(out)@ == old(out)@ + decimal(n as nat),
    decreases n,
{
    if n >= 10 {
        push_decimal(out, n / 10);
    }
    out.append(digit_str(n % 10));
    assert(final(out)@ =~= old(out)@ + decimal(n as nat));
}

/// `v` in decimal.
pub fn render_integer(v: i64) -> (r: String)
    ensures
        r@ == signed_decimal(v as int),
{
    let mut out = String::new();
    if v < 0 {
        out.append("-");
        let magnitude: u64 = if v == i64::MIN {
            0x8000_0000_0000_0000
        } else {
            (-v) as u64
        };
        push_decimal(&mut out, magnitude);
    } else {
        push_decimal(&mut out, v as u64);
    }
    assert(out@ =~= signed_decimal(v as int));
    out
}

/// The cells from `i` on, each but the first with a bar before it.
pub open spec fn joined_from(cells: Seq<String>, i: nat) -> Seq<char>
    decreases cells.len() - i,
{
    if i >= cells.len() {
        Seq::empty()
    } else if i == 0 {
        cells[0]@ + joined_from(cells, 1)
    } else {
        "|"@ + cells[i as int]@ + joined_from(cells, i + 1)
    }
}

/// The cells of a row joined by a bar.
pub fn join_cells(cells: &Vec<String>) -> (r: String)
    ensures
        r@ == joined_from(cells@, 0),
{
    let mut out = String::new();
    let mut i: usize = 0;
    assert(out@ + joined_from(cells@, 0) =~= joined_from(cells@, 0));
    while i < cells.len()
        invariant
            i <= cells@.len(),
            joined_from(cells@, 0) == out@ + joined_from(cells@, i as nat),
        decreases cells@.len() - i,
    {
        let ghost before = out@;
        let ghost rest = joined_from(cells@, (i + 1) as nat);
        if i > 0 {
            out.append("|");
        }
        out.append(cells[i].as_str());
        proof {
            if i > 0 {
                assert(out@ + rest =~= before + ("|"@ + cells@[i as int]@ + rest));
            } else {
                assert(out@ + rest =~= before + (cells@[0]@ + rest));
            }
        }
        i += 1;
    }
    assert(out@ + Seq::<char>::empty() =~= out@);
    out
}

/// The names of the tables among the entries from `i` on, each followed
/// by a space.
pub open spec fn tables_from(schema: Seq<SchemaEntryView>, i: nat) -> Seq<char>
    decreases schema.len() - i,
{
    if i >= schema.len() {
        Seq::empty()
    } else if schema[i as int].kind == EntryKind::Table {
        schema[i as int].tbl_name + " "@ + tables_from(schema, i + 1)
    } else {
        tables_from(schema, i + 1)
    }
}

/// The names of the tables of the schema in schema order, each followed
/// by a space.
pub fn tables_line(schema: &Vec<SchemaEntry>) -> (r: String)
    ensures
        r@ == tables_from(schema_view(schema@), 0),
{
    let ghost all = schema_view(schema@);
    let mut out = String::new();
    let mut i: usize = 0;
    assert(out@ + tables_from(all, 0) =~= tables_from(all, 0));
    while i < schema.len()
        invariant
            i <= schema@.len(),
            all == schema_view(schema@),
            tables_from(all, 0) == out@ + tables_from(all, i as nat),
        decreases schema@.len() - i,
    {
        let entry = &schema[i];
        assert(all[i as int] == entry@);
        let is_table: bool = match entry.kind {
            EntryKind::Table => true,
            _ => false,
        };
        if is_table {
            let ghost before = out@;
            let ghost rest = tables_from(all, (i + 1) as nat);
            out.append(entry.tbl_name.as_str());
            out.append(" ");
            assert(out@ + rest =~= before + (entry@.tbl_name + " "@ + rest));
        }
        i += 1;
    }
    assert(out@ + Seq::<char>::empty() =~= out@);
    out
}

} // verus!
