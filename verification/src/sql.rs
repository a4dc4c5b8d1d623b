//! SQL text shared by the backends: the multi-row VALUES clause of a
//! batch insert, and the placeholder list of a delivery update. Built
//! here so the placeholder numbering is right for every batch size; the
//! backends bind the parameters and execute.

use vstd::prelude::*;
use vstd::string::StringSliceAdditionalSpecFns;
use crate::text::{decimal_digits, push_decimal};

verus! {

/// `$k`.
pub open spec fn placeholder(k: int) -> Seq<u8> {
    seq![36u8] + decimal_digits(k)
}

/// `($b, $b+1, $b+2, $b+3)`: the placeholders of one inserted row, whose
/// four columns take the parameters `b` through `b + 3`.
pub open spec fn row_placeholders(b: int) -> Seq<u8> {
    seq![40u8] + placeholder(b) + seq![44u8, 32u8] + placeholder(b + 1) + seq![44u8, 32u8]
        + placeholder(b + 2) + seq![44u8, 32u8] + placeholder(b + 3) + seq![41u8]
}

/// The VALUES clause for `n` rows: row groups joined by `, `, the i-th
/// group (from 0) starting at parameter `4 i + 1`.
pub open spec fn values_clause(n: int) -> Seq<u8>
    decreases n,
{
    if n <= 0 {
        Seq::empty()
    } else if n == 1 {
        row_placeholders(1)
    } else {
        values_clause(n - 1) + seq![44u8, 32u8] + row_placeholders(4 * (n - 1) + 1)
    }
}

/// The placeholder list `$2, ..., $(n+1)` of a delivery update on `n`
/// ids; `$1` carries the timestamp.
pub open spec fn id_list(n: int) -> Seq<u8>
    decreases n,
{
    if n <= 0 {
        Seq::empty()
    } else if n == 1 {
        placeholder(2)
    } else {
        id_list(n - 1) + seq![44u8, 32u8] + placeholder(n + 1)
    }
}

/// The full multi-row INSERT statement for `n` messages.
pub open spec fn spec_insert_query(n: int) -> Seq<u8> {
    "INSERT INTO solid_mcp_messages (session_id, event_type, data, created_at) VALUES ".spec_bytes()
        + values_clause(n)
}

/// The full delivery update statement for `n` ids.
pub open spec fn spec_mark_delivered_query(n: int) -> Seq<u8> {
    "UPDATE solid_mcp_messages SET delivered_at = $1 WHERE id IN (".spec_bytes() + id_list(n)
        + seq![41u8]
}

/// Append `$k`.
fn push_placeholder(out: &mut Vec<u8>, k: u64)
    ensures
        final(out)@ == old(out)@ + placeholder(k as int),
{
    out.push(36);
    push_decimal(out, k);
    proof {
        assert(out@ =~= old(out)@ + placeholder(k as int));
    }
}

/// Append `($b, $b+1, $b+2, $b+3)`.
fn push_row(out: &mut Vec<u8>, b: u64)
    requires
        b + 3 <= u64::MAX,
    ensures
        final(out)@ == old(out)@ + row_placeholders(b as int),
{
    out.push(40);
    push_placeholder(out, b);
    out.push(44);
    out.push(32);
    push_placeholder(out, b + 1);
    out.push(44);
    out.push(32);
    push_placeholder(out, b + 2);
    out.push(44);
    out.push(32);
    push_placeholder(out, b + 3);
    out.push(41);
    proof {
        assert(out@ =~= old(out)@ + row_placeholders(b as int));
    }
}

/// The VALUES clause of a batch insert of `n` messages, as bytes.
pub fn insert_values_clause(n: usize) -> (r: Vec<u8>)
    requires
        4 * (n as int) + 1 <= u64::MAX,
    ensures
        r@ == values_clause(n as int),
{
    let mut out: Vec<u8> = Vec::new();
    let mut i: usize = 0;
    proof {
        assert(out@ =~= values_clause(0));
    }
    while i < n
        invariant
            i <= n,
            4 * (n as int) + 1 <= u64::MAX,
            out@ == values_clause(i as int),
        decreases n - i,
    {
        let ghost before = out@;
        if i > 0 {
            out.push(44);
            out.push(32);
        }
        let b: u64 = 4 * (i as u64) + 1;
        push_row(&mut out, b);
        proof {
            if i == 0 {
                assert(out@ =~= values_clause(1));
            } else {
                assert(out@ =~= values_clause(i as int) + seq![44u8, 32u8] + row_placeholders(
                    4 * (i as int) + 1,
                ));
                assert(out@ =~= values_clause(i as int + 1));
            }
        }
        i += 1;
    }
    out
}

/// The full multi-row INSERT statement for `n` messages, as bytes. The
/// backend binds, for each message in order, its session id, event type,
/// payload and creation instant.
pub fn insert_query(n: usize) -> (r: Vec<u8>)
    requires
        1 <= n,
        4 * (n as int) + 1 <= u64::MAX,
    ensures
        r@ == spec_insert_query(n as int),
{
    let mut out: Vec<u8> = Vec::new();
    out.extend_from_slice(
        "INSERT INTO solid_mcp_messages (session_id, event_type, data, created_at) VALUES "
            .as_bytes(),
    );
    let mut clause = insert_values_clause(n);
    out.append(&mut clause);
    proof {
        assert(out@ =~= spec_insert_query(n as int));
    }
    out
}

/// The full delivery update statement for `n` ids, as bytes. The backend
/// binds the current instant as `$1` and the ids in order after it.
pub fn mark_delivered_query(n: usize) -> (r: Vec<u8>)
    requires
        1 <= n,
        (n as int) + 1 <= u64::MAX,
    ensures
        r@ == spec_mark_delivered_query(n as int),
{
    let mut out: Vec<u8> = Vec::new();
    out.extend_from_slice(
        "UPDATE solid_mcp_messages SET delivered_at = $1 WHERE id IN (".as_bytes(),
    );
    let ghost prefix = out@;
    let mut i: usize = 0;
    proof {
        assert(out@ =~= prefix + id_list(0));
    }
    while i < n
        invariant
            i <= n,
            (n as int) + 1 <= u64::MAX,
            out@ == prefix + id_list(i as int),
        decreases n - i,
    {
        if i > 0 {
            out.push(44);
            out.push(32);
        }
        push_placeholder(&mut out, (i as u64) + 2);
        proof {
            if i == 0 {
                assert(out@ =~= prefix + id_list(1));
            } else {
                assert(out@ =~= prefix + (id_list(i as int) + seq![44u8, 32u8] + placeholder(
                    i as int + 2,
                )));
                assert(out@ =~= prefix + id_list(i as int + 1));
            }
        }
        i += 1;
    }
    out.push(41);
    proof {
        assert(out@ =~= spec_mark_delivered_query(n as int));
    }
    out
}

} // verus!
