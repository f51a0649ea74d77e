//! Protocol-version gating of the WebSocket handshake.
//!
//! The client advertises the sub-label `hl/<major>` in its upgrade request;
//! the server refuses the upgrade unless the offered sub-label is present
//! and equal to its own, and echoes it back; the client then refuses the
//! connection unless the echo equals what it sent. Both decisions reduce to
//! the one equality test in this module, and distinct majors are proved to
//! yield distinct labels, so a gate between different majors always refuses.

use crate::wire::bytes_eq;
use vstd::prelude::*;

verus! {

/// Decimal digits of `n`, most significant first, as ASCII bytes.
pub open spec fn spec_decimal(n: nat) -> Seq<u8>
    decreases n,
{
    if n < 10 {
        seq![(48 + n) as u8]
    } else {
        spec_decimal(n / 10) + seq![(48 + n % 10) as u8]
    }
}

/// The protocol sub-label for a major version: the ASCII bytes of
/// `hl/<major>`.
pub open spec fn spec_label(major: u64) -> Seq<u8> {
    seq![104u8, 108u8, 47u8] + spec_decimal(major as nat)
}

/// A decimal rendering is never empty.
proof fn lemma_decimal_len(n: nat)
    ensures
        spec_decimal(n).len() >= 1,
        n >= 10 ==> spec_decimal(n).len() >= 2,
    decreases n,
{
    if n >= 10 {
        lemma_decimal_len(n / 10);
    }
}

/// Distinct numbers have distinct decimal renderings.
proof fn lemma_decimal_injective(a: nat, b: nat)
    requires
        a != b,
    ensures
        spec_decimal(a) != spec_decimal(b),
    decreases a + b,
{
    let da = spec_decimal(a);
    let db = spec_decimal(b);
    if a < 10 && b < 10 {
        assert(da[0] != db[0]);
    } else if a < 10 && b >= 10 {
        lemma_decimal_len(b);
        assert(da.len() == 1 && db.len() >= 2);
    } else if a >= 10 && b < 10 {
        lemma_decimal_len(a);
        assert(da.len() >= 2 && db.len() == 1);
    } else {
        if a % 10 != b % 10 {
            assert(da.last() == (48 + a % 10) as u8);
            assert(db.last() == (48 + b % 10) as u8);
            assert(da.last() != db.last());
        } else {
            assert(a / 10 != b / 10);
            lemma_decimal_injective(a / 10, b / 10);
            if da == db {
                assert(da.drop_last() =~= spec_decimal(a / 10));
                assert(db.drop_last() =~= spec_decimal(b / 10));
                assert(false);
            }
        }
    }
}

/// Two different major versions never share a sub-label, so a version gate
/// between them always refuses: no request and no reply crosses it.
pub proof fn lemma_label_injective(a: u64, b: u64)
    requires
        a != b,
    ensures
        spec_label(a) != spec_label(b),
{
    lemma_decimal_injective(a as nat, b as nat);
    if spec_label(a) == spec_label(b) {
        assert(spec_label(a).subrange(3, spec_label(a).len() as int) =~= spec_decimal(a as nat));
        assert(spec_label(b).subrange(3, spec_label(b).len() as int) =~= spec_decimal(b as nat));
        assert(false);
    }
}

/// Decimal digits of `n` as ASCII bytes, most significant first.
fn decimal_digits(n: u64) -> (r: Vec<u8>)
    ensures
        r@ == spec_decimal(n as nat),
    decreases n,
{
    if n < 10 {
        let mut out: Vec<u8> = Vec::new();
        out.push(48 + n as u8);
        proof {
            assert(out@ =~= spec_decimal(n as nat));
        }
        out
    } else {
        let mut out = decimal_digits(n / 10);
        out.push(48 + (n % 10) as u8);
        proof {
            assert(out@ =~= spec_decimal(n as nat));
        }
        out
    }
}

/// Builds the sub-label `hl/<major>` that this runtime advertises and
/// expects during the handshake.
pub fn protocol_label(major: u64) -> (r: Vec<u8>)
    ensures
        r@ == spec_label(major),
{
    let mut out: Vec<u8> = Vec::new();
    out.push(104u8);
    out.push(108u8);
    out.push(47u8);
    let mut digits = decimal_digits(major);
    out.append(&mut digits);
    proof {
        assert(out@ =~= spec_label(major));
    }
    out
}

/// The version test both ends make: a sub-label seen on the wire is
/// accepted exactly when it is present and equal to the label this end
/// holds. The server tests the offered sub-label before upgrading; the
/// client tests the echoed sub-label before reporting readiness.
pub fn sub_label_matches(seen: Option<&Vec<u8>>, own: &Vec<u8>) -> (r: bool)
    ensures
        r == (seen matches Some(s) && s@ == own@),
{
    match seen {
        Some(s) => bytes_eq(s, own),
        None => false,
    }
}

} // verus!
