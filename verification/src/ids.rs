//! Globally sortable delivery identifiers.
//!
//! An identifier is derived from the task's intended visibility timestamp —
//! a fixed-width hex prefix whose lexicographic order is the numeric order
//! of the timestamps — followed by a random tie-breaker, so concurrent
//! consumers need no coordination to stay collision-free.
use vstd::prelude::*;

use svix_ksuid::KsuidLike;

use crate::hexnum::{hex_digit_char, hex_seq, lemma_hex_seq_len, lemma_hex_seq_lt, lemma_lex_append,
    lex_lt, push_hex};

verus! {

/// The hex rendering of a byte sequence, two digits per byte.
pub open spec fn bytes_hex(b: Seq<u8>) -> Seq<char>
    decreases b.len(),
{
    if b.len() == 0 {
        Seq::empty()
    } else {
        seq![
            hex_digit_char(b[0] as int / 16),
            hex_digit_char(b[0] as int % 16),
        ] + bytes_hex(b.skip(1))
    }
}

pub proof fn lemma_bytes_hex_len(b: Seq<u8>)
    ensures
        bytes_hex(b).len() == 2 * b.len(),
    decreases b.len(),
{
    if b.len() > 0 {
        lemma_bytes_hex_len(b.skip(1));
    }
}

/// The identifier for visibility time `ts` with tie-breaker `tie`.
pub open spec fn spec_delivery_id(ts: u64, tie: Seq<u8>) -> Seq<char> {
    hex_seq(ts as int, 16) + bytes_hex(tie)
}

/// Relies on svix_ksuid::Ksuid::new_raw: the payload half of a fresh ksuid
/// is sixteen bytes drawn from the operating-system random source.
#[verifier::external_body]
fn fresh_tie_breaker() -> (r: Vec<u8>)
    ensures
        r@.len() == 16,
{
    svix_ksuid::Ksuid::new_raw(0, None).payload().to_vec()
}

fn push_bytes_hex(out: &mut String, b: &Vec<u8>, i: usize)
    requires
        i <= b@.len(),
    ensures
        final(out)@ == old(out)@ + bytes_hex(b@.skip(i as int)),
    decreases b@.len() - i,
{
    if i == b.len() {
        proof {
            assert(out@ =~= old(out)@ + bytes_hex(b@.skip(i as int)));
        }
    } else {
        let x: u8 = b[i];
        let hi: &'static str = crate::hexnum::hex_digit_str((x / 16) as u64);
        let lo: &'static str = crate::hexnum::hex_digit_str((x % 16) as u64);
        out.append(hi);
        out.append(lo);
        push_bytes_hex(out, b, i + 1);
        proof {
            let rest = b@.skip(i as int);
            assert(rest[0] == b@[i as int]);
            assert(rest.skip(1) =~= b@.skip(i as int + 1));
            assert(out@ =~= old(out)@ + bytes_hex(rest));
        }
    }
}

/// A fresh identifier for a delivery visible at `ts`: the sortable hex
/// timestamp prefix, then a random thirty-two-digit tie-breaker.
pub fn delivery_id(ts: u64) -> (r: String)
    ensures
        r@.len() == 48,
        r@.subrange(0, 16) == hex_seq(ts as int, 16),
{
    let tie: Vec<u8> = fresh_tie_breaker();
    let mut r = String::new();
    push_hex(&mut r, ts, 16);
    push_bytes_hex(&mut r, &tie, 0);
    proof {
        lemma_hex_seq_len(ts as int, 16);
        assert(tie@.skip(0) =~= tie@);
        lemma_bytes_hex_len(tie@);
        assert(r@.subrange(0, 16) =~= hex_seq(ts as int, 16));
    }
    r
}

/// Identifiers generated for increasing visibility timestamps compare as
/// increasing, whatever their random tie-breakers are.
pub proof fn lemma_delivery_id_sortable(ts1: u64, ts2: u64, id1: Seq<char>, id2: Seq<char>)
    requires
        ts1 < ts2,
        id1.len() >= 16,
        id2.len() >= 16,
        id1.subrange(0, 16) == hex_seq(ts1 as int, 16),
        id2.subrange(0, 16) == hex_seq(ts2 as int, 16),
    ensures
        lex_lt(id1, id2),
{
    assert(crate::hexnum::pow16(16) == 0x10000000000000000) by {
        reveal_with_fuel(crate::hexnum::pow16, 17);
    }
    lemma_hex_seq_lt(ts1 as int, ts2 as int, 16);
    lemma_lex_append(
        id1.subrange(0, 16),
        id2.subrange(0, 16),
        id1.skip(16),
        id2.skip(16),
    );
    assert(id1 =~= id1.subrange(0, 16) + id1.skip(16));
    assert(id2 =~= id2.subrange(0, 16) + id2.skip(16));
}

} // verus!
