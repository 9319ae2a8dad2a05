//! A `Match` is one simultaneous contest between two distinct alliances.
//! Equality is order-independent: `Match(x, y)` and `Match(y, x)` are the
//! same match.

use vstd::prelude::*;

verus! {

/// An unordered pair of alliance identifiers.
#[derive(Debug, Clone, Copy)]
pub struct Match(pub usize, pub usize);

/// A well-formed match pairs two distinct alliances from 1..=ALLIANCES.
pub open spec fn match_wf(m: Match) -> bool {
    &&& 1 <= m.0 <= crate::ALLIANCES
    &&& 1 <= m.1 <= crate::ALLIANCES
    &&& m.0 != m.1
}

/// Alliance `a` takes part in match `m`.
pub open spec fn appears(m: Match, a: int) -> bool {
    m.0 == a || m.1 == a
}

/// Unordered-pair equality of two matches.
pub open spec fn match_sym_eq(x: Match, y: Match) -> bool {
    ||| (x.0 == y.0 && x.1 == y.1)
    ||| (x.0 == y.1 && x.1 == y.0)
}

impl PartialEq for Match {
    fn eq(&self, other: &Match) -> (r: bool) {
        (self.0 == other.0 && self.1 == other.1) || (self.0 == other.1 && self.1 == other.0)
    }
}

impl Eq for Match {}

impl vstd::std_specs::cmp::PartialEqSpecImpl for Match {
    open spec fn obeys_eq_spec() -> bool {
        true
    }

    open spec fn eq_spec(&self, other: &Match) -> bool {
        match_sym_eq(*self, *other)
    }
}

/// Bit-mixing of a single alliance identifier.
pub open spec fn mix_id(x: u64) -> u64 {
    (((x << 13) | (x >> 51)) ^ ((x << 31) | (x >> 33))) ^ x
}

/// Order-independent hash of a match: the per-identifier hashes are combined
/// with XOR, so the same value comes out whichever way round the pair is
/// stored.
pub open spec fn match_hash(m: Match) -> u64 {
    mix_id(m.0 as u64) ^ mix_id(m.1 as u64)
}

fn mix_id_exec(x: u64) -> (r: u64)
    ensures
        r == mix_id(x),
{
    (((x << 13u64) | (x >> 51u64)) ^ ((x << 31u64) | (x >> 33u64))) ^ x
}

/// Hash of a match, identical for a match and its reverse.
pub fn calculate_hash(m: &Match) -> (r: u64)
    ensures
        r == match_hash(*m),
        r == match_hash(Match(m.1, m.0)),
{
    let h0 = mix_id_exec(m.0 as u64);
    let h1 = mix_id_exec(m.1 as u64);
    proof {
        assert(h0 ^ h1 == h1 ^ h0) by (bit_vector);
    }
    h0 ^ h1
}

} // verus!
