//! Saturating 64-bit arithmetic: the spec-level model of how duration
//! totals clamp at `u64::MAX` instead of overflowing.

use vstd::prelude::*;

verus! {

/// A mathematical integer clamped into the `u64` range.
pub open spec fn clamp64(n: nat) -> u64 {
    if n > u64::MAX {
        u64::MAX
    } else {
        n as u64
    }
}

/// `u64` addition that saturates at `u64::MAX`.
pub open spec fn sat_add(a: u64, b: u64) -> u64 {
    clamp64((a + b) as nat)
}

/// `u64` multiplication that saturates at `u64::MAX`.
pub open spec fn sat_mul(a: u64, b: u64) -> u64 {
    clamp64((a * b) as nat)
}

pub proof fn lemma_sat_add_comm(a: u64, b: u64)
    ensures
        sat_add(a, b) == sat_add(b, a),
{
}

pub proof fn lemma_sat_add_zero(a: u64)
    ensures
        sat_add(a, 0) == a,
        sat_add(0, a) == a,
{
}

pub proof fn lemma_sat_add_assoc(a: u64, b: u64, c: u64)
    ensures
        sat_add(sat_add(a, b), c) == sat_add(a, sat_add(b, c)),
{
}

/// Saturating multiplication by a positive scale distributes over
/// saturating addition: scaling two amounts separately and adding
/// saturates to the same value as adding first and scaling once.
pub proof fn lemma_sat_mul_distributes(a: u64, b: u64, k: u64)
    requires
        1 <= k,
    ensures
        sat_add(sat_mul(a, k), sat_mul(b, k)) == sat_mul(sat_add(a, b), k),
{
    assert(a * k + b * k == (a + b) * k) by (nonlinear_arith);
    assert(a * k >= a) by (nonlinear_arith)
        requires 1 <= k;
    assert(b * k >= b) by (nonlinear_arith)
        requires 1 <= k;
    if a + b > u64::MAX {
        assert(sat_add(a, b) == u64::MAX);
        assert(u64::MAX * k >= u64::MAX) by (nonlinear_arith)
            requires 1 <= k;
        assert(sat_mul(sat_add(a, b), k) == u64::MAX);
        assert(a * k + b * k >= a + b);
        assert(sat_add(sat_mul(a, k), sat_mul(b, k)) == u64::MAX);
    }
}

} // verus!
