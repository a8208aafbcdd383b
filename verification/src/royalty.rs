//! Royalty arithmetic. A sale or claim at `price` with royalty percentage
//! `pct` pays `floor(price * pct / 100)` to the fee recipient and the rest
//! to the seller, so the floor-division remainder always stays on the
//! seller's side.

use vstd::arithmetic::div_mod::{lemma_fundamental_div_mod, lemma_hoist_over_denominator};
use vstd::prelude::*;

verus! {

/// The fee owed at `price` with royalty percentage `pct`.
pub open spec fn royalty_of(price: int, pct: int) -> int {
    price * pct / 100
}

/// Royalty conservation: with a percentage of at most 100, the fee never
/// exceeds the price, the seller's and the fee recipient's amounts sum
/// exactly to the price, and the seller's side keeps at least its exact
/// proportional share (the rounding remainder).
pub proof fn lemma_royalty_conservation(price: int, pct: int)
    requires
        0 <= price,
        0 <= pct <= 100,
    ensures
        0 <= royalty_of(price, pct) <= price,
        (price - royalty_of(price, pct)) + royalty_of(price, pct) == price,
        (price - royalty_of(price, pct)) * 100 >= price * (100 - pct),
{
    let fee = royalty_of(price, pct);
    assert(0 <= price * pct) by (nonlinear_arith)
        requires
            0 <= price,
            0 <= pct,
    ;
    assert(price * pct <= price * 100) by (nonlinear_arith)
        requires
            0 <= price,
            0 <= pct <= 100,
    ;
    assert(0 <= fee) by (nonlinear_arith)
        requires
            0 <= price * pct,
            fee == price * pct / 100,
    ;
    assert(price * 100 / 100 == price) by (nonlinear_arith);
    assert(fee <= price) by (nonlinear_arith)
        requires
            price * pct <= price * 100,
            fee == price * pct / 100,
            price * 100 / 100 == price,
    ;
    assert(100 * fee <= price * pct) by {
        lemma_fundamental_div_mod(price * pct, 100);
    }
    assert((price - fee) * 100 == price * 100 - 100 * fee) by (nonlinear_arith);
    assert(price * (100 - pct) == price * 100 - price * pct) by (nonlinear_arith);
}

/// Compute the fee, exactly `floor(price * pct / 100)`, without the
/// product ever leaving the machine range: split the price at the
/// hundreds.
pub fn compute_royalty(price: u128, pct: u128) -> (r: u128)
    requires
        pct <= 100,
    ensures
        r == royalty_of(price as int, pct as int),
        r <= price,
    {
    let q = price / 100;
    let s = price % 100;
    proof {
        lemma_royalty_conservation(price as int, pct as int);
        assert(q * pct <= price) by (nonlinear_arith)
            requires
                q == price / 100,
                0 <= pct <= 100,
                0 <= price < u128::MAX + 1,
        ;
        assert(s * pct <= 9900) by (nonlinear_arith)
            requires
                0 <= s < 100,
                0 <= pct <= 100,
        ;
        assert(q * pct + s * pct / 100 == royalty_of(price as int, pct as int)) by {
            lemma_hoist_over_denominator(s as int * pct as int, q as int * pct as int, 100);
            assert(s as int * pct as int + (q as int * pct as int) * 100 == price as int
                * pct as int) by (nonlinear_arith)
                requires
                    price == 100 * (q as int) + s as int,
            ;
        }
        assert(q * pct + s * pct / 100 <= price);
    }
    q * pct + (s * pct) / 100
}

} // verus!
