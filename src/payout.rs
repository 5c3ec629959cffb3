//! Splitting a round's pot, and the draw that picks its two winners.
use vstd::prelude::*;

use vstd::arithmetic::div_mod::{lemma_fundamental_div_mod, lemma_hoist_over_denominator};

verus! {

/// Draw index of the first winner in the deterministic draw.
pub const FIRST_DRAW: usize = 7;

/// Draw index of the second winner in the deterministic draw.
pub const SECOND_DRAW: usize = 8;

/// `ratio` percent of `total`, rounded down.
pub open spec fn share(total: nat, ratio: nat) -> nat {
    total * ratio / 100
}

/// `ratio` percent of `total`, rounded down, or `None` where that passes the
/// 128-bit range.
pub fn multiply_ratio(total: u128, ratio: u8) -> (r: Option<u128>)
    ensures
        r is Some <==> share(total as nat, ratio as nat) <= u128::MAX,
        r matches Some(x) ==> x == share(total as nat, ratio as nat),
{
    let q = total / 100;
    let rem = total % 100;
    assert(rem * (ratio as int) <= 99 * 255) by (nonlinear_arith)
        requires
            rem < 100,
            ratio <= 255,
    ;
    let low = rem * (ratio as u128) / 100;
    proof {
        let t = total as int;
        let r = ratio as int;
        lemma_fundamental_div_mod(t, 100);
        assert(t * r == (rem * r) + (q * r) * 100) by (nonlinear_arith)
            requires
                t == 100 * q + rem,
        ;
        lemma_hoist_over_denominator(rem * r, q * r, 100);
        assert(share(total as nat, ratio as nat) == low + q * r);
        assert(q * r >= 0) by (nonlinear_arith)
            requires
                q >= 0,
                r >= 0,
        ;
    }
    match q.checked_mul(ratio as u128) {
        Some(high) => high.checked_add(low),
        None => None,
    }
}

/// The two draw indices from which winners are picked: each is taken modulo
/// the number of investors. The deterministic draw uses fixed indices; a
/// source of randomness can supply others.
#[derive(Clone, Copy, Debug, PartialEq, Eq)]
pub struct Draw {
    pub first: usize,
    pub second: usize,
}

/// The positions of the two winners among `count` investors.
pub open spec fn winner_slots(draw: Draw, count: nat) -> (int, int) {
    ((draw.first as nat % count) as int, (draw.second as nat % count) as int)
}

impl Draw {
    /// The deterministic draw, as a value.
    pub open spec fn fixed_spec() -> Draw {
        Draw { first: FIRST_DRAW, second: SECOND_DRAW }
    }

    /// The deterministic draw with the fixed indices. It is predictable and
    /// offers no protection against a caller who knows the investor list.
    pub fn fixed() -> (r: Draw)
        ensures
            r == Draw::fixed_spec(),
    {
        Draw { first: FIRST_DRAW, second: SECOND_DRAW }
    }

    /// The positions of the two winners among `count` investors.
    pub fn pick(&self, count: usize) -> (r: (usize, usize))
        requires
            count > 0,
        ensures
            r.0 < count,
            r.1 < count,
            (r.0 as int, r.1 as int) == winner_slots(*self, count as nat),
    {
        (self.first % count, self.second % count)
    }
}

/// What is left of `total` after the three payouts, or zero where they
/// together pass it.
pub open spec fn unassigned(total: nat, first: nat, second: nat, owner: nat) -> nat {
    if first + second + owner <= total {
        (total - (first + second + owner)) as nat
    } else {
        0
    }
}

/// Where the three payout ratios add up to at most a hundred, the three
/// payouts together never pass the pot; and they use it up exactly only where
/// the ratios add up to a hundred (or the pot is empty).
pub proof fn lemma_payouts_within_pot(total: nat, r1: nat, r2: nat, r3: nat)
    requires
        r1 + r2 + r3 <= 100,
    ensures
        share(total, r1) + share(total, r2) + share(total, r3) <= total,
        share(total, r1) + share(total, r2) + share(total, r3) == total ==> r1 + r2 + r3 == 100
            || total == 0,
        unassigned(total, share(total, r1), share(total, r2), share(total, r3)) == total - (share(
            total,
            r1,
        ) + share(total, r2) + share(total, r3)),
{
    let t = total as int;
    lemma_fundamental_div_mod(t * r1, 100);
    lemma_fundamental_div_mod(t * r2, 100);
    lemma_fundamental_div_mod(t * r3, 100);
    let s1 = share(total, r1) as int;
    let s2 = share(total, r2) as int;
    let s3 = share(total, r3) as int;
    assert(100 * (s1 + s2 + s3) <= t * (r1 + r2 + r3)) by (nonlinear_arith)
        requires
            t * r1 == 100 * s1 + (t * r1) % 100,
            t * r2 == 100 * s2 + (t * r2) % 100,
            t * r3 == 100 * s3 + (t * r3) % 100,
            (t * r1) % 100 >= 0,
            (t * r2) % 100 >= 0,
            (t * r3) % 100 >= 0,
    ;
    assert(t * (r1 + r2 + r3) <= 100 * t) by (nonlinear_arith)
        requires
            r1 + r2 + r3 <= 100,
            t >= 0,
    ;
    if s1 + s2 + s3 == t && r1 + r2 + r3 < 100 && t > 0 {
        assert(t * (r1 + r2 + r3) <= 99 * t) by (nonlinear_arith)
            requires
                r1 + r2 + r3 <= 99,
                t >= 0,
        ;
    }
}

} // verus!
