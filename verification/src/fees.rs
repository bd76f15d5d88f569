//! The fee calculator: splits a single-denomination amount into a protocol
//! fee (the configured basis-point rate, rounded up) and a remainder.

use vstd::prelude::*;

use crate::types::{Coin, Config};

verus! {

/// Fee rates are expressed in basis points: 10000 bps == 100%.
pub const BPS_DENOMINATOR: u64 = 10000;

/// Ceiling division: the least integer at or above `n / d`, for `n >= 0` and `d > 0`.
pub open spec fn ceil_div(n: int, d: int) -> int {
    (n + d - 1) / d
}

/// The protocol fee charged on `amount` at `bps` basis points: `ceil(amount * bps / 10000)`.
pub open spec fn spec_fee(amount: int, bps: int) -> int {
    ceil_div(amount * bps, BPS_DENOMINATOR as int)
}

/// `ceil_div(n, d)` really is the ceiling of `n / d`: it is the least
/// integer `c` with `c * d >= n`.
pub proof fn lemma_ceil_div_is_ceiling(n: int, d: int)
    requires
        0 <= n,
        0 < d,
    ensures
        ceil_div(n, d) * d >= n,
        forall|c: int| #[trigger] (c * d) >= n ==> c >= ceil_div(n, d),
{
    assert(ceil_div(n, d) * d >= n) by (nonlinear_arith)
        requires
            0 <= n,
            0 < d,
    {
        let q = (n + d - 1) / d;
        let r = (n + d - 1) % d;
        assert(n + d - 1 == d * q + r);
        assert(0 <= r < d);
    }
    assert forall|c: int| #[trigger] (c * d) >= n implies c >= ceil_div(n, d) by {
        assert(c * d >= n ==> c >= (n + d - 1) / d) by (nonlinear_arith)
            requires
                0 <= n,
                0 < d,
        {
            let q = (n + d - 1) / d;
            let r = (n + d - 1) % d;
            assert(n + d - 1 == d * q + r);
            assert(0 <= r < d);
        }
    }
}

/// Conservation: for a positive amount and an in-range rate, the fee and the
/// remainder partition the amount exactly, and neither is negative.
pub proof fn lemma_split_conservation(amount: int, bps: int)
    requires
        0 < amount,
        0 <= bps <= BPS_DENOMINATOR,
    ensures
        0 <= spec_fee(amount, bps) <= amount,
        spec_fee(amount, bps) + (amount - spec_fee(amount, bps)) == amount,
{
    lemma_fee_bounds(amount, bps);
}

/// The fee is between 0 and the amount whenever the rate is at most 100%.
pub proof fn lemma_fee_bounds(amount: int, bps: int)
    requires
        0 <= amount,
        0 <= bps <= BPS_DENOMINATOR,
    ensures
        0 <= spec_fee(amount, bps) <= amount,
{
    assert(0 <= (amount * bps + 9999) / 10000 <= amount) by (nonlinear_arith)
        requires
            0 <= amount,
            0 <= bps <= 10000,
    {
        let n = amount * bps + 9999;
        let q = n / 10000;
        let r = n % 10000;
        assert(n == 10000 * q + r);
        assert(0 <= r < 10000);
        assert(amount * bps <= amount * 10000);
    }
}

/// Splits `amount` at the rate `fee_rate_bps`. Returns the fee, rounded up,
/// and the remainder; a zero remainder is reported as `None` so that callers
/// never construct a zero-amount transfer.
pub fn split(amount: u128, fee_rate_bps: u64) -> (r: (u128, Option<u128>))
    requires
        0 < amount,
        fee_rate_bps <= BPS_DENOMINATOR,
    ensures
        r.0 == spec_fee(amount as int, fee_rate_bps as int),
        r.0 <= amount,
        match r.1 {
            Some(rem) => rem == amount - r.0 && rem > 0,
            None => r.0 == amount,
        },
{
    let q: u128 = amount / (BPS_DENOMINATOR as u128);
    let rest: u128 = amount % (BPS_DENOMINATOR as u128);
    let bps: u128 = fee_rate_bps as u128;

    proof {
        lemma_fee_decompose(amount as int, bps as int);
        lemma_fee_bounds(amount as int, bps as int);
    }
    let fee: u128 = q * bps + (rest * bps + (BPS_DENOMINATOR as u128 - 1)) / (BPS_DENOMINATOR as u128);
    let remainder: u128 = amount - fee;
    if remainder > 0 {
        (fee, Some(remainder))
    } else {
        (fee, None)
    }
}

/// Splits one coin into the protocol's fee coin and, when anything remains
/// after the fee, the distribution coin of the same denomination.
pub fn calculate_payouts(funds: &Coin, config: &Config) -> (r: (Coin, Option<Coin>))
    requires
        funds.amount > 0,
        config.wf(),
    ensures
        r.0.denom@ == funds.denom@,
        r.0.amount == spec_fee(funds.amount as int, config.fee_rate_bps as int),
        match r.1 {
            Some(c) => c.denom@ == funds.denom@ && c.amount == funds.amount - r.0.amount
                && c.amount > 0,
            None => r.0.amount == funds.amount,
        },
{
    let (fee, rem) = split(funds.amount, config.fee_rate_bps);
    let fee_coin = Coin { denom: funds.denom.clone(), amount: fee };
    match rem {
        Some(a) => {
            let dist_coin = Coin { denom: funds.denom.clone(), amount: a };
            (fee_coin, Some(dist_coin))
        },
        None => (fee_coin, None),
    }
}

/// The fee can be computed without overflowing 128-bit arithmetic by
/// splitting the amount at the basis-point denominator: with
/// `q = amount / 10000` and `r = amount % 10000`,
/// `ceil(amount * bps / 10000) == q * bps + ceil(r * bps / 10000)`,
/// and both summands stay at or below their share of `amount`.
proof fn lemma_fee_decompose(amount: int, bps: int)
    requires
        0 <= amount,
        0 <= bps <= BPS_DENOMINATOR,
    ensures
        spec_fee(amount, bps) == (amount / 10000) * bps + ((amount % 10000) * bps + 9999) / 10000,
        (amount / 10000) * bps <= amount,
        ((amount % 10000) * bps + 9999) / 10000 <= amount % 10000,
{
    let q = amount / 10000;
    let r = amount % 10000;
    assert(
        (amount * bps + 9999) / 10000 == q * bps + (r * bps + 9999) / 10000
        && q * bps <= amount
        && (r * bps + 9999) / 10000 <= r
    ) by (nonlinear_arith)
        requires
            0 <= amount,
            0 <= bps <= 10000,
            q == amount / 10000,
            r == amount % 10000,
    {
        assert(amount == 10000 * q + r);
        assert(0 <= r < 10000);
        assert(amount * bps == 10000 * (q * bps) + r * bps);
        let s = r * bps + 9999;
        assert(s / 10000 + q * bps == (s + (q * bps) * 10000) / 10000) by {
            vstd::arithmetic::div_mod::lemma_hoist_over_denominator(s, q * bps, 10000);
        }
        assert(r * bps <= r * 10000);
        assert(s <= r * 10000 + 9999);
        assert((r * 10000 + 9999) / 10000 == r) by {
            vstd::arithmetic::div_mod::lemma_hoist_over_denominator(9999, r, 10000);
        }
        assert(s / 10000 <= (r * 10000 + 9999) / 10000) by {
            vstd::arithmetic::div_mod::lemma_div_is_ordered(s, r * 10000 + 9999, 10000);
        }
        assert(q * bps <= q * 10000);
        assert(q * 10000 <= amount);
    }
}

} // verus!
