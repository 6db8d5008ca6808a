//! When a call to the gateway is tried again, and after how long.

use vstd::prelude::*;

verus! {

/// Statuses that ask the caller to come back later: too many requests, and overloaded.
pub open spec fn spec_is_retryable(status: u16) -> bool {
    status == 429 || status == 529
}

pub fn is_retryable(status: u16) -> (res: bool)
    ensures
        res == spec_is_retryable(status),
{
    status == 429 || status == 529
}

/// `2^n`, saturated at `u32::MAX`.
pub open spec fn pow2_saturated(n: nat) -> nat
    decreases n,
{
    if n == 0 {
        1
    } else {
        let p = 2 * pow2_saturated((n - 1) as nat);
        if p > u32::MAX { u32::MAX as nat } else { p }
    }
}

/// A retryable answer is tried again while the attempts made do not exceed the retries
/// allowed.
pub fn should_retry(status: u16, attempts: u32, max_retries: usize) -> (res: bool)
    ensures
        res == (spec_is_retryable(status) && attempts as int <= max_retries as int),
{
    is_retryable(status) && (attempts as u64) <= (max_retries as u64)
}

/// The wait before attempt `attempts + 1`: the base wait doubled for each attempt after
/// the first (the factor saturating at `u32::MAX`), in milliseconds.
pub fn backoff_ms(base_ms: u64, attempts: u32) -> (res: u128)
    requires
        attempts >= 1,
    ensures
        res == base_ms * pow2_saturated((attempts - 1) as nat),
{
    let mut factor: u32 = 1;
    let mut i: u32 = 1;
    while i < attempts
        invariant
            1 <= i <= attempts,
            factor as nat == pow2_saturated((i - 1) as nat),
        decreases attempts - i,
    {
        factor = if factor <= 0x7fff_ffff { factor * 2 } else { u32::MAX };
        proof {
            assert(pow2_saturated(i as nat) == {
                let p = 2 * pow2_saturated((i - 1) as nat);
                if p > u32::MAX { u32::MAX as nat } else { p }
            });
        }
        i = i + 1;
    }
    proof {
        assert(base_ms * factor <= 0xffff_ffff_ffff_ffffu128 * 0xffff_ffffu128) by (nonlinear_arith)
            requires
                base_ms <= 0xffff_ffff_ffff_ffffu64,
                factor <= 0xffff_ffffu32;
    }
    (base_ms as u128) * (factor as u128)
}

} // verus!
