use vstd::prelude::*;

verus! {

/// `x` capped at the largest `u64`.
pub open spec fn clamp_u64(x: int) -> int {
    if x > u64::MAX as int {
        u64::MAX as int
    } else {
        x
    }
}

/// `used` over `total` in hundredths of a percent, rounded down; 0 when `total` is 0.
pub open spec fn percent_spec(used: nat, total: nat) -> nat {
    if total == 0 {
        0
    } else {
        (used * 10000) / total
    }
}

/// Hundredths of a percent that `used` is of `total`: a zero `total` gives 0,
/// and a ratio too large for `u64` is capped.
pub fn percent_of(used: u64, total: u64) -> (r: u64)
    ensures
        r as int == clamp_u64(percent_spec(used as nat, total as nat) as int),
{
    if total == 0 {
        return 0;
    }
    let q: u128 = (used as u128) * 10000 / (total as u128);
    if q > u64::MAX as u128 {
        u64::MAX
    } else {
        q as u64
    }
}

/// Adding to a capped total is adding with saturation.
pub proof fn lemma_clamp_add(t: int, x: int)
    requires
        t >= 0,
        0 <= x <= u64::MAX,
    ensures
        clamp_u64(t + x) == (if clamp_u64(t) + x > u64::MAX { u64::MAX as int } else { clamp_u64(t) + x }),
{
}

/// A share is at most 100% unless the part exceeds the whole, and a zero whole
/// gives 0%.
pub proof fn lemma_percent_range(used: nat, total: nat)
    ensures
        used <= total ==> percent_spec(used, total) <= 10000,
        percent_spec(used, total) > 10000 ==> used > total,
        total == 0 ==> percent_spec(used, total) == 0,
        total > 0 && used == total ==> percent_spec(used, total) == 10000,
{
    if total > 0 {
        if used <= total {
            assert((used * 10000) / total <= 10000) by (nonlinear_arith)
                requires
                    used <= total,
                    total > 0,
            ;
        }
        if used == total {
            assert((used * 10000) / total == 10000) by (nonlinear_arith)
                requires
                    used == total,
                    total > 0,
            ;
        }
    }
}

} // verus!
