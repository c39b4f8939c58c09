use vstd::prelude::*;

verus! {

/// Fixed-point unity: positions, rates and gains carry sixteen fractional bits.
pub const ONE: u64 = 65536;

/// Floor division of a signed value by a positive divisor.
pub fn floor_div(x: i128, d: u64) -> (r: i128)
    requires
        d > 0,
        x > i128::MIN,
    ensures
        r == (x as int) / (d as int),
{
    if x >= 0 {
        let q = (x as u128) / (d as u128);
        q as i128
    } else {
        let n = (-x) as u128;
        let q = n / (d as u128);
        let m = n % (d as u128);
        proof {
            let di = d as int;
            vstd::arithmetic::div_mod::lemma_fundamental_div_mod(n as int, di);
            assert(q as int <= n as int) by {
                vstd::arithmetic::div_mod::lemma_div_is_ordered_by_denominator(n as int, 1, di);
            }
        }
        if m == 0 {
            proof {
                let (di, qi) = (d as int, q as int);
                assert((-qi) * di == -(di * qi)) by (nonlinear_arith);
                vstd::arithmetic::div_mod::lemma_fundamental_div_mod_converse(
                    x as int, d as int, -(q as int), 0);
            }
            -(q as i128)
        } else {
            proof {
                let (di, qi) = (d as int, q as int);
                assert((-qi - 1) * di == -(di * qi) - di) by (nonlinear_arith);
                vstd::arithmetic::div_mod::lemma_fundamental_div_mod_converse(
                    x as int, d as int, -(q as int) - 1, (d as int) - (m as int));
            }
            -(q as i128) - 1
        }
    }
}

/// The smaller of two integers.
pub open spec fn min_int(a: int, b: int) -> int {
    if a <= b { a } else { b }
}

} // verus!
