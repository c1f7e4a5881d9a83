//! Normalizing provider-native readings into the registry's fixed-point
//! shape: six implied decimals, with checked rescaling by powers of ten.
//!
//! Reading raw provider accounts belongs to the host platform; this module
//! takes the already-decoded plain values (a price, a decimal exponent, a
//! confidence) and rescales them deterministically.

use vstd::prelude::*;

use crate::errors::OracleError;
use vstd::arithmetic::div_mod::lemma_div_denominator;

verus! {

/// Ten to the `k`.
pub open spec fn pow10(k: nat) -> int
    decreases k,
{
    if k == 0 {
        1
    } else {
        10 * pow10((k - 1) as nat)
    }
}

/// Powers of ten are positive.
pub proof fn lemma_pow10_pos(k: nat)
    ensures
        pow10(k) >= 1,
    decreases k,
{
    if k > 0 {
        lemma_pow10_pos((k - 1) as nat);
    }
}

/// Powers of ten grow with the exponent.
pub proof fn lemma_pow10_mono(j: nat, k: nat)
    requires
        j <= k,
    ensures
        pow10(j) <= pow10(k),
    decreases k,
{
    if j < k {
        lemma_pow10_mono(j, (k - 1) as nat);
        lemma_pow10_pos((k - 1) as nat);
    }
}

/// Twenty decimal digits exceed what a `u64` can hold.
proof fn lemma_pow10_20_large()
    ensures
        pow10(20) > u64::MAX,
{
    reveal_with_fuel(pow10, 21);
}

/// A value rescaled by `shift` decimal places: multiplied by ten to the
/// `shift` when non-negative (a reported failure if that leaves the `u64`
/// range), divided with rounding down when negative.
pub open spec fn scaled_spec(v: u64, shift: int) -> Result<u64, OracleError> {
    if shift >= 0 {
        if v * pow10(shift as nat) > u64::MAX {
            Err(OracleError::ArithmeticError)
        } else {
            Ok((v * pow10(shift as nat)) as u64)
        }
    } else {
        Ok(((v as int) / pow10((-shift) as nat)) as u64)
    }
}

/// Rescales a provider-native amount from decimal exponent `expo` to the
/// registry's six implied decimals.
pub fn scale_to_six_decimals(v: u64, expo: i32) -> (r: Result<u64, OracleError>)
    ensures
        r == scaled_spec(v, expo + 6),
{
    let shift: i64 = (expo as i64) + 6;
    if shift >= 0 {
        let mut acc: u64 = v;
        let mut k: i64 = 0;
        while k < shift
            invariant
                shift == expo + 6,
                0 <= k <= shift,
                acc == (v as int) * pow10(k as nat),
            decreases shift - k,
        {
            proof {
                assert(pow10((k + 1) as nat) == 10 * pow10(k as nat));
                assert((v as int) * (10 * pow10(k as nat)) == 10 * ((v as int) * pow10(
                    k as nat))) by (nonlinear_arith);
            }
            acc = match acc.checked_mul(10) {
                Some(a) => a,
                None => {
                    proof {
                        lemma_pow10_mono((k + 1) as nat, shift as nat);
                        assert((v as int) * pow10((k + 1) as nat) <= (v as int) * pow10(
                            shift as nat)) by (nonlinear_arith)
                            requires
                                0 <= v,
                                pow10((k + 1) as nat) <= pow10(shift as nat),
                        ;
                    }
                    return Err(OracleError::ArithmeticError);
                },
            };
            k = k + 1;
        }
        Ok(acc)
    } else {
        let neg: i64 = -shift;
        if neg > 19 {
            proof {
                lemma_pow10_20_large();
                lemma_pow10_mono(20, neg as nat);
                lemma_pow10_pos(neg as nat);
                assert((v as int) / pow10(neg as nat) == 0) by (nonlinear_arith)
                    requires
                        0 <= (v as int) < pow10(neg as nat),
                ;
            }
            return Ok(0);
        }
        let mut acc: u64 = v;
        let mut k: i64 = 0;
        while k < neg
            invariant
                shift == expo + 6,
                neg == -shift,
                0 <= k <= neg,
                acc == (v as int) / pow10(k as nat),
            decreases neg - k,
        {
            proof {
                lemma_pow10_pos(k as nat);
                lemma_div_denominator(v as int, pow10(k as nat), 10);
                assert(pow10(k as nat) * 10 == 10 * pow10(k as nat)) by (nonlinear_arith);
                assert(pow10((k + 1) as nat) == 10 * pow10(k as nat));
            }
            acc = acc / 10;
            k = k + 1;
        }
        Ok(acc)
    }
}

} // verus!
