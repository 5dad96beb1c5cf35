//! Admission gate: decides whether a request's threshold is satisfiable
//! given the current registry size.

use vstd::prelude::*;

verus! {

/// A threshold is admitted exactly when it does not exceed
/// `floor(registry_size * cap_pct / 100)`, truncating toward zero. With an
/// empty registry only a zero threshold passes; a zero threshold always
/// passes.
pub open spec fn admissible_spec(threshold: u64, registry_size: int, cap_pct: u64) -> bool {
    threshold <= registry_size * cap_pct / 100
}

/// Computes the admission decision.
pub fn admissible(threshold: u64, registry_size: u64, cap_pct: u64) -> (r: bool)
    ensures
        r == admissible_spec(threshold, registry_size as int, cap_pct),
{
    let a: u128 = registry_size as u128;
    let b: u128 = cap_pct as u128;
    proof {
        assert(a * b <= 0xffffffffffffffffu128 * 0xffffffffffffffffu128) by (nonlinear_arith)
            requires
                a <= 0xffffffffffffffffu128,
                b <= 0xffffffffffffffffu128,
        ;
    }
    let cap: u128 = a * b / 100;
    (threshold as u128) <= cap
}

} // verus!
