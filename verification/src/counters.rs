//! Counting that stops at the largest number that a `usize` holds.

use vstd::prelude::*;

verus! {

/// The number, or the largest that a `usize` holds.
pub open spec fn capped(n: nat) -> usize {
    if n > usize::MAX {
        usize::MAX
    } else {
        n as usize
    }
}

/// The sum, as far as a `usize` counts.
pub fn capped_sum(a: usize, b: usize) -> (sum: usize)
    ensures
        sum == capped((a + b) as nat),
{
    match a.checked_add(b) {
        Some(sum) => sum,
        None => usize::MAX,
    }
}

/// The product, as far as a `usize` counts.
pub fn capped_product(a: usize, b: usize) -> (product: usize)
    ensures
        product == capped((a * b) as nat),
{
    assert(a * b >= 0) by (nonlinear_arith);
    match a.checked_mul(b) {
        Some(product) => product,
        None => usize::MAX,
    }
}

} // verus!
