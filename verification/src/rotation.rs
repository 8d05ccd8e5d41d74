//! The fixed rotation that maps a spectral bin to the row and vertex it drives.

use vstd::prelude::*;
use vstd::arithmetic::div_mod::{lemma_fundamental_div_mod, lemma_fundamental_div_mod_converse_mod};

verus! {

/// How far a bin index is rotated before it selects a row or a vertex.
pub const ROTATION_OFFSET: usize = 768;

/// The slot that bin `i` drives among `n` slots: `i` moved on by the offset,
/// wrapping round at `n`.
pub open spec fn rotated(i: int, n: int) -> int {
    (i + ROTATION_OFFSET as int) % n
}

/// The bin that drives slot `r` among `n` slots: the inverse of [`rotated`].
pub open spec fn unrotated(r: int, n: int) -> int {
    (r - ROTATION_OFFSET as int) % n
}

/// Rotation by the offset permutes `0..n`: it stays in range and
/// [`unrotated`] undoes it, in both orders.
pub proof fn lemma_rotation_is_a_bijection(i: int, n: int)
    requires
        0 <= i < n,
    ensures
        0 <= rotated(i, n) < n,
        0 <= unrotated(i, n) < n,
        unrotated(rotated(i, n), n) == i,
        rotated(unrotated(i, n), n) == i,
{
    let k = ROTATION_OFFSET as int;
    lemma_fundamental_div_mod(i + k, n);
    lemma_fundamental_div_mod(i - k, n);
    let up = rotated(i, n);
    let down = unrotated(i, n);
    assert(up - k == (-((i + k) / n)) * n + i) by (nonlinear_arith)
        requires
            i + k == n * ((i + k) / n) + up,
    ;
    lemma_fundamental_div_mod_converse_mod(up - k, n, -((i + k) / n), i);
    assert(down + k == (-((i - k) / n)) * n + i) by (nonlinear_arith)
        requires
            i - k == n * ((i - k) / n) + down,
    ;
    lemma_fundamental_div_mod_converse_mod(down + k, n, -((i - k) / n), i);
}

/// Computes the slot that bin `i` drives among `n` slots.
pub fn rotated_index(i: usize, n: usize) -> (slot: usize)
    requires
        n > 0,
    ensures
        slot == rotated(i as int, n as int),
        slot < n,
{
    let r: usize = i % n;
    let k: usize = ROTATION_OFFSET % n;
    proof {
        let q = i as int / n as int + ROTATION_OFFSET as int / n as int;
        lemma_fundamental_div_mod(i as int, n as int);
        lemma_fundamental_div_mod(ROTATION_OFFSET as int, n as int);
        if r < n - k {
            assert(i + ROTATION_OFFSET == q * n + (r + k)) by (nonlinear_arith)
                requires
                    i == n * (i as int / n as int) + r,
                    ROTATION_OFFSET == n * (ROTATION_OFFSET as int / n as int) + k,
                    q == i as int / n as int + ROTATION_OFFSET as int / n as int,
            ;
            lemma_fundamental_div_mod_converse_mod(i + ROTATION_OFFSET, n as int, q, r + k);
        } else {
            assert(i + ROTATION_OFFSET == (q + 1) * n + (r + k - n)) by (nonlinear_arith)
                requires
                    i == n * (i as int / n as int) + r,
                    ROTATION_OFFSET == n * (ROTATION_OFFSET as int / n as int) + k,
                    q == i as int / n as int + ROTATION_OFFSET as int / n as int,
            ;
            lemma_fundamental_div_mod_converse_mod(
                i + ROTATION_OFFSET,
                n as int,
                q + 1,
                r + k - n,
            );
        }
    }
    if r < n - k {
        r + k
    } else {
        r - (n - k)
    }
}

} // verus!
