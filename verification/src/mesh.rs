//! Mesh deformation: which spectral bin moves which vertex. What a vertex is
//! and how a ratio moves it is the caller's; the walk over the mesh is generic
//! in both.

use crate::rotation::{lemma_rotation_is_a_bijection, rotated_index, unrotated};
use vstd::prelude::*;

verus! {

/// Deforms every vertex once: the vertex in slot `v` is replaced by what
/// `deform` makes of its current value and the ratio of the bin that is
/// rotated to `v`. Ratios beyond the number of vertices are not used.
pub fn apply<T: Copy, R: Copy, F: Fn(T, R) -> T>(vertices: &mut Vec<T>, ratios: &Vec<R>, deform: F)
    requires
        old(vertices)@.len() <= ratios@.len(),
        forall|v: int|
            0 <= v < old(vertices)@.len() ==> call_requires(
                deform,
                (#[trigger] old(vertices)@[v], ratios@[unrotated(v, old(vertices)@.len() as int)]),
            ),
    ensures
        final(vertices)@.len() == old(vertices)@.len(),
        forall|v: int|
            0 <= v < old(vertices)@.len() ==> call_ensures(
                deform,
                (old(vertices)@[v], ratios@[unrotated(v, old(vertices)@.len() as int)]),
                #[trigger] final(vertices)@[v],
            ),
{
    let n = vertices.len();
    let mut i: usize = 0;
    while i < n
        invariant
            i <= n,
            n == vertices@.len(),
            n == old(vertices)@.len(),
            n <= ratios@.len(),
            forall|v: int|
                0 <= v < n ==> call_requires(
                    deform,
                    (#[trigger] old(vertices)@[v], ratios@[unrotated(v, n as int)]),
                ),
            forall|v: int|
                0 <= v < n ==> (if unrotated(v, n as int) < i {
                    call_ensures(
                        deform,
                        (old(vertices)@[v], ratios@[unrotated(v, n as int)]),
                        #[trigger] vertices@[v],
                    )
                } else {
                    vertices@[v] == old(vertices)@[v]
                }),
        decreases n - i,
    {
        let slot = rotated_index(i, n);
        let ghost before = vertices@;
        proof {
            lemma_rotation_is_a_bijection(i as int, n as int);
        }
        assert(vertices@[slot as int] == old(vertices)@[slot as int]);
        let moved = deform(vertices[slot], ratios[i]);
        vertices.set(slot, moved);
        proof {
            assert forall|v: int| 0 <= v < n implies (if unrotated(v, n as int) < i + 1 {
                call_ensures(
                    deform,
                    (old(vertices)@[v], ratios@[unrotated(v, n as int)]),
                    #[trigger] vertices@[v],
                )
            } else {
                vertices@[v] == old(vertices)@[v]
            }) by {
                lemma_rotation_is_a_bijection(v, n as int);
                if v != slot {
                    assert(vertices@[v] == before[v]);
                }
            }
        }
        i = i + 1;
    }
    proof {
        assert forall|v: int| 0 <= v < n implies unrotated(v, n as int) < n by {
            lemma_rotation_is_a_bijection(v, n as int);
        }
    }
}

} // verus!
