//! The latent walk: which latent dimension a spectral bin drives, which way
//! each dimension is heading, and how a tick moves both on. The arithmetic on
//! the components is the caller's; the walk is generic in their type.

use crate::permutation::{identity_slots, is_bijection, IndexPermutation};
use vstd::prelude::*;

verus! {

/// Number of latent dimensions.
pub const LATENT_DIM: usize = 100;

/// Number of consecutive bins that share one latent dimension. Only the first
/// bin of a group drives it.
pub const GROUP_SIZE: usize = 10;

/// The way a latent component is pushed by the audio.
#[derive(Clone, Copy, PartialEq, Eq, Structural, Debug)]
pub enum Direction {
    Decreasing,
    Increasing,
}

/// Where a latent component lies after its adjustment.
#[derive(Clone, Copy, PartialEq, Eq, Structural, Debug)]
pub enum Crossing {
    /// Above the upper bound.
    AboveHigh,
    /// Below the lower bound.
    BelowLow,
    /// Between the bounds, bounds included.
    Within,
}

/// The direction of a component that headed in direction `d` and now lies at
/// `c`: down from above the upper bound, up from below the lower bound, and
/// as before in between.
pub open spec fn direction_after(d: Direction, c: Crossing) -> Direction {
    match c {
        Crossing::AboveHigh => Direction::Decreasing,
        Crossing::BelowLow => Direction::Increasing,
        Crossing::Within => d,
    }
}

/// The latent dimension that bin `bin` drives under the permutation `slots`:
/// the first bin of group `g` drives `slots[g]`, and no other bin drives
/// anything.
pub open spec fn driven(slots: Seq<usize>, bin: int) -> Option<usize> {
    if bin % (GROUP_SIZE as int) == 0 && bin / (GROUP_SIZE as int) < slots.len() {
        Some(slots[bin / (GROUP_SIZE as int)])
    } else {
        None
    }
}

/// Whether some bin below `bins` drives dimension `dim` under `slots`.
pub open spec fn is_driven(slots: Seq<usize>, bins: int, dim: int) -> bool {
    exists|bin: int| 0 <= bin < bins && #[trigger] driven(slots, bin) == Some(dim as usize)
}

/// A step may be taken from the value `v`, heading in direction `d`, under the
/// ratio `r`: `adjust` accepts them, and `locate` accepts whatever `adjust`
/// makes of them.
pub open spec fn can_step<V, R, A: Fn(V, Direction, R) -> V, L: Fn(V) -> Crossing>(
    adjust: A,
    locate: L,
    v: V,
    d: Direction,
    r: R,
) -> bool {
    &&& call_requires(adjust, (v, d, r))
    &&& forall|stepped: V| #[trigger]
        call_ensures(adjust, (v, d, r), stepped) ==> call_requires(locate, (stepped,))
}

/// One step of a driven component: `adjust` turned the value `v`, heading in
/// direction `d`, into `stepped` under the ratio `r`, and the new flag is the
/// one that follows from where `locate` found `stepped`.
pub open spec fn is_step<V, R, A: Fn(V, Direction, R) -> V, L: Fn(V) -> Crossing>(
    adjust: A,
    locate: L,
    v: V,
    d: Direction,
    r: R,
    stepped: V,
    flag: Direction,
) -> bool {
    &&& call_ensures(adjust, (v, d, r), stepped)
    &&& exists|c: Crossing| #[trigger]
        call_ensures(locate, (stepped,), c) && flag == direction_after(d, c)
}

/// The flag changes exactly when the component passes the bound it was
/// heading for.
pub proof fn lemma_flag_flips_at_its_bound(d: Direction, c: Crossing)
    ensures
        direction_after(d, c) != d <==> (d == Direction::Increasing && c == Crossing::AboveHigh)
            || (d == Direction::Decreasing && c == Crossing::BelowLow),
{
}

/// Within one tick no latent dimension is driven by two bins.
pub proof fn lemma_bins_drive_distinct_dimensions(slots: Seq<usize>, a: int, b: int)
    requires
        is_bijection(slots),
        0 <= a,
        0 <= b,
        a != b,
        driven(slots, a) is Some,
        driven(slots, b) is Some,
    ensures
        driven(slots, a) != driven(slots, b),
{
    let ga = a / (GROUP_SIZE as int);
    let gb = b / (GROUP_SIZE as int);
    assert(a == ga * 10 && b == gb * 10);
    assert(ga != gb);
    assert(slots[ga] != slots[gb]);
}

/// Computes [`direction_after`].
pub fn next_direction(d: Direction, c: Crossing) -> (next: Direction)
    ensures
        next == direction_after(d, c),
{
    match c {
        Crossing::AboveHigh => Direction::Decreasing,
        Crossing::BelowLow => Direction::Increasing,
        Crossing::Within => d,
    }
}

/// The latent vector, the direction flag of each of its dimensions, and the
/// permutation that assigns bin groups to dimensions.
pub struct LatentDriftState<V> {
    latent: Vec<V>,
    directions: Vec<Direction>,
    permutation: IndexPermutation,
}

impl<V: Copy> LatentDriftState<V> {
    /// The component of each dimension.
    pub closed spec fn latent(&self) -> Seq<V> {
        self.latent@
    }

    /// The flag of each dimension.
    pub closed spec fn directions(&self) -> Seq<Direction> {
        self.directions@
    }

    /// The dimension that each bin group is assigned to.
    pub closed spec fn permutation(&self) -> Seq<usize> {
        self.permutation@
    }

    /// There is one component and one flag per dimension, and the groups
    /// are assigned to the dimensions one to one.
    pub open spec fn wf(&self) -> bool {
        &&& self.latent().len() == LATENT_DIM
        &&& self.directions().len() == LATENT_DIM
        &&& self.permutation().len() == LATENT_DIM
        &&& is_bijection(self.permutation())
    }

    /// The walk is what a tick with `ratios` makes of `before`. The assignment
    /// is the same. Each bin that drives a dimension has taken one step with
    /// it, from the component and flag it had before. The components and
    /// flags of dimensions that no bin drives are as they were.
    pub open spec fn is_tick_of<R, A: Fn(V, Direction, R) -> V, L: Fn(V) -> Crossing>(
        self,
        before: Self,
        ratios: Seq<R>,
        adjust: A,
        locate: L,
    ) -> bool {
        &&& self.permutation() == before.permutation()
        &&& forall|bin: int|
            0 <= bin < ratios.len() ==> (#[trigger] driven(before.permutation(), bin) matches Some(
                dim,
            ) ==> is_step(
                adjust,
                locate,
                before.latent()[dim as int],
                before.directions()[dim as int],
                ratios[bin],
                self.latent()[dim as int],
                self.directions()[dim as int],
            ))
        &&& forall|dim: int|
            0 <= dim < LATENT_DIM && !#[trigger] is_driven(
                before.permutation(),
                ratios.len() as int,
                dim,
            ) ==> {
                &&& self.latent()[dim] == before.latent()[dim]
                &&& self.directions()[dim] == before.directions()[dim]
            }
    }

    /// Starts a walk at `latent`, if it has one component per dimension: every
    /// dimension decreasing, group `g` assigned to dimension `g`.
    pub fn new(latent: Vec<V>) -> (state: Option<Self>)
        ensures
            state is Some <==> latent@.len() == LATENT_DIM,
            state matches Some(s) ==> {
                &&& s.wf()
                &&& s.latent() == latent@
                &&& s.permutation() == identity_slots(LATENT_DIM as nat)
                &&& forall|d: int|
                    0 <= d < LATENT_DIM ==> s.directions()[d] == Direction::Decreasing
            },
    {
        if latent.len() != LATENT_DIM {
            return None;
        }
        let directions = all_decreasing();
        Some(
            LatentDriftState { latent, directions, permutation: IndexPermutation::identity(LATENT_DIM) },
        )
    }

    /// As [`Self::new`], with `slots` as the assignment of groups to
    /// dimensions, if it assigns them one to one.
    pub fn with_permutation(latent: Vec<V>, slots: Vec<usize>) -> (state: Option<Self>)
        ensures
            state is Some <==> latent@.len() == LATENT_DIM && slots@.len() == LATENT_DIM
                && is_bijection(slots@),
            state matches Some(s) ==> {
                &&& s.wf()
                &&& s.latent() == latent@
                &&& s.permutation() == slots@
                &&& forall|d: int|
                    0 <= d < LATENT_DIM ==> s.directions()[d] == Direction::Decreasing
            },
    {
        if latent.len() != LATENT_DIM || slots.len() != LATENT_DIM {
            return None;
        }
        match IndexPermutation::from_slots(slots) {
            None => None,
            Some(permutation) => {
                let directions = all_decreasing();
                Some(LatentDriftState { latent, directions, permutation })
            },
        }
    }

    /// The latent vector.
    pub fn latent_vector(&self) -> (latent: &Vec<V>)
        ensures
            latent@ == self.latent(),
    {
        &self.latent
    }

    /// The way dimension `dim` is heading.
    pub fn direction(&self, dim: usize) -> (d: Direction)
        requires
            self.wf(),
            dim < LATENT_DIM,
        ensures
            d == self.directions()[dim as int],
    {
        self.directions[dim]
    }

    /// The dimension that bin `bin` drives in this tick, if it drives one.
    pub fn driven_dimension(&self, bin: usize) -> (dim: Option<usize>)
        requires
            self.wf(),
        ensures
            dim == driven(self.permutation(), bin as int),
            dim matches Some(d) ==> d < LATENT_DIM,
    {
        if bin % GROUP_SIZE == 0 && bin / GROUP_SIZE < LATENT_DIM {
            Some(self.permutation.slot(bin / GROUP_SIZE))
        } else {
            None
        }
    }

    /// Reassigns the groups to the dimensions at random, once for a tick. The
    /// assignment stays one to one whatever order comes out; components and
    /// flags are not touched.
    pub fn reshuffle(&mut self)
        requires
            old(self).wf(),
        ensures
            final(self).wf(),
            final(self).latent() == old(self).latent(),
            final(self).directions() == old(self).directions(),
            final(self).permutation().to_multiset() == old(self).permutation().to_multiset(),
    {
        self.permutation.reshuffle();
    }

    /// Advances the walk by one column of ratios. Each bin that drives a
    /// dimension has that dimension's component replaced by what `adjust`
    /// makes of it, its flag and the bin's ratio, and the flag replaced by
    /// what follows from where `locate` finds the new component. The
    /// components and flags of dimensions that no bin drives stay as they
    /// were, and so does the assignment.
    pub fn tick<R: Copy, A: Fn(V, Direction, R) -> V, L: Fn(V) -> Crossing>(
        &mut self,
        ratios: &Vec<R>,
        adjust: A,
        locate: L,
    )
        requires
            old(self).wf(),
            forall|bin: int|
                0 <= bin < ratios@.len() ==> (#[trigger] driven(old(self).permutation(), bin)
                    matches Some(dim) ==> can_step(
                    adjust,
                    locate,
                    old(self).latent()[dim as int],
                    old(self).directions()[dim as int],
                    ratios@[bin],
                )),
        ensures
            final(self).wf(),
            final(self).is_tick_of(*old(self), ratios@, adjust, locate),
    {
        let ghost slots = self.permutation();
        let ghost start_latent = self.latent();
        let ghost start_flags = self.directions();
        let n = ratios.len();
        let mut bin: usize = 0;
        while bin < n
            invariant
                bin <= n,
                n == ratios@.len(),
                self.wf(),
                self.permutation() == slots,
                start_latent.len() == LATENT_DIM,
                start_flags.len() == LATENT_DIM,
                forall|b: int|
                    0 <= b < n ==> (#[trigger] driven(slots, b) matches Some(dim) ==> can_step(
                        adjust,
                        locate,
                        start_latent[dim as int],
                        start_flags[dim as int],
                        ratios@[b],
                    )),
                forall|b: int|
                    0 <= b < bin ==> (#[trigger] driven(slots, b) matches Some(dim) ==> is_step(
                        adjust,
                        locate,
                        start_latent[dim as int],
                        start_flags[dim as int],
                        ratios@[b],
                        self.latent()[dim as int],
                        self.directions()[dim as int],
                    )),
                forall|dim: int|
                    0 <= dim < LATENT_DIM && !#[trigger] is_driven(slots, bin as int, dim) ==> {
                        &&& self.latent()[dim] == start_latent[dim]
                        &&& self.directions()[dim] == start_flags[dim]
                    },
            decreases n - bin,
        {
            let ghost latent_before = self.latent();
            let ghost flags_before = self.directions();
            match self.driven_dimension(bin) {
                Some(dim) => {
                    proof {
                        assert forall|b: int| 0 <= b < bin implies driven(slots, b) != Some(
                            dim,
                        ) by {
                            if driven(slots, b) is Some {
                                lemma_bins_drive_distinct_dimensions(slots, b, bin as int);
                            }
                        }
                        assert(!is_driven(slots, bin as int, dim as int));
                    }
                    let flag = self.directions[dim];
                    let stepped = adjust(self.latent[dim], flag, ratios[bin]);
                    let crossing = locate(stepped);
                    self.latent.set(dim, stepped);
                    self.directions.set(dim, next_direction(flag, crossing));
                    proof {
                        assert(call_ensures(locate, (stepped,), crossing));
                        assert(is_step(
                            adjust,
                            locate,
                            start_latent[dim as int],
                            start_flags[dim as int],
                            ratios@[bin as int],
                            self.latent()[dim as int],
                            self.directions()[dim as int],
                        ));
                        assert forall|b: int| 0 <= b < bin + 1 implies (#[trigger] driven(slots, b)
                            matches Some(d2) ==> is_step(
                            adjust,
                            locate,
                            start_latent[d2 as int],
                            start_flags[d2 as int],
                            ratios@[b],
                            self.latent()[d2 as int],
                            self.directions()[d2 as int],
                        )) by {
                            if b < bin {
                                if let Some(d2) = driven(slots, b) {
                                    assert(d2 != dim);
                                    assert(self.latent()[d2 as int] == latent_before[d2 as int]);
                                    assert(self.directions()[d2 as int] == flags_before[d2 as int]);
                                }
                            }
                        }
                        assert forall|e: int|
                            0 <= e < LATENT_DIM && !#[trigger] is_driven(
                                slots,
                                bin + 1,
                                e,
                            ) implies self.latent()[e] == start_latent[e] && self.directions()[e]
                            == start_flags[e] by {
                            assert(driven(slots, bin as int) == Some(dim));
                            assert(e != dim);
                            assert(!is_driven(slots, bin as int, e));
                        }
                    }
                },
                None => {
                    proof {
                        assert forall|e: int|
                            0 <= e < LATENT_DIM && !#[trigger] is_driven(
                                slots,
                                bin + 1,
                                e,
                            ) implies self.latent()[e] == start_latent[e] && self.directions()[e]
                            == start_flags[e] by {
                            assert(!is_driven(slots, bin as int, e));
                        }
                    }
                },
            }
            bin = bin + 1;
        }
    }
}

/// A tick keeps the components inside every set that `adjust` never leaves:
/// if all components lie in it before the tick, all lie in it after.
pub proof fn lemma_tick_stays_inside<V: Copy, R, A: Fn(V, Direction, R) -> V, L: Fn(V) -> Crossing>(
    before: LatentDriftState<V>,
    after: LatentDriftState<V>,
    ratios: Seq<R>,
    adjust: A,
    locate: L,
    inside: spec_fn(V) -> bool,
)
    requires
        before.wf(),
        after.wf(),
        after.is_tick_of(before, ratios, adjust, locate),
        forall|dim: int| 0 <= dim < LATENT_DIM ==> inside(#[trigger] before.latent()[dim]),
        forall|v: V, d: Direction, r: R, stepped: V| #[trigger]
            call_ensures(adjust, (v, d, r), stepped) ==> inside(stepped),
    ensures
        forall|dim: int| 0 <= dim < LATENT_DIM ==> inside(#[trigger] after.latent()[dim]),
{
    assert forall|dim: int| 0 <= dim < LATENT_DIM implies inside(
        #[trigger] after.latent()[dim],
    ) by {
        if is_driven(before.permutation(), ratios.len() as int, dim) {
            let bin = choose|bin: int|
                0 <= bin < ratios.len() && #[trigger] driven(before.permutation(), bin) == Some(
                    dim as usize,
                );
            assert(is_step(
                adjust,
                locate,
                before.latent()[dim],
                before.directions()[dim],
                ratios[bin],
                after.latent()[dim],
                after.directions()[dim],
            ));
        } else {
            assert(after.latent()[dim] == before.latent()[dim]);
        }
    }
}

/// One `Decreasing` flag per dimension.
fn all_decreasing() -> (directions: Vec<Direction>)
    ensures
        directions@.len() == LATENT_DIM,
        forall|d: int| 0 <= d < LATENT_DIM ==> directions@[d] == Direction::Decreasing,
{
    let mut directions: Vec<Direction> = Vec::new();
    let mut d: usize = 0;
    while d < LATENT_DIM
        invariant
            d <= LATENT_DIM,
            directions@.len() == d,
            forall|e: int| 0 <= e < d ==> directions@[e] == Direction::Decreasing,
        decreases LATENT_DIM - d,
    {
        directions.push(Direction::Decreasing);
        d = d + 1;
    }
    directions
}

} // verus!
