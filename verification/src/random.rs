//! The stream of random draws that the search consumes.
//!
//! One seeded generator serves every draw, in order. The stream keeps, as ghost
//! state, the values it has handed out, so that what a search did can be
//! stated as a function of what it drew.

use vstd::prelude::*;
use rand::rngs::StdRng;
use rand::{Rng, SeedableRng};

verus! {

/// `StdRng` of `rand`: the generator, carried as a value of which nothing is
/// known.
#[verifier::external_type_specification]
#[verifier::external_body]
pub struct ExStdRng(rand::rngs::StdRng);

/// `StdRng::seed_from_u64` of `rand`: a generator seeded with `seed`. Nothing
/// is claimed of the generator.
#[verifier::external_body]
fn seeded_generator(seed: u64) -> StdRng {
    StdRng::seed_from_u64(seed)
}

/// `Rng::gen_range` of `rand` on the half-open range `lo..hi` of `usize`. The
/// call panics on an empty range, which `requires` leaves out; the value lies
/// in the range. Which value it is is not claimed.
#[verifier::external_body]
fn sample_index(rng: &mut StdRng, lo: usize, hi: usize) -> (v: usize)
    requires
        lo < hi,
    ensures
        lo <= v < hi,
{
    rng.gen_range(lo..hi)
}

/// `Rng::gen_range` of `rand` on the closed range `lo..=hi` of `i32`. The call
/// panics on an empty range, which `requires` leaves out; the value lies in
/// the range. Which value it is is not claimed.
#[verifier::external_body]
fn sample_step(rng: &mut StdRng, lo: i32, hi: i32) -> (v: i32)
    requires
        lo <= hi,
    ensures
        lo <= v <= hi,
{
    rng.gen_range(lo..=hi)
}

/// A seeded source of random integers, consumed in order.
pub struct RandomStream {
    rng: StdRng,
    drawn: Ghost<Seq<int>>,
}

impl RandomStream {
    /// The values handed out so far, oldest first.
    pub closed spec fn drawn(&self) -> Seq<int> {
        self.drawn@
    }

    /// A stream seeded with `seed`, from which nothing has been drawn.
    pub fn new(seed: u64) -> (s: RandomStream)
        ensures
            s.drawn() == Seq::<int>::empty(),
    {
        RandomStream { rng: seeded_generator(seed), drawn: Ghost(Seq::empty()) }
    }

    /// Draws an index from `lo..hi`.
    pub fn next_in_range(&mut self, lo: usize, hi: usize) -> (v: usize)
        requires
            lo < hi,
        ensures
            lo <= v < hi,
            final(self).drawn() == old(self).drawn().push(v as int),
    {
        let v = sample_index(&mut self.rng, lo, hi);
        proof {
            self.drawn@ = self.drawn@.push(v as int);
        }
        v
    }

    /// Draws a step from `lo..=hi`.
    pub fn next_step(&mut self, lo: i32, hi: i32) -> (v: i32)
        requires
            lo <= hi,
        ensures
            lo <= v <= hi,
            final(self).drawn() == old(self).drawn().push(v as int),
    {
        let v = sample_step(&mut self.rng, lo, hi);
        proof {
            self.drawn@ = self.drawn@.push(v as int);
        }
        v
    }
}

} // verus!
