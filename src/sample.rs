//! Random points, drawn from a generator that the caller owns.

use vstd::prelude::*;
use crate::torus::Torus;

verus! {

/// Relies on `rand::Rng::gen::<u32>` to draw a `u32` from the generator, each
/// value equally likely. Nothing is promised about which value comes out.
#[verifier::external_body]
fn draw_u32<R: rand::Rng + ?Sized>(state: &mut R) -> u32 {
    state.gen::<u32>()
}

impl Torus {
    /// A point drawn uniformly from the `2^32` grid points, by drawing the
    /// raw value itself, so that every grid point is equally likely.
    pub fn uniform<R: rand::Rng + ?Sized>(state: &mut R) -> (r: Torus) {
        Torus::new(draw_u32(state))
    }
}

} // verus!
