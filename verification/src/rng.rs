//! Random shape selection for spawning pieces.

use rand::Rng;
use vstd::prelude::*;

use crate::shapes::shape_from_index;
use crate::shapes::spec_shape_from_index;
use crate::shapes::Shape;

verus! {

/// Relies on rand's `Rng::gen_range` over `0..n`: it returns a value of
/// that range, drawn from the thread-local generator, and panics only on
/// an empty range, which `n > 0` rules out.
#[verifier::external_body]
fn random_below(n: u32) -> (r: u32)
    requires
        n > 0,
    ensures
        r < n,
{
    rand::thread_rng().gen_range(0..n)
}

/// Draws a random shape for a new piece.  Every one of the seven shapes
/// can come back; nothing more is known of the draw.
pub fn random_shape() -> (r: Shape)
    ensures
        exists|i: int| 0 <= i < 7 && r == spec_shape_from_index(i),
{
    let i = random_below(7);
    let s = shape_from_index(i);
    proof {
        assert(0 <= (i as int) < 7 && s == spec_shape_from_index(i as int));
    }
    s
}

} // verus!
