use vstd::prelude::*;
use rand_chacha::ChaCha8Rng;

verus! {

/// The seeded random stream that customer destinations are drawn from.
#[verifier::external_type_specification]
#[verifier::external_body]
pub struct ExChaCha8Rng(rand_chacha::ChaCha8Rng);

/// Relies on rand's `Uniform::new(0, bound)` and its `sample`: an integer
/// drawn from `[0, bound)`. `Uniform::new` panics when `bound` is 0.
#[verifier::external_body]
fn uniform_below(rng: &mut ChaCha8Rng, bound: usize) -> (r: usize)
    requires
        bound > 0,
    ensures
        r < bound,
{
    rand::distributions::Distribution::sample(&rand::distributions::Uniform::new(0, bound), rng)
}

/// The destination that a draw `u` from `[0, stations - 1)` picks for a
/// customer starting at `origin`: the draw skips over the origin.
pub open spec fn skip_origin(origin: int, u: int) -> int {
    if u >= origin {
        u + 1
    } else {
        u
    }
}

/// Maps a draw `u` from `[0, stations - 1)` to a station other than
/// `origin`; every such station comes from exactly one draw.
pub fn destination_from_draw(origin: usize, u: usize, stations: usize) -> (r: usize)
    requires
        origin < stations,
        u + 1 < stations,
    ensures
        r == skip_origin(origin as int, u as int),
        r < stations,
        r != origin,
{
    if u >= origin {
        u + 1
    } else {
        u
    }
}

/// Draws a destination for a customer starting at `origin`, uniformly
/// among the other stations.
pub fn draw_destination(rng: &mut ChaCha8Rng, origin: usize, stations: usize) -> (r: usize)
    requires
        origin < stations,
        stations >= 2,
    ensures
        r < stations,
        r != origin,
{
    let u = uniform_below(rng, stations - 1);
    destination_from_draw(origin, u, stations)
}

/// Every station other than the origin is the image of exactly one draw.
pub proof fn lemma_skip_origin_bijective(origin: int, stations: int, d: int)
    requires
        0 <= origin < stations,
        0 <= d < stations,
        d != origin,
    ensures
        exists|u: int| 0 <= u < stations - 1 && skip_origin(origin, u) == d,
        forall|u: int, v: int|
            0 <= u < stations - 1 && 0 <= v < stations - 1 && skip_origin(origin, u) == d
                && skip_origin(origin, v) == d ==> u == v,
{
    let u = if d > origin {
        d - 1
    } else {
        d
    };
    assert(skip_origin(origin, u) == d);
}

} // verus!
