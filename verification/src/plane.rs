//! The caller's arithmetic on the complex plane.

use vstd::prelude::*;

verus! {

/// The arithmetic that a renderer needs, over a number type `Z` of the
/// caller's choice. The library never looks inside a `Z`: it only hands
/// values from one of these functions to another.
pub struct Plane<Z, P, E, S> {
    /// The point at which every orbit starts.
    pub origin: Z,
    /// The sample point of a pixel, given the pixel's horizontal and vertical
    /// offsets from the centre of the grid.
    pub sample: P,
    /// Whether a point of an orbit has left the disc in which orbits of
    /// members of the set stay.
    pub escaped: E,
    /// The next point of an orbit, given the current point and the sample
    /// point that the orbit belongs to.
    pub advance: S,
}

impl<Z: Copy, P: Fn(i32, i32) -> Z, E: Fn(Z) -> bool, S: Fn(Z, Z) -> Z> Plane<Z, P, E, S> {
    /// Every function of the plane may be called on every argument.
    pub open spec fn total(&self) -> bool {
        &&& forall|dx: i32, dy: i32| call_requires(self.sample, (dx, dy))
        &&& forall|z: Z| call_requires(self.escaped, (z,))
        &&& forall|z: Z, c: Z| call_requires(self.advance, (z, c))
    }

    /// Every function of the plane returns one result for one argument.
    pub open spec fn deterministic(&self) -> bool {
        &&& forall|dx: i32, dy: i32, c1: Z, c2: Z|
            call_ensures(self.sample, (dx, dy), c1) && call_ensures(self.sample, (dx, dy), c2)
                ==> c1 == c2
        &&& forall|z: Z, b1: bool, b2: bool|
            call_ensures(self.escaped, (z,), b1) && call_ensures(self.escaped, (z,), b2) ==> b1
                == b2
        &&& forall|z: Z, c: Z, w1: Z, w2: Z|
            call_ensures(self.advance, (z, c), w1) && call_ensures(self.advance, (z, c), w2)
                ==> w1 == w2
    }
}

} // verus!
