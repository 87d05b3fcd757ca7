//! The escape-time evaluator: how long an orbit stays bounded.

use vstd::prelude::*;
use crate::plane::Plane;

verus! {

/// The iteration budget of one orbit.
pub const MAX_ITERATIONS: u32 = 1000;

/// `orbit` lists the points that the recurrence visits for the sample point
/// `c`, from the plane's origin on.
pub open spec fn is_orbit<Z: Copy, P: Fn(i32, i32) -> Z, E: Fn(Z) -> bool, S: Fn(Z, Z) -> Z>(
    orbit: Seq<Z>,
    c: Z,
    plane: Plane<Z, P, E, S>,
) -> bool {
    &&& orbit.len() >= 1
    &&& orbit[0] == plane.origin
    &&& forall|i: int|
        0 <= i < orbit.len() - 1 ==> call_ensures(plane.advance, (#[trigger] orbit[i], c), orbit[i + 1])
}

/// `orbit` shows that the escape time of `c` is `n`: it has `n` steps, none
/// of its first `n` points has escaped, and its last point has, unless the
/// budget ran out first.
pub open spec fn witnesses_escape<Z: Copy, P: Fn(i32, i32) -> Z, E: Fn(Z) -> bool, S: Fn(Z, Z) -> Z>(
    orbit: Seq<Z>,
    n: nat,
    c: Z,
    plane: Plane<Z, P, E, S>,
) -> bool {
    &&& n <= MAX_ITERATIONS
    &&& orbit.len() == n + 1
    &&& is_orbit(orbit, c, plane)
    &&& forall|i: int| 0 <= i < n ==> call_ensures(plane.escaped, (#[trigger] orbit[i],), false)
    &&& n < MAX_ITERATIONS ==> call_ensures(plane.escaped, (orbit[n as int],), true)
}

/// The escape time of `c` on `plane` is `n`.
pub open spec fn escapes_after<Z: Copy, P: Fn(i32, i32) -> Z, E: Fn(Z) -> bool, S: Fn(Z, Z) -> Z>(
    n: nat,
    c: Z,
    plane: Plane<Z, P, E, S>,
) -> bool {
    exists|orbit: Seq<Z>| witnesses_escape(orbit, n, c, plane)
}

/// Counts the steps of the recurrence from the plane's origin until a point
/// has escaped, the test coming before the step, and stops at
/// `MAX_ITERATIONS` steps without a further test.
pub fn escape_time<Z: Copy, P: Fn(i32, i32) -> Z, E: Fn(Z) -> bool, S: Fn(Z, Z) -> Z>(
    plane: &Plane<Z, P, E, S>,
    c: Z,
) -> (n: u32)
    requires
        plane.total(),
    ensures
        n <= MAX_ITERATIONS,
        escapes_after(n as nat, c, *plane),
{
    let mut n: u32 = 0;
    let mut z: Z = plane.origin;
    let ghost mut orbit: Seq<Z> = seq![plane.origin];
    while n < MAX_ITERATIONS
        invariant
            plane.total(),
            n <= MAX_ITERATIONS,
            orbit.len() == n + 1,
            orbit[n as int] == z,
            is_orbit(orbit, c, *plane),
            forall|i: int| 0 <= i < n ==> call_ensures(plane.escaped, (#[trigger] orbit[i],), false),
        ensures
            n <= MAX_ITERATIONS,
            witnesses_escape(orbit, n as nat, c, *plane),
        decreases MAX_ITERATIONS - n,
    {
        if (plane.escaped)(z) {
            break;
        }
        z = (plane.advance)(z, c);
        proof {
            orbit = orbit.push(z);
        }
        n += 1;
    }
    n
}

/// Two orbits of one sample point on a deterministic plane agree as far as
/// both reach.
pub proof fn lemma_orbits_agree<Z: Copy, P: Fn(i32, i32) -> Z, E: Fn(Z) -> bool, S: Fn(Z, Z) -> Z>(
    first: Seq<Z>,
    second: Seq<Z>,
    c: Z,
    plane: Plane<Z, P, E, S>,
    k: int,
)
    requires
        plane.deterministic(),
        is_orbit(first, c, plane),
        is_orbit(second, c, plane),
        0 <= k < first.len(),
        k < second.len(),
    ensures
        first[k] == second[k],
    decreases k,
{
    if k > 0 {
        lemma_orbits_agree(first, second, c, plane, k - 1);
        assert(call_ensures(plane.advance, (first[k - 1], c), first[k - 1 + 1]));
        assert(call_ensures(plane.advance, (second[k - 1], c), second[k - 1 + 1]));
    }
}

/// On a deterministic plane a sample point has one escape time: whatever
/// `escape_time` returns for it, it returns on every call.
pub proof fn lemma_escape_time_unique<Z: Copy, P: Fn(i32, i32) -> Z, E: Fn(Z) -> bool, S: Fn(Z, Z) -> Z>(
    n1: nat,
    n2: nat,
    c: Z,
    plane: Plane<Z, P, E, S>,
)
    requires
        plane.deterministic(),
        escapes_after(n1, c, plane),
        escapes_after(n2, c, plane),
    ensures
        n1 == n2,
{
    let first = choose|orbit: Seq<Z>| witnesses_escape(orbit, n1, c, plane);
    let second = choose|orbit: Seq<Z>| witnesses_escape(orbit, n2, c, plane);
    if n1 < n2 {
        lemma_orbits_agree(first, second, c, plane, n1 as int);
        assert(call_ensures(plane.escaped, (second[n1 as int],), false));
    } else if n2 < n1 {
        lemma_orbits_agree(first, second, c, plane, n2 as int);
        assert(call_ensures(plane.escaped, (first[n2 as int],), false));
    }
}

} // verus!
