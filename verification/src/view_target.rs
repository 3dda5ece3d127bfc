//! The view-target marker: where it stands after a frame's ray cast.

use vstd::prelude::*;

verus! {

/// One frame of a marker. `hit` is the distance at which the frame's ray met
/// something, if it did, and `point_at` gives the point of the ray at a
/// distance. A marker whose ray met nothing stays where it was; otherwise it
/// goes to the point at the hit's distance.
pub fn place_view_target<P, D, F: Fn(D) -> P>(marker: P, hit: Option<D>, point_at: F) -> (placed: P)
    requires
        hit matches Some(distance) ==> point_at.requires((distance,)),
    ensures
        match hit {
            None => placed == marker,
            Some(distance) => point_at.ensures((distance,), placed),
        },
{
    match hit {
        None => marker,
        Some(distance) => point_at(distance),
    }
}

} // verus!
