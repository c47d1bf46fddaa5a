//! Cycling the navigation-mesh debug view.

use vstd::prelude::*;

verus! {

/// The navigation mesh whose debug view shows next: the one after
/// `current`, wrapping around after the last of `navmesh_count`.
pub fn next_debug_navmesh(current: usize, navmesh_count: usize) -> (next: usize)
    requires
        navmesh_count > 0,
        current < usize::MAX,
    ensures
        next == (current + 1) % (navmesh_count as int),
        next < navmesh_count,
{
    (current + 1) % navmesh_count
}

} // verus!
