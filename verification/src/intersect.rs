//! The scene intersector: the nearest surface that a ray meets.

use vstd::prelude::*;
use crate::nearest::{is_nearest, nearest, Nearest};
use crate::optics::Optics;

verus! {

/// `ranks` and `plane` are what the kernel reported for `ray`: one rank per
/// sphere, in order, and one for the ground plane.
pub open spec fn measured<K: Optics>(
    k: &K,
    spheres: &Vec<K::Sphere>,
    ray: &K::Ray,
    ranks: Seq<Option<u64>>,
    plane: Option<u64>,
) -> bool {
    &&& ranks.len() == spheres@.len()
    &&& forall|i: int|
        0 <= i < ranks.len() ==> call_ensures(
            K::ray_intersect,
            (k, &spheres@[i], ray),
            #[trigger] ranks[i],
        )
    &&& call_ensures(K::plane_intersect, (k, ray), plane)
}

/// `out` is the surface point that the kernel reported for the candidate `pick`.
pub open spec fn surfaced<K: Optics>(
    k: &K,
    spheres: &Vec<K::Sphere>,
    ray: &K::Ray,
    pick: Nearest,
    out: Option<K::Hit>,
) -> bool {
    match pick {
        Nearest::Miss => out is None,
        Nearest::Sphere { index, .. } => {
            &&& index < spheres@.len()
            &&& out matches Some(hit)
            &&& call_ensures(K::sphere_surface, (k, &spheres@[index as int], ray), hit)
        },
        Nearest::Plane { .. } => {
            &&& out matches Some(hit)
            &&& call_ensures(K::plane_surface, (k, ray), hit)
        },
    }
}

/// `out` is what `ray` sees first in the scene: the kernel measured every
/// sphere and the plane, the nearest candidate below the horizon was picked,
/// and `out` is the kernel's surface point for it.
pub open spec fn sighted<K: Optics>(
    k: &K,
    spheres: &Vec<K::Sphere>,
    ray: &K::Ray,
    horizon: u64,
    out: Option<K::Hit>,
) -> bool {
    exists|ranks: Seq<Option<u64>>, plane: Option<u64>, pick: Nearest|
        {
            &&& #[trigger] measured(k, spheres, ray, ranks, plane)
            &&& #[trigger] is_nearest(ranks, plane, horizon, pick)
            &&& #[trigger] surfaced(k, spheres, ray, pick, out)
        }
}

/// Finds the nearest surface that `ray` meets: each sphere is measured, then
/// the ground plane; the nearest wins, and a winner at the horizon or beyond
/// counts as no hit.
pub fn scene_intersect<K: Optics>(
    k: &K,
    ray: &K::Ray,
    spheres: &Vec<K::Sphere>,
    horizon: u64,
) -> (out: Option<K::Hit>)
    ensures
        sighted(k, spheres, ray, horizon, out),
{
    let mut ranks: Vec<Option<u64>> = Vec::new();
    let mut i: usize = 0;
    while i < spheres.len()
        invariant
            i <= spheres.len(),
            ranks@.len() == i,
            forall|j: int|
                0 <= j < i ==> call_ensures(
                    K::ray_intersect,
                    (k, &spheres@[j], ray),
                    #[trigger] ranks@[j],
                ),
        decreases spheres.len() - i,
    {
        let rank = k.ray_intersect(&spheres[i], ray);
        ranks.push(rank);
        i += 1;
    }
    let plane = k.plane_intersect(ray);
    let pick = nearest(&ranks, plane, horizon);
    let out = match pick {
        Nearest::Miss => None,
        Nearest::Sphere { index, .. } => Some(k.sphere_surface(&spheres[index], ray)),
        Nearest::Plane { .. } => Some(k.plane_surface(ray)),
    };
    proof {
        assert(measured(k, spheres, ray, ranks@, plane));
        assert(surfaced(k, spheres, ray, pick, out));
    }
    out
}

} // verus!
