//! The recursive shader: the colour that comes back along a ray.

use vstd::prelude::*;
use crate::intersect::{scene_intersect, sighted};
use crate::optics::Optics;

verus! {

/// The two bounds of a render.
#[derive(Clone, Copy, Debug, PartialEq, Eq, Structural)]
pub struct Limits {
    /// Rays deeper than this are not followed: they get the background colour.
    pub max_depth: usize,
    /// Rank of the distance at which a surface is too far to be seen.
    pub horizon: u64,
}

/// A surface stands between a point and a light when it is met strictly
/// nearer than the light.
pub open spec fn shadowed(occluder: Option<u64>, light: u64) -> bool {
    occluder matches Some(d) && d < light
}

/// Decides the shadow test from the distance of the nearest surface toward a
/// light, if there is one, and the distance of the light itself.
pub fn in_shadow(occluder: Option<u64>, light: u64) -> (out: bool)
    ensures
        out == shadowed(occluder, light),
{
    match occluder {
        Some(d) => d < light,
        None => false,
    }
}

/// `at` is the kernel's distance from the origin of `probe` to `occluder`, where
/// there is one.
pub open spec fn gauged<K: Optics>(
    k: &K,
    probe: &K::Ray,
    occluder: Option<K::Hit>,
    at: Option<u64>,
) -> bool {
    match occluder {
        Some(surface) => at matches Some(d) && call_ensures(
            K::hit_distance,
            (k, probe, &surface),
            d,
        ),
        None => at is None,
    }
}

/// One shadow test, with everything the kernel reported on the way: the ray
/// toward the light, the light's distance, the nearest surface along that ray
/// and its distance.
pub open spec fn shadow_test<K: Optics>(
    k: &K,
    spheres: &Vec<K::Sphere>,
    hit: &K::Hit,
    light: &K::Light,
    horizon: u64,
    probe: K::Ray,
    reach: u64,
    occluder: Option<K::Hit>,
    at: Option<u64>,
    lit: bool,
) -> bool {
    &&& call_ensures(K::shadow_ray, (k, hit, light), probe)
    &&& call_ensures(K::light_distance, (k, hit, light), reach)
    &&& sighted(k, spheres, &probe, horizon, occluder)
    &&& gauged(k, &probe, occluder, at)
    &&& lit == !shadowed(at, reach)
}

/// `lit` says whether `light` reaches `hit`: it does unless the ray toward it
/// meets a surface strictly nearer than the light.
pub open spec fn light_reaches<K: Optics>(
    k: &K,
    spheres: &Vec<K::Sphere>,
    hit: &K::Hit,
    light: &K::Light,
    horizon: u64,
    lit: bool,
) -> bool {
    exists|probe: K::Ray, reach: u64, occluder: Option<K::Hit>, at: Option<u64>| #[trigger]
        shadow_test(k, spheres, hit, light, horizon, probe, reach, occluder, at, lit)
}

/// `lit` holds the outcome of the shadow test for each light, in order.
pub open spec fn lights_tested<K: Optics>(
    k: &K,
    spheres: &Vec<K::Sphere>,
    lights: &Vec<K::Light>,
    hit: &K::Hit,
    horizon: u64,
    lit: Seq<bool>,
) -> bool {
    &&& lit.len() == lights@.len()
    &&& forall|i: int|
        0 <= i < lit.len() ==> light_reaches(
            k,
            spheres,
            hit,
            &lights@[i],
            horizon,
            #[trigger] lit[i],
        )
}

/// `out` is the colour that comes back along `ray` at recursion depth `depth`.
///
/// Past the depth bound, and where the ray meets nothing, it is the
/// background. At a surface it is the kernel's shade of: the colour along the
/// reflected ray and, where the kernel gave a refracted ray, the colour along
/// that one, both one level deeper; and the lights that pass the shadow test.
pub open spec fn shaded<K: Optics>(
    k: &K,
    spheres: &Vec<K::Sphere>,
    lights: &Vec<K::Light>,
    ray: &K::Ray,
    depth: nat,
    limits: Limits,
    out: K::Color,
) -> bool
    decreases limits.max_depth + 1 - depth,
{
    if depth > limits.max_depth {
        call_ensures(K::background, (k,), out)
    } else {
        exists|hit: Option<K::Hit>| #[trigger]
            sighted(k, spheres, ray, limits.horizon, hit) && match hit {
                None => call_ensures(K::background, (k,), out),
                Some(h) => exists|
                    mirror: K::Ray,
                    bent: Option<K::Ray>,
                    reflected: K::Color,
                    refracted: Option<K::Color>,
                    lit: Vec<bool>,
                |
                    #![trigger
                        call_ensures(K::reflect_ray, (k, ray, &h), mirror),
                        call_ensures(K::refract_ray, (k, ray, &h), bent),
                        call_ensures(K::shade, (k, ray, &h, lights, &lit, reflected, refracted), out)
                    ]
                    {
                        &&& call_ensures(K::reflect_ray, (k, ray, &h), mirror)
                        &&& call_ensures(K::refract_ray, (k, ray, &h), bent)
                        &&& shaded(k, spheres, lights, &mirror, depth + 1, limits, reflected)
                        &&& match bent {
                            Some(b) => refracted matches Some(c) && shaded(
                                k,
                                spheres,
                                lights,
                                &b,
                                depth + 1,
                                limits,
                                c,
                            ),
                            None => refracted is None,
                        }
                        &&& lights_tested(k, spheres, lights, &h, limits.horizon, lit@)
                        &&& call_ensures(
                            K::shade,
                            (k, ray, &h, lights, &lit, reflected, refracted),
                            out,
                        )
                    },
            }
    }
}

/// Tests whether `light` reaches the surface point `hit`.
pub fn light_visible<K: Optics>(
    k: &K,
    hit: &K::Hit,
    light: &K::Light,
    spheres: &Vec<K::Sphere>,
    horizon: u64,
) -> (lit: bool)
    ensures
        light_reaches(k, spheres, hit, light, horizon, lit),
{
    let probe = k.shadow_ray(hit, light);
    let reach = k.light_distance(hit, light);
    let occluder = scene_intersect(k, &probe, spheres, horizon);
    let at = match &occluder {
        Some(surface) => Some(k.hit_distance(&probe, surface)),
        None => None,
    };
    let lit = !in_shadow(at, reach);
    proof {
        assert(shadow_test(k, spheres, hit, light, horizon, probe, reach, occluder, at, lit));
    }
    lit
}

/// Casts a ray that leaves a surface seen at `depth`: one level deeper. Where
/// no deeper level can be counted, the ray is past every bound.
fn deeper<K: Optics>(
    k: &K,
    ray: &K::Ray,
    spheres: &Vec<K::Sphere>,
    lights: &Vec<K::Light>,
    depth: usize,
    limits: &Limits,
) -> (out: K::Color)
    requires
        depth <= limits.max_depth,
    ensures
        shaded(k, spheres, lights, ray, (depth + 1) as nat, *limits, out),
    decreases limits.max_depth + 1 - depth, 0nat,
{
    if depth < usize::MAX {
        cast_ray(k, ray, spheres, lights, depth + 1, limits)
    } else {
        k.background()
    }
}

/// Casts `ray` into the scene and returns the colour that comes back.
///
/// The call at the eye has depth 0; each reflected or refracted ray is cast one
/// level deeper, and a ray deeper than `limits.max_depth` is not followed.
pub fn cast_ray<K: Optics>(
    k: &K,
    ray: &K::Ray,
    spheres: &Vec<K::Sphere>,
    lights: &Vec<K::Light>,
    depth: usize,
    limits: &Limits,
) -> (out: K::Color)
    ensures
        shaded(k, spheres, lights, ray, depth as nat, *limits, out),
        depth > limits.max_depth ==> call_ensures(K::background, (k,), out),
    decreases limits.max_depth + 1 - depth, 1nat,
{
    if depth > limits.max_depth {
        return k.background();
    }
    let hit = scene_intersect(k, ray, spheres, limits.horizon);
    match &hit {
        None => k.background(),
        Some(h) => {
            let mirror = k.reflect_ray(ray, h);
            let bent = k.refract_ray(ray, h);
            let reflected = deeper(k, &mirror, spheres, lights, depth, limits);
            let refracted = match &bent {
                Some(b) => Some(deeper(k, b, spheres, lights, depth, limits)),
                None => None,
            };
            let mut lit: Vec<bool> = Vec::new();
            let mut i: usize = 0;
            while i < lights.len()
                invariant
                    i <= lights.len(),
                    lit@.len() == i,
                    forall|j: int|
                        0 <= j < i ==> light_reaches(
                            k,
                            spheres,
                            h,
                            &lights@[j],
                            limits.horizon,
                            #[trigger] lit@[j],
                        ),
                decreases lights.len() - i,
            {
                let reached = light_visible(k, h, &lights[i], spheres, limits.horizon);
                lit.push(reached);
                i += 1;
            }
            k.shade(ray, h, lights, &lit, reflected, refracted)
        },
    }
}

} // verus!
