//! The numeric kernel: what the tracer asks of real-valued geometry.

use vstd::prelude::*;
use crate::frame::Rgb;

verus! {

/// Geometry and shading formulas over real-valued vectors.
///
/// The tracer decides which surface is hit, how deep the recursion goes and
/// which lights reach a point. The distances it decides on are handed over as
/// ranks: unsigned integers such that of two distances the smaller has the
/// smaller rank, and equal distances have equal ranks.
///
/// Nothing is assumed of an implementation: what the tracer promises, it
/// promises of whatever the methods returned.
pub trait Optics {
    /// An origin and a unit direction.
    type Ray;

    /// A sphere with its material.
    type Sphere;

    /// A point light.
    type Light;

    /// A point on a surface, with the unit normal and the material there.
    type Hit;

    /// A colour whose components may exceed one.
    type Color;

    /// The ray from the eye through the centre of the pixel at (`row`,
    /// `column`) of a `width` by `height` image.
    fn primary_ray(&self, column: usize, row: usize, width: usize, height: usize) -> Self::Ray;

    /// The colour as it is stored: each channel held to the range from zero
    /// to one, scaled to 255 and cut to a whole number.
    fn quantize(&self, color: &Self::Color) -> Rgb;

    /// Rank of the nearest distance, not negative, at which `ray` meets
    /// `sphere`; `None` where it does not.
    fn ray_intersect(&self, sphere: &Self::Sphere, ray: &Self::Ray) -> Option<u64>;

    /// Rank of the distance at which `ray` meets the ground plane within its
    /// extent; `None` where it does not, or where the scene has no plane.
    fn plane_intersect(&self, ray: &Self::Ray) -> Option<u64>;

    /// The point at which `ray` meets `sphere`, given that it does.
    fn sphere_surface(&self, sphere: &Self::Sphere, ray: &Self::Ray) -> Self::Hit;

    /// The point at which `ray` meets the ground plane, given that it does.
    fn plane_surface(&self, ray: &Self::Ray) -> Self::Hit;

    /// The colour of a ray that meets nothing.
    fn background(&self) -> Self::Color;

    /// The mirrored ray, leaving the surface at `hit`.
    fn reflect_ray(&self, ray: &Self::Ray, hit: &Self::Hit) -> Self::Ray;

    /// The ray bent through the surface at `hit`; `None` on total internal
    /// reflection, or where the material does not refract.
    fn refract_ray(&self, ray: &Self::Ray, hit: &Self::Hit) -> Option<Self::Ray>;

    /// The ray from the surface at `hit` toward `light`.
    fn shadow_ray(&self, hit: &Self::Hit, light: &Self::Light) -> Self::Ray;

    /// Rank of the distance from `hit` to `light`.
    fn light_distance(&self, hit: &Self::Hit, light: &Self::Light) -> u64;

    /// Rank of the distance from the origin of `ray` to `hit`.
    fn hit_distance(&self, ray: &Self::Ray, hit: &Self::Hit) -> u64;

    /// The colour leaving `hit` against `ray`: diffuse and specular light from
    /// each light marked in `lit`, and the two colours that came back along the
    /// reflected and the refracted ray, weighted by the material.
    fn shade(
        &self,
        ray: &Self::Ray,
        hit: &Self::Hit,
        lights: &Vec<Self::Light>,
        lit: &Vec<bool>,
        reflected: Self::Color,
        refracted: Option<Self::Color>,
    ) -> Self::Color;
}

} // verus!
