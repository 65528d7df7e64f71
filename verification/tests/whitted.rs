// The tracer driven by a single-precision kernel: spheres, point lights, mirror
// reflection and refraction.

use nalgebra::{Vector3, Vector4};
use raytracer::frame::{Framebuffer, Pixel, Rgb};
use raytracer::intersect::scene_intersect;
use raytracer::nearest::checker;
use raytracer::optics::Optics;
use raytracer::render::{render, render_band};
use raytracer::shader::{cast_ray, light_visible, Limits};
use raytracer::tiles::bands;
use std::cell::Cell;

type Vec3 = Vector3<f32>;
type Vec4 = Vector4<f32>;

#[derive(Clone, Copy)]
struct Material {
    refractive_index: f32,
    diffuse_color: Vec3,
    albedo: Vec4,
    specular_exponent: f32,
}

#[derive(Clone, Copy)]
struct Sphere {
    center: Vec3,
    radius: f32,
    material: Material,
}

#[derive(Clone, Copy)]
struct Light {
    position: Vec3,
    intensity: f32,
}

#[derive(Clone, Copy)]
struct Ray {
    origin: Vec3,
    direction: Vec3,
}

#[derive(Clone, Copy)]
struct Hit {
    point: Vec3,
    normal: Vec3,
    material: Material,
}

// `casts` counts the surfaces that were shaded: the tracer asks for one
// reflected ray at each.
struct Kernel {
    tan_half_fov: f32,
    ground: bool,
    casts: Cell<usize>,
}

fn rank(distance: f32) -> u64 {
    u64::from((distance + 0.0).to_bits())
}

fn ray_sphere(sphere: &Sphere, orig: Vec3, dir: Vec3) -> Option<f32> {
    let l = sphere.center - orig;
    let tca = l.dot(&dir);
    let d2 = l.dot(&l) - tca * tca;
    let r2 = sphere.radius * sphere.radius;
    if d2 > r2 {
        return None;
    }
    let thc = (r2 - d2).sqrt();
    let mut t0 = tca - thc;
    let t1 = tca + thc;
    if t0 < 0.0 {
        t0 = t1;
    }
    if t0 < 0.0 || t0.is_nan() {
        return None;
    }
    Some(t0)
}

fn reflect(i: &Vec3, n: &Vec3) -> Vec3 {
    i - n * 2.0 * i.dot(n)
}

fn refract(i: &Vec3, n: &Vec3, refractive_index: f32) -> Option<Vec3> {
    let mut cosi = -i.dot(n).min(1.0).max(-1.0);
    let mut etai = 1.0f32;
    let mut etat = refractive_index;
    let mut nn = *n;
    if cosi < 0.0 {
        cosi = -cosi;
        std::mem::swap(&mut etai, &mut etat);
        nn = -nn;
    }
    let eta = etai / etat;
    let k = 1.0 - eta * eta * (1.0 - cosi * cosi);
    if k < 0.0 {
        None
    } else {
        Some(i * eta + nn * (eta * cosi - k.sqrt()))
    }
}

// The ground: the plane y = -4, for |x| < 10 and -30 < z < -10.
fn ground_distance(ray: &Ray) -> Option<f32> {
    if ray.direction.y.abs() <= 1e-3 {
        return None;
    }
    let d = -(ray.origin.y + 4.0) / ray.direction.y;
    let pt = ray.origin + ray.direction * d;
    if d > 0.0 && pt.x.abs() < 10.0 && pt.z < -10.0 && pt.z > -30.0 {
        Some(d)
    } else {
        None
    }
}

fn leave(point: Vec3, normal: Vec3, direction: Vec3) -> Vec3 {
    if direction.dot(&normal) < 0.0 {
        point - normal * 1e-2
    } else {
        point + normal * 1e-2
    }
}

impl Optics for Kernel {
    type Ray = Ray;
    type Sphere = Sphere;
    type Light = Light;
    type Hit = Hit;
    type Color = Vec3;

    fn primary_ray(&self, column: usize, row: usize, width: usize, height: usize) -> Ray {
        let w = width as f32;
        let h = height as f32;
        let x = (2.0 * (column as f32 + 0.5) / w - 1.0) * self.tan_half_fov * w / h;
        let y = -(2.0 * (row as f32 + 0.5) / h - 1.0) * self.tan_half_fov;
        Ray { origin: Vec3::new(0.0, 0.0, 0.0), direction: Vec3::new(x, y, -1.0).normalize() }
    }

    fn quantize(&self, color: &Vec3) -> Rgb {
        Rgb {
            red: (color.x.max(0.0).min(1.0) * 255.0) as u8,
            green: (color.y.max(0.0).min(1.0) * 255.0) as u8,
            blue: (color.z.max(0.0).min(1.0) * 255.0) as u8,
        }
    }

    fn ray_intersect(&self, sphere: &Sphere, ray: &Ray) -> Option<u64> {
        ray_sphere(sphere, ray.origin, ray.direction).map(rank)
    }

    fn plane_intersect(&self, ray: &Ray) -> Option<u64> {
        if !self.ground {
            return None;
        }
        ground_distance(ray).map(rank)
    }

    fn sphere_surface(&self, sphere: &Sphere, ray: &Ray) -> Hit {
        let t = ray_sphere(sphere, ray.origin, ray.direction).unwrap();
        let point = ray.origin + ray.direction * t;
        Hit { point, normal: (point - sphere.center).normalize(), material: sphere.material }
    }

    fn plane_surface(&self, ray: &Ray) -> Hit {
        let point = ray.origin + ray.direction * ground_distance(ray).unwrap();
        let odd = checker((0.5 * point.x).floor() as i32, (0.5 * point.z).floor() as i32);
        let diffuse_color =
            if odd { Vec3::new(0.3, 0.3, 0.3) } else { Vec3::new(0.3, 0.24, 0.09) };
        Hit {
            point,
            normal: Vec3::new(0.0, 1.0, 0.0),
            material: Material {
                refractive_index: 1.0,
                diffuse_color,
                albedo: Vec4::new(1.0, 0.0, 0.0, 0.0),
                specular_exponent: 1.0,
            },
        }
    }

    fn background(&self) -> Vec3 {
        Vec3::new(0.2, 0.7, 0.8)
    }

    fn reflect_ray(&self, ray: &Ray, hit: &Hit) -> Ray {
        self.casts.set(self.casts.get() + 1);
        let direction = reflect(&ray.direction, &hit.normal).normalize();
        Ray { origin: leave(hit.point, hit.normal, direction), direction }
    }

    fn refract_ray(&self, ray: &Ray, hit: &Hit) -> Option<Ray> {
        let bent = refract(&ray.direction, &hit.normal, hit.material.refractive_index)?;
        let direction = bent.normalize();
        Some(Ray { origin: leave(hit.point, hit.normal, direction), direction })
    }

    fn shadow_ray(&self, hit: &Hit, light: &Light) -> Ray {
        let direction = (light.position - hit.point).normalize();
        Ray { origin: leave(hit.point, hit.normal, direction), direction }
    }

    fn light_distance(&self, hit: &Hit, light: &Light) -> u64 {
        rank((light.position - hit.point).norm())
    }

    fn hit_distance(&self, ray: &Ray, hit: &Hit) -> u64 {
        rank((hit.point - ray.origin).norm())
    }

    fn shade(
        &self,
        ray: &Ray,
        hit: &Hit,
        lights: &Vec<Light>,
        lit: &Vec<bool>,
        reflected: Vec3,
        refracted: Option<Vec3>,
    ) -> Vec3 {
        let mut diffuse = 0.0f32;
        let mut specular = 0.0f32;
        for (light, reached) in lights.iter().zip(lit.iter()) {
            if !*reached {
                continue;
            }
            let light_dir = (light.position - hit.point).normalize();
            diffuse += light.intensity * light_dir.dot(&hit.normal).max(0.0);
            specular += (-reflect(&(-light_dir), &hit.normal).dot(&ray.direction))
                .max(0.0)
                .powf(hit.material.specular_exponent)
                * light.intensity;
        }
        let m = &hit.material;
        m.diffuse_color * diffuse * m.albedo[0]
            + Vec3::new(1.0, 1.0, 1.0) * specular * m.albedo[1]
            + reflected * m.albedo[2]
            + refracted.unwrap_or(Vec3::new(0.0, 0.0, 0.0)) * m.albedo[3]
    }
}

fn kernel() -> Kernel {
    Kernel { tan_half_fov: 1.0, ground: false, casts: Cell::new(0) }
}

fn kernel_with_ground() -> Kernel {
    Kernel { tan_half_fov: 1.0, ground: true, casts: Cell::new(0) }
}

fn limits() -> Limits {
    Limits { max_depth: 4, horizon: rank(1000.0) }
}

fn matte() -> Material {
    Material {
        refractive_index: 1.0,
        diffuse_color: Vec3::new(0.3, 0.1, 0.1),
        albedo: Vec4::new(0.9, 0.1, 0.0, 0.0),
        specular_exponent: 10.0,
    }
}

fn mirror() -> Material {
    Material {
        refractive_index: 1.0,
        diffuse_color: Vec3::new(1.0, 1.0, 1.0),
        albedo: Vec4::new(0.0, 10.0, 0.8, 0.0),
        specular_exponent: 1425.0,
    }
}

fn glass() -> Material {
    Material {
        refractive_index: 1.5,
        diffuse_color: Vec3::new(0.6, 0.7, 0.8),
        albedo: Vec4::new(0.0, 0.5, 0.1, 0.8),
        specular_exponent: 125.0,
    }
}

fn toward(x: f32, y: f32, z: f32) -> Ray {
    Ray { origin: Vec3::new(0.0, 0.0, 0.0), direction: Vec3::new(x, y, z).normalize() }
}

#[test]
fn ranks_order_as_distances_do() {
    assert!(rank(0.0) < rank(1e-3));
    assert!(rank(13.99) < rank(14.0));
    assert!(rank(999.9) < rank(1000.0));
    assert!(rank(1000.0) < rank(f32::MAX));
    assert_eq!(rank(-0.0), rank(0.0));
}

#[test]
fn ray_aimed_at_a_sphere_hits_its_near_side() {
    let k = kernel();
    let sphere = Sphere { center: Vec3::new(0.0, 0.0, -16.0), radius: 2.0, material: matte() };
    let spheres = vec![sphere];
    let ray = toward(0.0, 0.0, -1.0);
    let hit = scene_intersect(&k, &ray, &spheres, rank(1000.0)).expect("the sphere is ahead");
    assert!((hit.point - Vec3::new(0.0, 0.0, -14.0)).norm() < 1e-4);
    assert!((hit.normal - Vec3::new(0.0, 0.0, 1.0)).norm() < 1e-4);
    assert_eq!(k.hit_distance(&ray, &hit), rank(14.0));
}

#[test]
fn ray_aimed_away_hits_nothing() {
    let k = kernel();
    let spheres = vec![
        Sphere { center: Vec3::new(0.0, 0.0, -16.0), radius: 2.0, material: matte() },
        Sphere { center: Vec3::new(5.0, 0.0, -10.0), radius: 1.0, material: mirror() },
    ];
    assert!(scene_intersect(&k, &toward(0.0, 0.0, 1.0), &spheres, rank(1000.0)).is_none());
    assert!(scene_intersect(&k, &toward(0.0, 1.0, 0.0), &spheres, rank(1000.0)).is_none());
}

#[test]
fn nearer_of_two_spheres_is_seen() {
    let k = kernel();
    let far = Sphere { center: Vec3::new(0.0, 0.0, -30.0), radius: 2.0, material: matte() };
    let near = Sphere { center: Vec3::new(0.0, 0.0, -10.0), radius: 2.0, material: mirror() };
    let ray = toward(0.0, 0.0, -1.0);
    for spheres in [vec![far, near], vec![near, far]] {
        let hit = scene_intersect(&k, &ray, &spheres, rank(1000.0)).unwrap();
        assert!((hit.point.z + 8.0).abs() < 1e-4);
        assert_eq!(hit.material.specular_exponent, 1425.0);
    }
}

#[test]
fn surface_beyond_the_horizon_is_not_seen() {
    let k = kernel();
    let spheres =
        vec![Sphere { center: Vec3::new(0.0, 0.0, -1500.0), radius: 2.0, material: matte() }];
    let ray = toward(0.0, 0.0, -1.0);
    assert!(scene_intersect(&k, &ray, &spheres, rank(1000.0)).is_none());
    assert!(scene_intersect(&k, &ray, &spheres, rank(2000.0)).is_some());
}

#[test]
fn ground_is_seen_where_no_sphere_is_nearer() {
    let k = kernel_with_ground();
    let ray = toward(0.0, -4.0, -20.0);
    let hit = scene_intersect(&k, &ray, &vec![], rank(1000.0)).expect("the ground is below");
    assert!((hit.point - Vec3::new(0.0, -4.0, -20.0)).norm() < 1e-3);
    assert_eq!(hit.normal, Vec3::new(0.0, 1.0, 0.0));

    let behind = Sphere { center: Vec3::new(0.0, -8.0, -40.0), radius: 2.0, material: mirror() };
    let hit = scene_intersect(&k, &ray, &vec![behind], rank(1000.0)).unwrap();
    assert_eq!(hit.normal, Vec3::new(0.0, 1.0, 0.0));

    let before = Sphere { center: Vec3::new(0.0, -2.0, -10.0), radius: 1.0, material: mirror() };
    let hit = scene_intersect(&k, &ray, &vec![behind, before], rank(1000.0)).unwrap();
    assert_eq!(hit.material.specular_exponent, 1425.0);
    assert!(hit.point.z > -10.0);

    assert!(scene_intersect(&kernel(), &ray, &vec![], rank(1000.0)).is_none());
    assert!(scene_intersect(&k, &toward(0.0, 4.0, -20.0), &vec![], rank(1000.0)).is_none());
    assert!(scene_intersect(&k, &toward(0.0, -4.0, -5.0), &vec![], rank(1000.0)).is_none());
}

#[test]
fn ground_has_the_shade_of_its_cell() {
    let k = kernel_with_ground();
    let lights = vec![Light { position: Vec3::new(0.0, 20.0, -20.0), intensity: 1.0 }];
    let limits = Limits { max_depth: 0, horizon: rank(1000.0) };
    // Straight below the light, in the cell (0, -11): odd.
    let odd = cast_ray(&k, &toward(0.5, -4.0, -21.0), &vec![], &lights, 0, &limits);
    // One cell further along x, (1, -11): even.
    let even = cast_ray(&k, &toward(2.5, -4.0, -21.0), &vec![], &lights, 0, &limits);
    assert!((odd.x - odd.y).abs() < 1e-6 && (odd.y - odd.z).abs() < 1e-6);
    assert!(odd.x > 0.29 && odd.x <= 0.3);
    assert!((even.y / even.x - 0.8).abs() < 1e-4);
    assert!((even.z / even.x - 0.3).abs() < 1e-4);
}

#[test]
fn ray_past_the_depth_bound_gets_the_background() {
    let k = kernel();
    let spheres =
        vec![Sphere { center: Vec3::new(0.0, 0.0, -16.0), radius: 2.0, material: matte() }];
    let lights = vec![Light { position: Vec3::new(-20.0, 20.0, 20.0), intensity: 1.5 }];
    let ray = toward(0.0, 0.0, -1.0);
    let deep = cast_ray(&k, &ray, &spheres, &lights, 5, &limits());
    assert_eq!(deep, Vec3::new(0.2, 0.7, 0.8));
    let at_bound = cast_ray(&k, &ray, &spheres, &lights, 4, &limits());
    assert_ne!(at_bound, Vec3::new(0.2, 0.7, 0.8));
    assert_eq!(k.casts.get(), 1);
}

#[test]
fn ray_that_meets_nothing_gets_the_background() {
    let k = kernel();
    let spheres =
        vec![Sphere { center: Vec3::new(0.0, 0.0, -16.0), radius: 2.0, material: matte() }];
    let lights = vec![Light { position: Vec3::new(-20.0, 20.0, 20.0), intensity: 1.5 }];
    let out = cast_ray(&k, &toward(0.0, 1.0, 0.0), &spheres, &lights, 0, &limits());
    assert_eq!(out, Vec3::new(0.2, 0.7, 0.8));
}

#[test]
fn matte_sphere_is_shaded_by_the_formula() {
    // Light and eye on the axis through the centre: the light falls straight on
    // the point, and the highlight points straight back.
    let k = kernel();
    let material = Material {
        refractive_index: 1.0,
        diffuse_color: Vec3::new(0.4, 0.4, 0.3),
        albedo: Vec4::new(0.5, 0.25, 0.0, 0.0),
        specular_exponent: 2.0,
    };
    let spheres = vec![Sphere { center: Vec3::new(0.0, 0.0, -16.0), radius: 2.0, material }];
    let lights = vec![Light { position: Vec3::new(0.0, 0.0, 20.0), intensity: 2.0 }];
    let out = cast_ray(&k, &toward(0.0, 0.0, -1.0), &spheres, &lights, 0, &limits());
    let expected = Vec3::new(0.4, 0.4, 0.3) * 2.0 * 0.5 + Vec3::new(1.0, 1.0, 1.0) * 2.0 * 0.25;
    assert!((out - expected).norm() < 1e-4);
}

#[test]
fn occluding_sphere_puts_out_the_light() {
    let k = kernel();
    let target = Sphere { center: Vec3::new(0.0, 0.0, -16.0), radius: 2.0, material: matte() };
    let blocker = Sphere { center: Vec3::new(0.0, 0.0, 3.0), radius: 1.0, material: matte() };
    let lights = vec![Light { position: Vec3::new(0.0, 0.0, 20.0), intensity: 1.5 }];
    let ray = toward(0.0, 0.0, -1.0);

    let open = vec![target];
    let hit = scene_intersect(&k, &ray, &open, rank(1000.0)).unwrap();
    assert!(light_visible(&k, &hit, &lights[0], &open, rank(1000.0)));
    let bright = cast_ray(&k, &ray, &open, &lights, 0, &limits());

    let closed = vec![target, blocker];
    assert!(!light_visible(&k, &hit, &lights[0], &closed, rank(1000.0)));
    let dark = cast_ray(&k, &ray, &closed, &lights, 0, &limits());

    assert!(bright.norm() > 0.1);
    assert_eq!(dark, Vec3::new(0.0, 0.0, 0.0));
}

#[test]
fn sphere_behind_the_light_casts_no_shadow() {
    let k = kernel();
    let target = Sphere { center: Vec3::new(0.0, 0.0, -16.0), radius: 2.0, material: matte() };
    let behind = Sphere { center: Vec3::new(0.0, 0.0, 30.0), radius: 1.0, material: matte() };
    let light = Light { position: Vec3::new(0.0, 0.0, 20.0), intensity: 1.5 };
    let spheres = vec![target, behind];
    let hit = scene_intersect(&k, &toward(0.0, 0.0, -1.0), &spheres, rank(1000.0)).unwrap();
    assert!(light_visible(&k, &hit, &light, &spheres, rank(1000.0)));
}

#[test]
fn facing_mirrors_stop_at_the_depth_bound() {
    let k = kernel();
    let spheres = vec![
        Sphere { center: Vec3::new(0.0, 0.0, -10.0), radius: 4.0, material: mirror() },
        Sphere { center: Vec3::new(0.0, 0.0, 10.0), radius: 4.0, material: mirror() },
    ];
    let lights = vec![Light { position: Vec3::new(0.0, 20.0, 0.0), intensity: 1.5 }];
    let out = cast_ray(&k, &toward(0.0, 0.0, -1.0), &spheres, &lights, 0, &limits());
    assert!(out.x.is_finite() && out.y.is_finite() && out.z.is_finite());
    // One surface on each of the levels 0 to 4 along the axis; the refracted
    // rays pass into the spheres and come out again.
    assert!(k.casts.get() >= 5);
    assert!(k.casts.get() <= 31);
}

#[test]
fn glass_sphere_lets_the_background_through() {
    let k = kernel();
    let spheres =
        vec![Sphere { center: Vec3::new(0.0, 0.0, -12.0), radius: 2.0, material: glass() }];
    let lights: Vec<Light> = vec![];
    let out = cast_ray(&k, &toward(0.0, 0.0, -1.0), &spheres, &lights, 0, &limits());
    assert!(out.z > 0.3);
    assert!(out.x.is_finite());
}

#[test]
fn centre_pixel_looks_straight_ahead() {
    let k = kernel();
    let ray = k.primary_ray(50, 50, 101, 101);
    assert!((ray.direction - Vec3::new(0.0, 0.0, -1.0)).norm() < 1e-6);
    assert_eq!(ray.origin, Vec3::new(0.0, 0.0, 0.0));
}

fn single_sphere() -> (Vec<Sphere>, Vec<Light>) {
    (
        vec![Sphere { center: Vec3::new(-3.0, 0.0, -16.0), radius: 2.0, material: matte() }],
        vec![Light { position: Vec3::new(-20.0, 20.0, 20.0), intensity: 1.5 }],
    )
}

fn pixel_of(frame: &Framebuffer, row: usize, column: usize) -> [u8; 4] {
    let at = 4 * (row * frame.width() + column);
    let bytes = frame.as_bytes();
    [bytes[at], bytes[at + 1], bytes[at + 2], bytes[at + 3]]
}

#[test]
fn single_sphere_end_to_end() {
    let k = kernel();
    let (spheres, lights) = single_sphere();
    let frame = render(&k, &spheres, &lights, 100, 100, &limits(), 4).unwrap();
    assert_eq!(frame.width(), 100);
    assert_eq!(frame.height(), 100);
    assert_eq!(frame.as_bytes().len(), 40000);
    let background = [51u8, 178, 204, 255];
    for (row, column) in [(0, 0), (0, 99), (99, 0), (99, 99)] {
        assert_eq!(pixel_of(&frame, row, column), background);
    }
    // The centre of the sphere projects to x = -3/16, y = 0.
    let centre = pixel_of(&frame, 50, 40);
    assert_ne!(centre, background);
    assert_eq!(centre[3], 255);
    assert!(frame.as_bytes().chunks(4).all(|p| p[3] == 255));
}

#[test]
fn frame_is_the_same_for_any_number_of_workers() {
    let k = kernel();
    let spheres = vec![
        Sphere { center: Vec3::new(-3.0, 0.0, -16.0), radius: 2.0, material: matte() },
        Sphere { center: Vec3::new(-1.0, -1.5, -12.0), radius: 2.0, material: glass() },
        Sphere { center: Vec3::new(7.0, 5.0, -18.0), radius: 4.0, material: mirror() },
    ];
    let lights = vec![
        Light { position: Vec3::new(-20.0, 20.0, 20.0), intensity: 1.5 },
        Light { position: Vec3::new(30.0, 50.0, -25.0), intensity: 1.8 },
    ];
    let one = render(&k, &spheres, &lights, 32, 24, &limits(), 1).unwrap();
    let four = render(&k, &spheres, &lights, 32, 24, &limits(), 4).unwrap();
    let five = render(&k, &spheres, &lights, 32, 24, &limits(), 5).unwrap();
    assert_eq!(one.as_bytes(), four.as_bytes());
    assert_eq!(one.as_bytes(), five.as_bytes());
    assert!(one.as_bytes().chunks(4).any(|p| p != [51u8, 178, 204, 255]));
}

#[test]
fn bands_collected_out_of_order_give_the_same_frame() {
    let k = kernel();
    let (spheres, lights) = single_sphere();
    let whole = render(&k, &spheres, &lights, 20, 20, &limits(), 4).unwrap();
    let mut reports: Vec<Pixel> = Vec::new();
    for band in bands(20, 4).iter().rev() {
        let mut part = render_band(&k, &spheres, &lights, band, 20, 20, &limits());
        assert_eq!(part.len(), 5 * 20);
        part.reverse();
        reports.extend(part);
    }
    assert_eq!(reports.len(), 400);
    let collected = Framebuffer::collect(20, 20, &reports).unwrap();
    assert_eq!(collected.as_bytes(), whole.as_bytes());
}

#[test]
fn band_lists_its_pixels_row_by_row() {
    let k = kernel();
    let (spheres, lights) = single_sphere();
    let band = bands(10, 2)[1];
    let part = render_band(&k, &spheres, &lights, &band, 3, 10, &limits());
    assert_eq!(part.len(), 15);
    for (i, pixel) in part.iter().enumerate() {
        assert_eq!(pixel.row, 5 + i / 3);
        assert_eq!(pixel.column, i % 3);
    }
}
