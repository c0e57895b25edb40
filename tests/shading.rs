use raytracer::camera::{has_basis, Camera};
use raytracer::fixed::SCALE;
use raytracer::hittable::HitRecord;
use raytracer::hittables::{Hittables, Primitive};
use raytracer::material::{reflect, refract, scatter, scatter_with, schlick, Material};
use raytracer::random::{
    lamber_unit_vec3, random, random_between, random_in_hemisphere, random_in_unit_disk, random_unit_vec3, random_vec3,
};
use raytracer::ray::Ray;
use raytracer::render::render;
use raytracer::sphere::Sphere;
use raytracer::tracer::{ray_color, ray_color_with};
use raytracer::vec3::Vec3;

fn fx(v: f64) -> i64 {
    (v * 65536.0).round() as i64
}

fn to_f(v: i64) -> f64 {
    v as f64 / 65536.0
}

fn v3(x: f64, y: f64, z: f64) -> Vec3 {
    Vec3::new(fx(x), fx(y), fx(z))
}

fn surface(p: Vec3, n: Vec3, m: Material) -> HitRecord {
    HitRecord { p: Some(p), normal: Some(n), t: Some(fx(1.0)), front_face: Some(true), material: Some(m) }
}

fn sky(d: Vec3) -> Vec3 {
    let u = d.unit_vector();
    let t = to_f(u.y) * 0.5 + 0.5;
    v3(1.0 - 0.5 * t, 1.0 - 0.3 * t, 1.0)
}

fn close(a: Vec3, b: Vec3, eps: f64) -> bool {
    (to_f(a.x) - to_f(b.x)).abs() < eps && (to_f(a.y) - to_f(b.y)).abs() < eps && (to_f(a.z) - to_f(b.z)).abs() < eps
}

fn unit_sphere_world() -> Hittables {
    let mut world = Hittables::new();
    world.push(Primitive::Sphere(Sphere::new(v3(0.0, 0.0, 0.0), fx(1.0), Material::Lambertian(v3(0.5, 0.5, 0.5)))));
    world
}

#[test]
fn random_draws_stay_in_range() {
    for _ in 0..1000 {
        let u = random();
        assert!(0 <= u && u < SCALE);
        let b = random_between(fx(-2.0), fx(3.0));
        assert!(fx(-2.0) <= b && b < fx(3.0));
        let v = random_vec3(fx(-1.0), fx(1.0));
        assert!(v.x.abs() <= SCALE && v.y.abs() <= SCALE && v.z.abs() <= SCALE);
    }
}

#[test]
fn unit_ball_and_disk_samples() {
    for _ in 0..1000 {
        let p = random_unit_vec3();
        assert!(p.length_squared() < SCALE);
        let d = random_in_unit_disk();
        assert_eq!(d.z, 0);
        assert!(d.length_squared() < SCALE);
    }
}

#[test]
fn hemisphere_samples_face_the_normal() {
    let n = v3(0.0, 1.0, 0.0);
    for _ in 0..1000 {
        let p = random_in_hemisphere(n);
        assert!(p.dot(n) >= 0);
        assert!(p.length_squared() < SCALE);
    }
}

#[test]
fn reflection_and_refraction() {
    assert_eq!(reflect(v3(1.0, -1.0, 0.0), v3(0.0, 1.0, 0.0)), v3(1.0, 1.0, 0.0));
    // straight through at normal incidence
    assert_eq!(refract(v3(0.0, 0.0, -1.0), v3(0.0, 0.0, 1.0), fx(1.0 / 1.5)), Some(v3(0.0, 0.0, -1.0)));
    // grazing exit from glass: total internal reflection
    assert_eq!(refract(v3(1.0, 0.0, -0.2), v3(0.0, 0.0, 1.0), fx(1.5)), None);
}

#[test]
fn schlick_at_normal_incidence() {
    let r = to_f(schlick(fx(1.0), fx(1.5)));
    assert!((r - 0.04).abs() < 0.0005, "reflectance {}", r);
    let grazing = to_f(schlick(0, fx(1.5)));
    assert!((grazing - 1.0).abs() < 0.001);
}

#[test]
fn scatter_with_fixed_inputs() {
    let ray = Ray::new(v3(0.0, 0.0, 2.0), v3(0.0, 0.0, -1.0));
    let p = v3(0.0, 0.0, 1.0);
    let n = v3(0.0, 0.0, 1.0);
    let jitter = v3(0.5, 0.0, 0.0);
    let mut colour = v3(0.0, 0.0, 0.0);

    let lam = Material::Lambertian(v3(0.2, 0.4, 0.6));
    let out = scatter_with(ray, surface(p, n, lam), &mut colour, lam, jitter, 0);
    assert_eq!(colour, v3(0.2, 0.4, 0.6));
    assert_eq!(out, Some(Ray::new(p, v3(0.5, 0.0, 1.0))));

    let metal = Material::Metal(v3(0.9, 0.9, 0.9), fx(0.5));
    let out = scatter_with(ray, surface(p, n, metal), &mut colour, metal, jitter, 0);
    assert_eq!(colour, v3(0.9, 0.9, 0.9));
    assert_eq!(out, Some(Ray::new(p, v3(0.25, 0.0, 1.0))));

    // fuzz pushing the reflection into the surface absorbs the ray
    let rough = Material::Metal(v3(0.9, 0.9, 0.9), fx(2.0));
    let out = scatter_with(ray, surface(p, n, rough), &mut colour, rough, v3(0.0, 0.0, -0.8), 0);
    assert_eq!(out, None);

    let out = scatter_with(ray, surface(p, n, Material::Mirror), &mut colour, Material::Mirror, jitter, 0);
    assert_eq!(colour, v3(1.0, 1.0, 1.0));
    assert_eq!(out, Some(Ray::new(p, v3(0.0, 0.0, 1.0))));

    let glass = Material::Dielectric(fx(1.5));
    let through = scatter_with(ray, surface(p, n, glass), &mut colour, glass, jitter, SCALE - 1);
    assert_eq!(colour, v3(1.0, 1.0, 1.0));
    assert_eq!(through, Some(Ray::new(p, v3(0.0, 0.0, -1.0))));
    let back = scatter_with(ray, surface(p, n, glass), &mut colour, glass, jitter, 0);
    assert_eq!(back, Some(Ray::new(p, v3(0.0, 0.0, 1.0))));
}

#[test]
fn dielectric_reflects_about_four_percent_at_normal_incidence() {
    let ray = Ray::new(v3(0.0, 0.0, 2.0), v3(0.0, 0.0, -1.0));
    let glass = Material::Dielectric(fx(1.5));
    let rec = surface(v3(0.0, 0.0, 1.0), v3(0.0, 0.0, 1.0), glass);
    let trials = 20000;
    let mut reflected = 0;
    for _ in 0..trials {
        let mut colour = v3(0.0, 0.0, 0.0);
        let out = scatter(ray, rec, &mut colour, glass).unwrap();
        assert_eq!(colour, v3(1.0, 1.0, 1.0));
        if out.direction.z > 0 {
            reflected += 1;
        }
    }
    let share = reflected as f64 / trials as f64;
    assert!(share > 0.025 && share < 0.055, "share {}", share);
}

#[test]
fn lambertian_never_absorbs() {
    let ray = Ray::new(v3(0.0, 0.0, 2.0), v3(0.0, 0.3, -1.0));
    let lam = Material::Lambertian(v3(0.5, 0.5, 0.5));
    let rec = surface(v3(0.0, 0.0, 1.0), v3(0.0, 0.0, 1.0), lam);
    for _ in 0..1000 {
        let mut colour = v3(0.0, 0.0, 0.0);
        assert!(scatter(ray, rec, &mut colour, lam).is_some());
        assert_eq!(colour, v3(0.5, 0.5, 0.5));
    }
}

#[test]
fn exhausted_depth_gives_black() {
    let world = unit_sphere_world();
    for d in [v3(0.0, 0.0, -1.0), v3(0.0, 1.0, 0.0)] {
        let r = Ray::new(v3(0.0, 0.0, 3.0), d);
        assert_eq!(ray_color(r, &world, 0), v3(0.0, 0.0, 0.0));
        assert_eq!(ray_color(r, &world, -5), v3(0.0, 0.0, 0.0));
    }
}

#[test]
fn miss_gives_sky_gradient() {
    let world = unit_sphere_world();
    let up = Ray::new(v3(0.0, 0.0, 3.0), v3(0.0, 1.0, 0.0));
    assert_eq!(ray_color(up, &world, 5), v3(0.5, 0.7, 1.0));
    let down = Ray::new(v3(0.0, 0.0, 3.0), v3(0.0, -1.0, 0.0));
    assert_eq!(ray_color(down, &world, 5), v3(1.0, 1.0, 1.0));
    let level = Ray::new(v3(0.0, 0.0, 3.0), v3(0.0, 0.0, 1.0));
    assert!(close(ray_color(level, &world, 5), v3(0.75, 0.85, 1.0), 0.001));
}

#[test]
fn one_bounce_off_diffuse_sphere_is_darker_than_albedo() {
    let world = unit_sphere_world();
    let r = Ray::new(v3(0.0, 0.0, 3.0), v3(0.0, 0.0, -1.0));
    let n = 4000;
    let mut red = 0.0;
    for _ in 0..n {
        let c = ray_color(r, &world, 2);
        assert!(c.x <= fx(0.5) && c.y <= fx(0.5) && c.z <= fx(0.5));
        assert!(c.x > 0);
        red += to_f(c.x);
    }
    let mean = red / n as f64;
    assert!(mean < 0.5 && mean > 0.25, "mean {}", mean);
}

#[test]
fn occluded_light_darkens() {
    let mut world = unit_sphere_world();
    // a mirror floor just below the sphere, with a light above the sphere
    world.push(Primitive::Sphere(Sphere::new(v3(0.0, -101.0, 0.0), fx(100.0), Material::Mirror)));
    world.push_light(v3(0.0, 5.0, 0.0));
    // the ray bounces off the floor up into the sky, away from the sphere;
    // the sphere stands between the bounce point and the light
    let r = Ray::new(v3(0.0, -0.9, 1.0), v3(0.0, -1.0, 1.0));
    let c = ray_color(r, &world, 2);
    let lit = sky(v3(0.0, 1.0, 1.0));
    let expected = v3(0.3 * to_f(lit.x), 0.3 * to_f(lit.y), 0.3 * to_f(lit.z));
    assert!(close(c, expected, 0.01), "{:?} {:?}", c, expected);
    // without the light nothing is darkened
    let mut open = unit_sphere_world();
    open.push(Primitive::Sphere(Sphere::new(v3(0.0, -101.0, 0.0), fx(100.0), Material::Mirror)));
    assert!(close(ray_color(r, &open, 2), lit, 0.01));
}

#[test]
fn camera_rays_through_image_plane() {
    let cam = Camera::new(v3(0.0, 0.0, 3.0), v3(0.0, 0.0, 0.0), v3(0.0, 1.0, 0.0), fx(1.0), fx(1.0), 0, fx(3.0));
    assert_eq!(cam.lens_radius, 0);
    let centre = cam.get_ray_with(fx(0.5), fx(0.5), v3(0.0, 0.0, 0.0));
    assert_eq!(centre.origin, v3(0.0, 0.0, 3.0));
    assert_eq!(centre.direction, v3(0.0, 0.0, -3.0));
    let corner = cam.get_ray(0, 0);
    assert_eq!(corner.direction, v3(-3.0, -3.0, -3.0));
    let thin = Camera::new(v3(0.0, 0.0, 3.0), v3(0.0, 0.0, 0.0), v3(0.0, 1.0, 0.0), fx(1.0), fx(1.0), fx(0.2), fx(3.0));
    for _ in 0..100 {
        let r = thin.get_ray(fx(0.5), fx(0.5));
        // every lens ray still passes through the focus point
        let at_focus = r.origin.add(r.direction);
        assert!(close(at_focus, v3(0.0, 0.0, 0.0), 0.001));
    }
}

#[test]
fn two_by_two_render_of_unit_sphere() {
    let world = unit_sphere_world();
    let cam = Camera::new(v3(0.0, 0.0, 3.0), v3(0.0, 0.0, 0.0), v3(0.0, 1.0, 0.0), fx(1.0), fx(1.0), 0, fx(3.0));
    let image = render(&world, &cam, 2, 2, 1, 1);
    assert_eq!(image.len(), 12);
    for px in image.chunks(3) {
        let black = px == [0, 0, 0];
        // a miss shows the sky: blue at least green at least red, and bright
        let sky_like = px[2] == 255 && px[1] >= px[0] && px[0] >= 180;
        assert!(black || sky_like, "{:?}", px);
    }
}

#[test]
fn sky_formula_matches_closed_form() {
    let world = Hittables::new();
    for (x, y, z) in [(0.3, 0.4, -1.0), (1.0, -0.2, 0.5), (0.0, 0.9, 0.1)] {
        let d = v3(x, y, z);
        let c = ray_color(Ray::new(v3(0.0, 0.0, 0.0), d), &world, 1);
        assert!(close(c, sky(d), 0.001));
    }
}

#[test]
fn fixed_bounce_inputs_give_exact_colour() {
    let world = unit_sphere_world();
    let r = Ray::new(v3(0.0, 0.0, 3.0), v3(0.0, 0.0, -1.0));
    // no jitter: the bounce leaves straight up the normal into the sky
    let c = ray_color_with(r, &world, 2, &vec![(v3(0.0, 0.0, 0.0), 0)]);
    assert!(close(c, v3(0.375, 0.425, 0.5), 0.001), "{:?}", c);
    // the same with no inputs at all
    assert_eq!(ray_color_with(r, &world, 2, &vec![]), c);
    // a jitter sideways and up tilts the bounce toward the blue sky
    let tilted = ray_color_with(r, &world, 2, &vec![(v3(0.0, 0.9, 0.0), 0)]);
    assert!(tilted.x < c.x);
    assert_eq!(ray_color_with(r, &world, 0, &vec![]), v3(0.0, 0.0, 0.0));
}

#[test]
fn scene_push_keeps_order() {
    let mut world = Hittables::new();
    world.push(Primitive::Sphere(Sphere::new(v3(0.0, 0.0, 0.0), fx(1.0), Material::Mirror)));
    world.push_light(v3(1.0, 2.0, 3.0));
    world.push(Primitive::Sphere(Sphere::new(v3(5.0, 0.0, 0.0), fx(2.0), Material::Mirror)));
    assert_eq!(world.hittables.len(), 2);
    assert_eq!(world.lights, vec![v3(1.0, 2.0, 3.0)]);
    match &world.hittables[1] {
        Primitive::Sphere(s) => assert_eq!(s.radius, fx(2.0)),
        _ => panic!("expected a sphere"),
    }
}

#[test]
fn lambert_samples_lie_on_unit_sphere() {
    let mut upper = 0;
    for _ in 0..2000 {
        let p = lamber_unit_vec3();
        let len = to_f(p.length());
        assert!((len - 1.0).abs() < 0.02, "length {}", len);
        assert!(p.z >= -SCALE && p.z < SCALE);
        if p.z > 0 {
            upper += 1;
        }
    }
    assert!(upper > 800 && upper < 1200);
}

fn back_surface(p: Vec3, n: Vec3, m: Material) -> HitRecord {
    HitRecord { p: Some(p), normal: Some(n), t: Some(fx(1.0)), front_face: Some(false), material: Some(m) }
}

#[test]
fn leaving_glass_at_a_steep_angle_reflects_totally() {
    let glass = Material::Dielectric(fx(1.5));
    let d = v3(1.0, -1.0, 0.0);
    let n = v3(0.0, 1.0, 0.0);
    let ray = Ray::new(v3(-1.0, 1.0, 0.0), d);
    let rec = back_surface(v3(0.0, 0.0, 0.0), n, glass);
    let mirrored = reflect(d.unit_vector(), n);
    for u in [0, SCALE / 2, SCALE - 1] {
        let mut colour = v3(0.0, 0.0, 0.0);
        let out = scatter_with(ray, rec, &mut colour, glass, v3(0.0, 0.0, 0.0), u).unwrap();
        assert_eq!(out.direction, mirrored);
        assert!(out.direction.y > 0);
    }
    // entering at the same angle refracts for a high draw
    let front = surface(v3(0.0, 0.0, 0.0), n, glass);
    let mut colour = v3(0.0, 0.0, 0.0);
    let out = scatter_with(ray, front, &mut colour, glass, v3(0.0, 0.0, 0.0), SCALE - 1).unwrap();
    assert!(out.direction.y < 0);
}

#[test]
fn leaving_glass_head_on_passes_through() {
    let glass = Material::Dielectric(fx(1.5));
    let ray = Ray::new(v3(0.0, 1.0, 0.0), v3(0.0, -1.0, 0.0));
    let rec = back_surface(v3(0.0, 0.0, 0.0), v3(0.0, 1.0, 0.0), glass);
    let mut colour = v3(0.0, 0.0, 0.0);
    let out = scatter_with(ray, rec, &mut colour, glass, v3(0.0, 0.0, 0.0), SCALE - 1).unwrap();
    assert_eq!(out.direction, v3(0.0, -1.0, 0.0));
}

#[test]
fn camera_basis_check() {
    assert!(has_basis(v3(0.0, 0.0, 3.0), v3(0.0, 0.0, 0.0), v3(0.0, 1.0, 0.0)));
    assert!(!has_basis(v3(0.0, 0.0, 3.0), v3(0.0, 0.0, 3.0), v3(0.0, 1.0, 0.0)));
    assert!(!has_basis(v3(0.0, 3.0, 0.0), v3(0.0, 0.0, 0.0), v3(0.0, 1.0, 0.0)));
}
