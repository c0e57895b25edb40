use raytracer::axis_aligned_cube::Cube;
use raytracer::fixed::{fx_add, fx_div, fx_mul, fx_neg, fx_sqrt, fx_sub, LIMIT, SCALE};
use raytracer::hittable::{HitRecord, Hittable};
use raytracer::hittables::{Hittables, Primitive};
use raytracer::material::Material;
use raytracer::ray::Ray;
use raytracer::rectangle::Rectangle;
use raytracer::sphere::Sphere;
use raytracer::triangle::Triangle;
use raytracer::vec3::Vec3;

fn fx(v: f64) -> i64 {
    (v * 65536.0).round() as i64
}

fn to_f(v: i64) -> f64 {
    v as f64 / 65536.0
}

fn v3(x: f64, y: f64, z: f64) -> Vec3 {
    Vec3::new(fx(x), fx(y), fx(z))
}

fn grey() -> Material {
    Material::Lambertian(v3(0.5, 0.5, 0.5))
}

#[test]
fn fixed_point_arithmetic() {
    assert_eq!(fx_add(fx(1.5), fx(2.25)), fx(3.75));
    assert_eq!(fx_sub(fx(1.0), fx(2.5)), fx(-1.5));
    assert_eq!(fx_mul(fx(1.5), fx(-2.0)), fx(-3.0));
    assert_eq!(fx_mul(fx(0.5), fx(0.5)), fx(0.25));
    assert_eq!(fx_div(fx(3.0), fx(2.0)), fx(1.5));
    assert_eq!(fx_div(fx(-3.0), fx(2.0)), fx(-1.5));
    assert_eq!(fx_sqrt(fx(4.0)), fx(2.0));
    assert_eq!(fx_sqrt(fx(2.25)), fx(1.5));
    assert_eq!(fx_sqrt(fx(-1.0)), 0);
    assert_eq!(fx_neg(fx(2.0)), fx(-2.0));
}

#[test]
fn fixed_point_saturates() {
    assert_eq!(fx_add(LIMIT, LIMIT), LIMIT);
    assert_eq!(fx_sub(-LIMIT, LIMIT), -LIMIT);
    assert_eq!(fx_mul(LIMIT, LIMIT), LIMIT);
    assert_eq!(fx_div(fx(1.0), 0), LIMIT);
    assert_eq!(fx_div(fx(-1.0), 0), -LIMIT);
    assert_eq!(fx_div(0, 0), 0);
    assert_eq!(fx_neg(i64::MIN), LIMIT);
}

#[test]
fn vector_algebra() {
    let a = v3(1.0, 2.0, 3.0);
    let b = v3(4.0, -5.0, 6.0);
    assert_eq!(a.dot(b), fx(12.0));
    assert_eq!(a.cross(b), v3(27.0, 6.0, -13.0));
    assert_eq!(a.add(b), v3(5.0, -3.0, 9.0));
    assert_eq!(a.sub(b), v3(-3.0, 7.0, -3.0));
    assert_eq!(a.mul(b), v3(4.0, -10.0, 18.0));
    assert_eq!(a.scale(fx(0.5)), v3(0.5, 1.0, 1.5));
    assert_eq!(a.neg(), v3(-1.0, -2.0, -3.0));
    assert_eq!(v3(3.0, 4.0, 0.0).length_squared(), fx(25.0));
    assert_eq!(v3(3.0, 4.0, 0.0).length(), fx(5.0));
    // quotients round toward zero
    assert_eq!(v3(3.0, 4.0, 0.0).unit_vector(), Vec3::new(39321, 52428, 0));
    assert_eq!(a.x(), fx(1.0));
    assert_eq!(a.y(), fx(2.0));
    assert_eq!(a.z(), fx(3.0));
}

#[test]
fn unit_vector_of_zero_is_zero() {
    assert_eq!(v3(0.0, 0.0, 0.0).unit_vector(), v3(0.0, 0.0, 0.0));
}

#[test]
fn colour_bytes_are_gamma_corrected() {
    // one sample of 0.25 becomes 0.5 after the square root
    assert_eq!(v3(0.25, 0.0, 1.0).to_rgb(1), vec![128, 0, 255]);
    // four samples summing to one average to 0.25
    assert_eq!(v3(1.0, 1.0, 1.0).to_rgb(4), vec![128, 128, 128]);
    // values above one and below zero are held in range
    assert_eq!(v3(9.0, -1.0, 0.0).to_rgb(1), vec![255, 0, 0]);
}

#[test]
fn colour_text() {
    assert_eq!(v3(0.25, 0.0, 1.0).to_string(1), "128 0 255");
    assert_eq!(v3(0.0, 0.0, 0.0).to_string(3), "0 0 0");
    assert_eq!(v3(0.01, 0.04, 0.09).to_string(1), "25 51 76");
}

#[test]
fn ray_point_at_parameter() {
    let r = Ray::new(v3(1.0, 0.0, 0.0), v3(0.0, 2.0, 0.0));
    assert_eq!(r.at(fx(1.5)), v3(1.0, 3.0, 0.0));
    assert_eq!(*r.origin(), v3(1.0, 0.0, 0.0));
    assert_eq!(*r.direction(), v3(0.0, 2.0, 0.0));
}

#[test]
fn sphere_reports_nearer_root_from_outside() {
    let s = Sphere::new(v3(0.0, 0.0, -5.0), fx(1.0), grey());
    let r = Ray::new(v3(0.0, 0.0, 0.0), v3(0.0, 0.0, -1.0));
    let mut rec = HitRecord::new();
    assert!(s.hit(r, fx(0.001), LIMIT, &mut rec));
    assert_eq!(rec.get_t(), Some(fx(4.0)));
    assert_eq!(rec.get_p(), Some(v3(0.0, 0.0, -4.0)));
    assert_eq!(rec.get_normal(), Some(v3(0.0, 0.0, 1.0)));
    assert_eq!(rec.get_front_face(), Some(true));
    assert_eq!(rec.material, Some(grey()));
}

#[test]
fn sphere_hit_point_lies_on_surface() {
    let s = Sphere::new(v3(1.0, 2.0, -6.0), fx(1.5), grey());
    let r = Ray::new(v3(0.2, 0.1, 0.0), v3(0.15, 0.3, -1.0));
    let mut rec = HitRecord::new();
    assert!(s.hit(r, fx(0.001), LIMIT, &mut rec));
    let p = rec.p.unwrap();
    let dist = to_f(p.sub(v3(1.0, 2.0, -6.0)).length());
    assert!((dist - 1.5).abs() < 0.001, "distance {}", dist);
    // the smaller root: the point faces the ray's origin
    let t = to_f(rec.t.unwrap());
    let far_side = Sphere::new(v3(1.0, 2.0, -6.0), fx(1.5), grey());
    let mut rec2 = HitRecord::new();
    assert!(far_side.hit(r, rec.t.unwrap() + 1, LIMIT, &mut rec2));
    assert!(to_f(rec2.t.unwrap()) > t);
}

#[test]
fn sphere_from_inside_reports_far_root() {
    let s = Sphere::new(v3(0.0, 0.0, 0.0), fx(2.0), grey());
    let r = Ray::new(v3(0.0, 0.0, 0.0), v3(1.0, 0.0, 0.0));
    let mut rec = HitRecord::new();
    assert!(s.hit(r, fx(0.001), LIMIT, &mut rec));
    assert_eq!(rec.t, Some(fx(2.0)));
    // the ray meets the back of the surface: the normal is turned around
    assert_eq!(rec.front_face, Some(false));
    assert_eq!(rec.normal, Some(v3(-1.0, 0.0, 0.0)));
}

#[test]
fn sphere_miss_leaves_record_alone() {
    let s = Sphere::new(v3(0.0, 5.0, -5.0), fx(1.0), grey());
    let r = Ray::new(v3(0.0, 0.0, 0.0), v3(0.0, 0.0, -1.0));
    let mut rec = HitRecord::new();
    assert!(!s.hit(r, fx(0.001), LIMIT, &mut rec));
    assert_eq!(rec, HitRecord::new());
    // out of range
    let s2 = Sphere::new(v3(0.0, 0.0, -5.0), fx(1.0), grey());
    assert!(!s2.hit(r, fx(0.001), fx(3.0), &mut rec));
    assert_eq!(rec, HitRecord::new());
}

#[test]
fn triangle_hit_inside_and_miss_outside() {
    let t = Triangle::new(v3(-1.0, -1.0, -2.0), v3(1.0, -1.0, -2.0), v3(0.0, 1.0, -2.0), grey(), false);
    assert_eq!(t.normal, v3(0.0, 0.0, 1.0));
    let mut rec = HitRecord::new();
    assert!(t.hit(Ray::new(v3(0.0, 0.0, 0.0), v3(0.0, 0.0, -1.0)), fx(0.001), LIMIT, &mut rec));
    assert_eq!(rec.t, Some(fx(2.0)));
    assert_eq!(rec.p, Some(v3(0.0, 0.0, -2.0)));
    assert_eq!(rec.normal, Some(v3(0.0, 0.0, 1.0)));
    let mut rec2 = HitRecord::new();
    assert!(!t.hit(Ray::new(v3(0.0, 0.0, 0.0), v3(0.9, 0.9, -1.0)), fx(0.001), LIMIT, &mut rec2));
    assert_eq!(rec2, HitRecord::new());
}

#[test]
fn triangle_back_face_culling() {
    let culled = Triangle::new(v3(-1.0, -1.0, -2.0), v3(0.0, 1.0, -2.0), v3(1.0, -1.0, -2.0), grey(), true);
    let open = Triangle::new(v3(-1.0, -1.0, -2.0), v3(0.0, 1.0, -2.0), v3(1.0, -1.0, -2.0), grey(), false);
    let r = Ray::new(v3(0.0, 0.0, 0.0), v3(0.0, 0.0, -1.0));
    let mut rec = HitRecord::new();
    assert!(!culled.hit(r, fx(0.001), LIMIT, &mut rec));
    assert!(open.hit(r, fx(0.001), LIMIT, &mut rec));
    // seen from behind, the stored normal still faces the ray
    assert_eq!(rec.front_face, Some(false));
    assert_eq!(rec.normal, Some(v3(0.0, 0.0, 1.0)));
}

#[test]
fn triangle_barycentric_edges() {
    let t = Triangle::new(v3(0.0, 0.0, -1.0), v3(1.0, 0.0, -1.0), v3(0.0, 1.0, -1.0), grey(), false);
    let r = Ray::new(v3(0.25, 0.25, 0.0), v3(0.0, 0.0, -1.0));
    let mut rec = HitRecord::new();
    assert!(t.hit(r, fx(0.001), LIMIT, &mut rec));
    let r2 = Ray::new(v3(0.75, 0.5, 0.0), v3(0.0, 0.0, -1.0));
    assert!(!t.hit(r2, fx(0.001), LIMIT, &mut rec));
    let r3 = Ray::new(v3(-0.1, 0.5, 0.0), v3(0.0, 0.0, -1.0));
    assert!(!t.hit(r3, fx(0.001), LIMIT, &mut rec));
}

#[test]
fn front_face_for_many_rays() {
    let shapes = vec![
        Primitive::Sphere(Sphere::new(v3(0.0, 0.0, -3.0), fx(1.0), grey())),
        Primitive::Triangle(Triangle::new(v3(-2.0, -2.0, -2.0), v3(2.0, -2.0, -2.0), v3(0.0, 2.0, -2.0), grey(), false)),
        Primitive::Cube(Cube::new(v3(-0.5, -0.5, -4.0), v3(0.5, 0.5, -3.0), grey())),
    ];
    for shape in &shapes {
        for i in 0..9 {
            for j in 0..9 {
                let d = v3(-0.4 + 0.1 * i as f64, -0.4 + 0.1 * j as f64, -1.0);
                for origin in [v3(0.0, 0.0, 0.0), v3(0.0, 0.0, -3.0)] {
                    let r = Ray::new(origin, d);
                    let mut rec = HitRecord::new();
                    if shape.hit(r, fx(0.001), LIMIT, &mut rec) {
                        assert!(d.dot(rec.normal.unwrap()) <= 0);
                    }
                }
            }
        }
    }
}

#[test]
fn scene_reports_nearer_of_two_spheres() {
    let near_mat = Material::Lambertian(v3(1.0, 0.0, 0.0));
    let far_mat = Material::Metal(v3(0.0, 1.0, 0.0), fx(0.1));
    let r = Ray::new(v3(0.0, 0.0, 0.0), v3(0.0, 0.0, -1.0));
    for near_first in [true, false] {
        let mut world = Hittables::new();
        let near = Primitive::Sphere(Sphere::new(v3(0.0, 0.0, -3.0), fx(1.0), near_mat));
        let far = Primitive::Sphere(Sphere::new(v3(0.0, 0.0, -8.0), fx(1.0), far_mat));
        if near_first {
            world.push(near);
            world.push(far);
        } else {
            world.push(far);
            world.push(near);
        }
        let mut rec = HitRecord::new();
        assert!(world.hit(r, fx(0.001), LIMIT, &mut rec));
        assert_eq!(rec.t, Some(fx(2.0)));
        assert_eq!(rec.material, Some(near_mat));
    }
}

#[test]
fn empty_scene_misses() {
    let world = Hittables::new();
    let mut rec = HitRecord::new();
    assert!(!world.hit(Ray::new(v3(0.0, 0.0, 0.0), v3(0.0, 0.0, -1.0)), fx(0.001), LIMIT, &mut rec));
}

#[test]
fn rectangle_reports_nearest_triangle() {
    let rect = Rectangle::new(
        v3(-1.0, -1.0, -2.0),
        v3(1.0, -1.0, -2.0),
        v3(-1.0, 1.0, -2.0),
        v3(1.0, 1.0, -2.0),
        grey(),
        false,
    );
    assert_eq!(rect.triangles.len(), 2);
    let mut rec = HitRecord::new();
    assert!(rect.hit(Ray::new(v3(0.5, 0.5, 0.0), v3(0.0, 0.0, -1.0)), fx(0.001), LIMIT, &mut rec));
    assert_eq!(rec.t, Some(fx(2.0)));
    assert!(rect.hit(Ray::new(v3(-0.5, -0.5, 0.0), v3(0.0, 0.0, -1.0)), fx(0.001), LIMIT, &mut rec));
    assert!(!rect.hit(Ray::new(v3(1.5, 0.0, 0.0), v3(0.0, 0.0, -1.0)), fx(0.001), LIMIT, &mut rec));
}

#[test]
fn cube_reports_nearest_face() {
    let cube = Cube::new(v3(-1.0, -1.0, -4.0), v3(1.0, 1.0, -2.0), grey());
    assert_eq!(cube.squares.len(), 6);
    let mut rec = HitRecord::new();
    assert!(cube.hit(Ray::new(v3(0.2, 0.3, 0.0), v3(0.0, 0.0, -1.0)), fx(0.001), LIMIT, &mut rec));
    assert_eq!(rec.t, Some(fx(2.0)));
    assert_eq!(rec.normal, Some(v3(0.0, 0.0, 1.0)));
    // from inside, the nearest wall is hit
    assert!(cube.hit(Ray::new(v3(0.0, 0.0, -3.0), v3(1.0, 0.0, 0.0)), fx(0.001), LIMIT, &mut rec));
    assert_eq!(rec.t, Some(fx(1.0)));
    assert_eq!(rec.p, Some(v3(1.0, 0.0, -3.0)));
}

#[test]
fn hit_record_setters() {
    let mut rec = HitRecord::new();
    let r = Ray::new(v3(0.0, 0.0, 0.0), v3(0.0, 0.0, -1.0));
    rec.set_face_normal(r, v3(0.0, 0.0, -1.0));
    assert_eq!(rec.front_face, Some(false));
    assert_eq!(rec.normal, Some(v3(0.0, 0.0, 1.0)));
    rec.set_face_normal(r, v3(0.0, 0.0, 1.0));
    assert_eq!(rec.front_face, Some(true));
    let mut other = HitRecord::new();
    other.set_rec(&rec);
    assert_eq!(other, rec);
}

#[test]
fn well_formedness_check() {
    let mut world = Hittables::new();
    assert!(world.is_well_formed());
    world.push(Primitive::Triangle(Triangle::new(v3(0.0, 0.0, 0.0), v3(1.0, 0.0, 0.0), v3(0.0, 1.0, 0.0), grey(), false)));
    world.push(Primitive::Cube(Cube::new(v3(0.0, 0.0, 0.0), v3(1.0, 1.0, 1.0), grey())));
    assert!(world.is_well_formed());
    let mut bad = Triangle::new(v3(0.0, 0.0, 0.0), v3(1.0, 0.0, 0.0), v3(0.0, 1.0, 0.0), grey(), false);
    bad.normal = Vec3::new(0, 0, i64::MAX);
    assert!(!bad.is_well_formed());
    world.push(Primitive::Triangle(bad));
    assert!(!world.is_well_formed());
}

#[test]
fn unit_cube_seen_from_above_z() {
    let cube = Cube::new(v3(0.0, 0.0, 0.0), v3(1.0, 1.0, 1.0), grey());
    let r = Ray::new(v3(0.25, 0.25, 5.0), v3(0.0, 0.0, -1.0));
    let mut rec = HitRecord::new();
    assert!(cube.hit(r, fx(0.001), LIMIT, &mut rec));
    assert_eq!(rec.t, Some(fx(4.0)));
    assert_eq!(rec.p, Some(v3(0.25, 0.25, 1.0)));
    assert_eq!(rec.normal, Some(v3(0.0, 0.0, 1.0)));
}
