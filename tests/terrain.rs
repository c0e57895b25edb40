use raytracer::colour_map::{ColourData, ColourMap};
use raytracer::hittables::Primitive;
use raytracer::material::Material;
use raytracer::terrain::{Noise, Terrain};
use raytracer::vec3::Vec3;

fn fx(v: f64) -> i64 {
    (v * 65536.0).round() as i64
}

fn v3(x: f64, y: f64, z: f64) -> Vec3 {
    Vec3::new(fx(x), fx(y), fx(z))
}

#[test]
fn default_colour_map_thresholds() {
    let map = ColourMap::new_default();
    assert_eq!(map.to_colour(fx(0.9)), v3(1.0, 1.0, 1.0));
    assert_eq!(map.to_colour(fx(0.5)), Vec3::new(26214, 32768, 32768));
    assert_eq!(map.to_colour(fx(0.0)), Vec3::new(13107, 58982, 26214));
    assert_eq!(map.to_colour(fx(-0.6)), Vec3::new(3277, 19661, 55706));
    assert_eq!(map.to_colour(fx(-0.9)), Vec3::new(3277, 9830, 39322));
    // a value on a threshold takes that threshold's colour
    assert_eq!(map.to_colour(fx(0.75)), v3(1.0, 1.0, 1.0));
}

#[test]
fn colour_map_picks_highest_threshold_in_any_order() {
    let map = ColourMap::new(
        vec![
            ColourData { cutoff: fx(-0.5), colour: v3(0.0, 0.0, 1.0) },
            ColourData { cutoff: fx(0.5), colour: v3(1.0, 0.0, 0.0) },
            ColourData { cutoff: fx(0.0), colour: v3(0.0, 1.0, 0.0) },
        ],
        v3(0.1, 0.1, 0.1),
    );
    assert_eq!(map.to_colour(fx(0.7)), v3(1.0, 0.0, 0.0));
    assert_eq!(map.to_colour(fx(0.2)), v3(0.0, 1.0, 0.0));
    assert_eq!(map.to_colour(fx(-0.2)), v3(0.0, 0.0, 1.0));
    assert_eq!(map.to_colour(fx(-0.7)), v3(0.1, 0.1, 0.1));
    let empty = ColourMap::new(vec![], v3(0.3, 0.3, 0.3));
    assert_eq!(empty.to_colour(0), v3(0.3, 0.3, 0.3));
}

#[test]
fn noise_samples_rescaled_to_unit_range() {
    let n = Noise::from_samples(vec![0, 10, 5, 10]);
    assert_eq!(n.noise_map, vec![fx(-1.0), fx(1.0), 0, fx(1.0)]);
    let empty = Noise::from_samples(vec![]);
    assert!(empty.noise_map.is_empty());
}

#[test]
fn flat_grid_vertices() {
    let t = Terrain::new(fx(4.0), fx(2.0), 2);
    assert_eq!(t.vertex_resolution, 2);
    assert_eq!(t.ground_points.len(), 9);
    assert_eq!(t.ground_points[0], v3(-2.0, 0.0, -1.0));
    assert_eq!(t.ground_points[2], v3(2.0, 0.0, -1.0));
    assert_eq!(t.ground_points[4], v3(0.0, 0.0, 0.0));
    assert_eq!(t.ground_points[8], v3(2.0, 0.0, 1.0));
}

#[test]
fn two_triangles_per_cell() {
    let mut t = Terrain::new(fx(2.0), fx(2.0), 2);
    let world = t.get_triangles(None, None, fx(1.0));
    assert_eq!(world.hittables.len(), 8);
    assert!(world.lights.is_empty());
    match &world.hittables[0] {
        Primitive::Triangle(tri) => {
            assert_eq!(tri.v0, v3(0.0, 0.0, -1.0));
            assert_eq!(tri.v1, v3(-1.0, 0.0, -1.0));
            assert_eq!(tri.v2, v3(-1.0, 0.0, 0.0));
            // faces upward
            assert_eq!(tri.normal, v3(0.0, 1.0, 0.0));
            assert_eq!(tri.material, Material::Lambertian(Vec3::new(13107, 52429, 26214)));
        },
        _ => panic!("expected a triangle"),
    }
    match &world.hittables[1] {
        Primitive::Triangle(tri) => {
            assert_eq!(tri.v0, v3(-1.0, 0.0, 0.0));
            assert_eq!(tri.v1, v3(0.0, 0.0, 0.0));
            assert_eq!(tri.v2, v3(0.0, 0.0, -1.0));
            assert_eq!(tri.normal, v3(0.0, 1.0, 0.0));
        },
        _ => panic!("expected a triangle"),
    }
}

#[test]
fn heights_and_colours_applied() {
    let mut t = Terrain::new(fx(2.0), fx(2.0), 1);
    let noise = Noise { noise_map: vec![fx(1.0), fx(1.0), fx(1.0), fx(-1.0)] };
    let world = t.get_triangles(Some(noise), Some(ColourMap::new_default()), fx(2.0));
    assert_eq!(t.ground_points[0].y, fx(2.0));
    assert_eq!(t.ground_points[3].y, fx(-2.0));
    assert_eq!(world.hittables.len(), 2);
    match (&world.hittables[0], &world.hittables[1]) {
        (Primitive::Triangle(a), Primitive::Triangle(b)) => {
            // mean height 1 is snow; mean height 1/3 is rock
            assert_eq!(a.material, Material::Lambertian(v3(1.0, 1.0, 1.0)));
            assert_eq!(b.material, Material::Lambertian(Vec3::new(26214, 32768, 32768)));
        },
        _ => panic!("expected triangles"),
    }
}
