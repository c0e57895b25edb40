use raytracer::camera::Camera;
use raytracer::hittables::{Hittables, Primitive};
use raytracer::material::Material;
use raytracer::render::{merge_band, render_band, sample_pixel};
use raytracer::scheduler::{create_work_list, Work};
use raytracer::sphere::Sphere;
use raytracer::vec3::Vec3;

fn fx(v: f64) -> i64 {
    (v * 65536.0).round() as i64
}

fn v3(x: f64, y: f64, z: f64) -> Vec3 {
    Vec3::new(fx(x), fx(y), fx(z))
}

fn check_partition(width: i32, height: i32, workers: usize) {
    let list = create_work_list(width, height, workers);
    assert_eq!(list.len(), workers);
    let mut seen = vec![0u32; (width * height) as usize];
    for band in &list {
        let mut previous: Option<(usize, usize)> = None;
        for w in band {
            assert!(w.x < width as usize && w.y < height as usize);
            assert!(w.colour.is_none());
            seen[w.x + w.y * width as usize] += 1;
            if let Some((px, py)) = previous {
                assert!((w.y, w.x) > (py, px), "row-major order");
            }
            previous = Some((w.x, w.y));
        }
    }
    assert!(seen.iter().all(|&n| n == 1), "{}x{} over {}", width, height, workers);
}

#[test]
fn partition_covers_grid_once() {
    for (w, h, n) in [(4, 4, 1), (4, 4, 2), (3, 7, 3), (5, 10, 4), (2, 3, 8), (1, 1, 16), (0, 5, 2), (6, 0, 3)] {
        check_partition(w, h, n);
    }
}

#[test]
fn bands_are_contiguous_rows() {
    let list = create_work_list(3, 10, 4);
    let rows: Vec<usize> = list.iter().map(|b| b.len() / 3).collect();
    // ceil(10 / 4) = 3 rows per band; the last band is short
    assert_eq!(rows, vec![3, 3, 3, 1]);
    assert_eq!((list[1][0].x, list[1][0].y), (0, 3));
    assert_eq!((list[3][2].x, list[3][2].y), (2, 9));
}

#[test]
fn more_workers_than_rows() {
    let list = create_work_list(2, 3, 8);
    let sizes: Vec<usize> = list.iter().map(|b| b.len()).collect();
    assert_eq!(sizes, vec![2, 2, 2, 0, 0, 0, 0, 0]);
}

fn scene() -> (Hittables, Camera) {
    let mut world = Hittables::new();
    world.push(Primitive::Sphere(Sphere::new(v3(0.0, 0.0, 0.0), fx(1.0), Material::Lambertian(v3(0.5, 0.5, 0.5)))));
    let cam = Camera::new(v3(0.0, 0.0, 3.0), v3(0.0, 0.0, 0.0), v3(0.0, 1.0, 0.0), fx(1.0), fx(1.0), 0, fx(3.0));
    (world, cam)
}

#[test]
fn bands_render_and_merge_into_place() {
    let (world, cam) = scene();
    let (w, h) = (4, 3);
    let list = create_work_list(w, h, 2);
    let mut image = vec![vec![7u8, 7, 7]; (w * h) as usize];
    for band in &list {
        let done = render_band(band, 2, w, h, 3, &cam, &world);
        assert_eq!(done.len(), band.len());
        for (a, b) in done.iter().zip(band.iter()) {
            assert_eq!((a.x, a.y), (b.x, b.y));
            assert_eq!(a.colour.as_ref().unwrap().len(), 3);
        }
        merge_band(&mut image, w as usize, &done);
    }
    assert!(image.iter().all(|px| px.len() == 3));
}

#[test]
fn merge_writes_only_its_pixels() {
    let mut image = vec![vec![0u8, 0, 0]; 6];
    let band = vec![
        Work { x: 1, y: 0, colour: Some(vec![1, 2, 3]) },
        Work { x: 2, y: 1, colour: Some(vec![4, 5, 6]) },
    ];
    merge_band(&mut image, 3, &band);
    assert_eq!(image[1], vec![1, 2, 3]);
    assert_eq!(image[5], vec![4, 5, 6]);
    assert_eq!(image[0], vec![0, 0, 0]);
    assert_eq!(image[4], vec![0, 0, 0]);
}

#[test]
fn pixel_sum_grows_with_samples() {
    let (world, cam) = scene();
    // a corner pixel sees only sky: each sample is at least half a unit per channel
    let one = sample_pixel(1, 0, 0, 2, 2, 1, &cam, &world);
    assert!(one.z >= fx(0.99));
    let four = sample_pixel(4, 0, 0, 2, 2, 1, &cam, &world);
    assert!(four.z >= fx(3.9));
    assert_eq!(sample_pixel(0, 0, 0, 2, 2, 1, &cam, &world), v3(0.0, 0.0, 0.0));
}
