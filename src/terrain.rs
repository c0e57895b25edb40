//! Height-field terrain: a regular grid displaced by height samples and
//! emitted as two triangles per cell.

use crate::camera::HALF;
use crate::colour_map::{colour_lookup, ColourMap};
use crate::fixed::{fadd, fdiv, fmul, fneg, fsub, fx_add, fx_div, fx_mul, fx_neg, fx_sub, SCALE};
use crate::hittable::Hittable;
use crate::hittables::{Hittables, Primitive};
use crate::material::Material;
use crate::triangle::Triangle;
use crate::vec3::Vec3;
use vstd::arithmetic::div_mod::lemma_fundamental_div_mod_converse;
use vstd::prelude::*;

verus! {

/// Height samples in `[-1, 1]`, row-major over the terrain's vertices.
pub struct Noise {
    pub noise_map: Vec<i64>,
}

/// Smallest sample, or `i64::MAX` for none.
pub open spec fn seq_min(s: Seq<i64>) -> i64
    decreases s.len(),
{
    if s.len() == 0 {
        i64::MAX
    } else if s.last() < seq_min(s.drop_last()) {
        s.last()
    } else {
        seq_min(s.drop_last())
    }
}

/// Largest sample, or `i64::MIN` for none.
pub open spec fn seq_max(s: Seq<i64>) -> i64
    decreases s.len(),
{
    if s.len() == 0 {
        i64::MIN
    } else if s.last() > seq_max(s.drop_last()) {
        s.last()
    } else {
        seq_max(s.drop_last())
    }
}

/// `v` mapped linearly so that `lo` goes to -1 and `hi` to 1.
pub open spec fn normalize(v: int, lo: int, hi: int) -> int {
    fsub(fmul(fdiv(fsub(v, lo), fsub(hi, lo)), 2 * SCALE), SCALE as int)
}

impl Noise {
    /// Rescales raw samples to `[-1, 1]` by their smallest and largest.
    pub fn from_samples(samples: Vec<i64>) -> (r: Noise)
        ensures
            r.noise_map@.len() == samples@.len(),
            forall|k: int|
                0 <= k < samples@.len() ==> #[trigger] r.noise_map@[k] == normalize(
                    samples@[k] as int,
                    seq_min(samples@) as int,
                    seq_max(samples@) as int,
                ),
    {
        let mut lowest: i64 = i64::MAX;
        let mut highest: i64 = i64::MIN;
        let mut k: usize = 0;
        while k < samples.len()
            invariant
                k <= samples@.len(),
                lowest == seq_min(samples@.take(k as int)),
                highest == seq_max(samples@.take(k as int)),
            decreases samples@.len() - k,
        {
            proof {
                assert(samples@.take(k as int + 1).drop_last() =~= samples@.take(k as int));
            }
            if samples[k] < lowest {
                lowest = samples[k];
            }
            if samples[k] > highest {
                highest = samples[k];
            }
            k = k + 1;
        }
        proof {
            assert(samples@.take(samples@.len() as int) =~= samples@);
        }
        let span = fx_sub(highest, lowest);
        let mut noise_map: Vec<i64> = Vec::new();
        let mut k: usize = 0;
        while k < samples.len()
            invariant
                k <= samples@.len(),
                lowest == seq_min(samples@),
                highest == seq_max(samples@),
                span == fsub(highest as int, lowest as int),
                noise_map@.len() == k,
                forall|j: int|
                    0 <= j < k ==> #[trigger] noise_map@[j] == normalize(samples@[j] as int, lowest as int, highest as int),
            decreases samples@.len() - k,
        {
            let v = fx_sub(fx_mul(fx_div(fx_sub(samples[k], lowest), span), 2 * SCALE), SCALE);
            noise_map.push(v);
            k = k + 1;
        }
        Noise { noise_map }
    }
}

pub struct Terrain {
    pub ground_points: Vec<Vec3>,
    pub vertex_resolution: usize,
}

/// Vertex `(i, j)` of a grid with `res` cells a side: row `i`, column `j`.
pub open spec fn vertex_at(points: Seq<Vec3>, res: int, i: int, j: int) -> Vec3 {
    points[i * (res + 1) + j]
}

/// The flat grid's vertex `(i, j)`: columns step along x, rows along z,
/// centred on the origin.
pub open spec fn grid_point(width: int, depth: int, res: int, i: int, j: int) -> Vec3 {
    Vec3 {
        x: fadd(fneg(fmul(width, HALF as int)), fmul(j * SCALE, fdiv(width, res * SCALE))) as i64,
        y: 0,
        z: fadd(fneg(fmul(depth, HALF as int)), fmul(i * SCALE, fdiv(depth, res * SCALE))) as i64,
    }
}

/// The vertices after the heights are applied: each `y` is its sample times
/// `height_scale`.
pub open spec fn raised(points: Seq<Vec3>, noise: Option<Noise>, height_scale: int) -> Seq<Vec3> {
    match noise {
        None => points,
        Some(n) => Seq::new(
            points.len(),
            |k: int| Vec3 { x: points[k].x, y: fmul(n.noise_map@[k] as int, height_scale) as i64, z: points[k].z },
        ),
    }
}

/// Colour of a triangle with vertices `a`, `b`, `c`: looked up by the mean
/// of their heights over `height_scale`, or a plain green without a map.
pub open spec fn cell_colour(map: Option<ColourMap>, a: Vec3, b: Vec3, c: Vec3, height_scale: int) -> Vec3 {
    match map {
        None => Vec3 { x: 13107, y: 52429, z: 26214 },
        Some(m) => colour_lookup(
            m.colour_vec@,
            m.default_colour,
            fdiv(
                fadd(fadd(fdiv(a.y as int, height_scale), fdiv(b.y as int, height_scale)), fdiv(c.y as int, height_scale)),
                3 * SCALE,
            ),
        ),
    }
}

/// A diffuse triangle coloured by `cell_colour`.
pub open spec fn cell_triangle(map: Option<ColourMap>, a: Vec3, b: Vec3, c: Vec3, height_scale: int) -> Primitive {
    Primitive::Triangle(
        Triangle::new_spec(a, b, c, Material::Lambertian(cell_colour(map, a, b, c, height_scale)), false),
    )
}

/// First triangle of cell `(i, j)`.
pub open spec fn lower_triangle(points: Seq<Vec3>, res: int, i: int, j: int, map: Option<ColourMap>, height_scale: int) -> Primitive {
    cell_triangle(
        map,
        vertex_at(points, res, i, j + 1),
        vertex_at(points, res, i, j),
        vertex_at(points, res, i + 1, j),
        height_scale,
    )
}

/// Second triangle of cell `(i, j)`.
pub open spec fn upper_triangle(points: Seq<Vec3>, res: int, i: int, j: int, map: Option<ColourMap>, height_scale: int) -> Primitive {
    cell_triangle(
        map,
        vertex_at(points, res, i + 1, j),
        vertex_at(points, res, i + 1, j + 1),
        vertex_at(points, res, i, j + 1),
        height_scale,
    )
}

fn colour_of(map: &Option<ColourMap>, a: Vec3, b: Vec3, c: Vec3, height_scale: i64) -> (r: Vec3)
    ensures
        r == cell_colour(*map, a, b, c, height_scale as int),
{
    match map {
        None => Vec3::new(13107, 52429, 26214),
        Some(m) => {
            let height = fx_div(
                fx_add(fx_add(fx_div(a.y, height_scale), fx_div(b.y, height_scale)), fx_div(c.y, height_scale)),
                3 * SCALE,
            );
            m.to_colour(height)
        },
    }
}

proof fn lemma_grid_index(res: int, i: int, j: int)
    requires
        0 <= i <= res,
        0 <= j <= res,
    ensures
        0 <= i * (res + 1) + j < (res + 1) * (res + 1),
        (i * (res + 1) + j) / (res + 1) == i,
        (i * (res + 1) + j) % (res + 1) == j,
{
    assert(0 <= i * (res + 1) + j < (res + 1) * (res + 1)) by (nonlinear_arith)
        requires
            0 <= i <= res,
            0 <= j <= res,
    ;
    lemma_fundamental_div_mod_converse(i * (res + 1) + j, res + 1, i, j);
}

impl Terrain {
    /// A flat `width × depth` grid of `res × res` cells in the `y = 0`
    /// plane, centred on the origin.
    pub fn new(width: i64, depth: i64, res: usize) -> (r: Terrain)
        requires
            (res + 1) * (res + 1) <= usize::MAX,
        ensures
            r.vertex_resolution == res,
            r.ground_points@.len() == (res + 1) * (res + 1),
            forall|i: int, j: int|
                0 <= i <= res && 0 <= j <= res ==> #[trigger] vertex_at(r.ground_points@, res as int, i, j)
                    == grid_point(width as int, depth as int, res as int, i, j),
    {
        proof {
            assert(res < 0x1_0000_0000) by (nonlinear_arith)
                requires
                    (res + 1) * (res + 1) <= usize::MAX,
                    res >= 0,
            ;
            assert(res + 1 <= (res + 1) * (res + 1)) by (nonlinear_arith)
                requires
                    res >= 0,
            ;
        }
        let r1 = res + 1;
        let step_x = fx_div(width, res as i64 * SCALE);
        let step_z = fx_div(depth, res as i64 * SCALE);
        let left = fx_neg(fx_mul(width, HALF));
        let back = fx_neg(fx_mul(depth, HALF));
        let mut verts: Vec<Vec3> = Vec::new();
        let mut i: usize = 0;
        while i < r1
            invariant
                r1 == res + 1,
                res < 0x1_0000_0000,
                i <= r1,
                verts@.len() == i * r1,
                step_x == fdiv(width as int, res * SCALE),
                step_z == fdiv(depth as int, res * SCALE),
                left == fneg(fmul(width as int, HALF as int)),
                back == fneg(fmul(depth as int, HALF as int)),
                forall|k: int|
                    0 <= k < verts@.len() ==> #[trigger] verts@[k] == grid_point(
                        width as int,
                        depth as int,
                        res as int,
                        k / (r1 as int),
                        k % (r1 as int),
                    ),
            decreases r1 - i,
        {
            let z = fx_add(back, fx_mul(i as i64 * SCALE, step_z));
            let mut j: usize = 0;
            while j < r1
                invariant
                    r1 == res + 1,
                    res < 0x1_0000_0000,
                    i < r1,
                    j <= r1,
                    verts@.len() == i * r1 + j,
                    step_x == fdiv(width as int, res * SCALE),
                    left == fneg(fmul(width as int, HALF as int)),
                    z == fadd(back as int, fmul(i * SCALE, step_z as int)),
                    back == fneg(fmul(depth as int, HALF as int)),
                    step_z == fdiv(depth as int, res * SCALE),
                    forall|k: int|
                        0 <= k < verts@.len() ==> #[trigger] verts@[k] == grid_point(
                            width as int,
                            depth as int,
                            res as int,
                            k / (r1 as int),
                            k % (r1 as int),
                        ),
                decreases r1 - j,
            {
                let x = fx_add(left, fx_mul(j as i64 * SCALE, step_x));
                proof {
                    lemma_grid_index(res as int, i as int, j as int);
                }
                verts.push(Vec3::new(x, 0, z));
                j = j + 1;
            }
            proof {
                assert(i * r1 + r1 == (i + 1) * r1) by (nonlinear_arith);
            }
            i = i + 1;
        }
        proof {
            assert forall|i: int, j: int| 0 <= i <= res && 0 <= j <= res implies #[trigger] vertex_at(
                verts@,
                res as int,
                i,
                j,
            ) == grid_point(width as int, depth as int, res as int, i, j) by {
                lemma_grid_index(res as int, i, j);
            }
        }
        Terrain { ground_points: verts, vertex_resolution: res }
    }

    /// Applies the heights, if any, then emits two triangles per cell, row
    /// by row, coloured by `colour_map`.
    pub fn get_triangles(&mut self, noise: Option<Noise>, colour_map: Option<ColourMap>, height_scale: i64) -> (r: Hittables)
        requires
            old(self).ground_points@.len() == (old(self).vertex_resolution + 1) * (old(self).vertex_resolution + 1),
            noise is Some ==> noise.unwrap().noise_map@.len() >= old(self).ground_points@.len(),
        ensures
            final(self).vertex_resolution == old(self).vertex_resolution,
            final(self).ground_points@ == raised(old(self).ground_points@, noise, height_scale as int),
            r.lights@.len() == 0,
            r.hittables@.len() == 2 * (old(self).vertex_resolution * old(self).vertex_resolution),
            forall|i: int, j: int|
                0 <= i < old(self).vertex_resolution && 0 <= j < old(self).vertex_resolution ==> {
                    &&& r.hittables@[2 * (i * old(self).vertex_resolution + j)] == #[trigger] lower_triangle(
                        final(self).ground_points@,
                        old(self).vertex_resolution as int,
                        i,
                        j,
                        colour_map,
                        height_scale as int,
                    )
                    &&& r.hittables@[2 * (i * old(self).vertex_resolution + j) + 1] == upper_triangle(
                        final(self).ground_points@,
                        old(self).vertex_resolution as int,
                        i,
                        j,
                        colour_map,
                        height_scale as int,
                    )
                },
            r.well_formed(),
    {
        let res = self.vertex_resolution;
        let len = self.ground_points.len();
        let ghost start = self.ground_points@;
        let ghost n = res as int;
        proof {
            assert(res + 1 <= (res + 1) * (res + 1)) by (nonlinear_arith)
                requires
                    res >= 0,
            ;
        }
        let r1 = res + 1;
        match &noise {
            Some(heights) => {
                let mut k: usize = 0;
                while k < self.ground_points.len()
                    invariant
                        self.ground_points@.len() == start.len(),
                        self.vertex_resolution == res,
                        heights.noise_map@.len() >= start.len(),
                        noise == Some(*heights),
                        k <= start.len(),
                        forall|m: int|
                            0 <= m < k ==> #[trigger] self.ground_points@[m] == raised(start, noise, height_scale as int)[m],
                        forall|m: int| k <= m < start.len() ==> #[trigger] self.ground_points@[m] == start[m],
                    decreases start.len() - k,
                {
                    let p = self.ground_points[k];
                    self.ground_points.set(k, Vec3::new(p.x, fx_mul(heights.noise_map[k], height_scale), p.z));
                    k = k + 1;
                }
                proof {
                    assert(self.ground_points@ =~= raised(start, noise, height_scale as int));
                }
            },
            None => {},
        }
        let ghost pts = self.ground_points@;
        let mut hittables: Vec<Primitive> = Vec::new();
        let mut i: usize = 0;
        while i < res
            invariant
                i <= res,
                r1 == res + 1,
                n == res,
                self.ground_points@ == pts,
                self.vertex_resolution == res,
                pts.len() == (res + 1) * (res + 1),
                pts.len() == len,
                hittables@.len() == 2 * (i * n),
                all_triangles_well_formed(hittables@),
                forall|a: int, b: int|
                    0 <= a && 0 <= b < n && a * n + b < i * n ==> {
                        &&& hittables@[2 * (a * n + b)] == #[trigger] lower_triangle(pts, n, a, b, colour_map, height_scale as int)
                        &&& hittables@[2 * (a * n + b) + 1] == upper_triangle(pts, n, a, b, colour_map, height_scale as int)
                    },
            decreases res - i,
        {
            let mut j: usize = 0;
            while j < res
                invariant
                    i < res,
                    j <= res,
                    r1 == res + 1,
                    n == res,
                    self.ground_points@ == pts,
                    self.vertex_resolution == res,
                    pts.len() == (res + 1) * (res + 1),
                    pts.len() == len,
                    hittables@.len() == 2 * (i * n + j),
                    all_triangles_well_formed(hittables@),
                    forall|a: int, b: int|
                        0 <= a && 0 <= b < n && a * n + b < i * n + j ==> {
                            &&& hittables@[2 * (a * n + b)] == #[trigger] lower_triangle(pts, n, a, b, colour_map, height_scale as int)
                            &&& hittables@[2 * (a * n + b) + 1] == upper_triangle(pts, n, a, b, colour_map, height_scale as int)
                        },
                decreases res - j,
            {
                proof {
                    lemma_grid_index(n, i as int, j as int);
                    lemma_grid_index(n, i as int, j + 1);
                    lemma_grid_index(n, i + 1, j as int);
                    lemma_grid_index(n, i + 1, j + 1);
                }
                let i0j0 = self.ground_points[i * r1 + j];
                let i0j1 = self.ground_points[i * r1 + j + 1];
                let i1j0 = self.ground_points[(i + 1) * r1 + j];
                let i1j1 = self.ground_points[(i + 1) * r1 + j + 1];
                let colour1 = colour_of(&colour_map, i0j1, i0j0, i1j0, height_scale);
                let colour2 = colour_of(&colour_map, i1j0, i1j1, i0j1, height_scale);
                let t1 = Triangle::new(i0j1, i0j0, i1j0, Material::Lambertian(colour1), false);
                let t2 = Triangle::new(i1j0, i1j1, i0j1, Material::Lambertian(colour2), false);
                let ghost before = hittables@;
                hittables.push(Primitive::Triangle(t1));
                hittables.push(Primitive::Triangle(t2));
                proof {
                    let c = i * n + j;
                    assert(hittables@[2 * c] == lower_triangle(pts, n, i as int, j as int, colour_map, height_scale as int));
                    assert(hittables@[2 * c + 1] == upper_triangle(pts, n, i as int, j as int, colour_map, height_scale as int));
                    assert forall|a: int, b: int| 0 <= a && 0 <= b < n && a * n + b < c + 1 implies {
                        &&& hittables@[2 * (a * n + b)] == #[trigger] lower_triangle(pts, n, a, b, colour_map, height_scale as int)
                        &&& hittables@[2 * (a * n + b) + 1] == upper_triangle(pts, n, a, b, colour_map, height_scale as int)
                    } by {
                        if a * n + b < c {
                            assert(hittables@[2 * (a * n + b)] == before[2 * (a * n + b)]);
                            assert(hittables@[2 * (a * n + b) + 1] == before[2 * (a * n + b) + 1]);
                        } else {
                            lemma_fundamental_div_mod_converse(c, n, a, b);
                            lemma_fundamental_div_mod_converse(c, n, i as int, j as int);
                        }
                    }
                    assert forall|m: int| 0 <= m < hittables@.len() implies #[trigger] hittables@[m].well_formed() by {
                        if m < before.len() {
                            assert(hittables@[m] == before[m]);
                        }
                    }
                }
                j = j + 1;
            }
            proof {
                assert(i * n + n == (i + 1) * n) by (nonlinear_arith);
            }
            i = i + 1;
        }
        proof {
            assert forall|i: int, j: int| 0 <= i < n && 0 <= j < n implies {
                &&& hittables@[2 * (i * n + j)] == #[trigger] lower_triangle(pts, n, i, j, colour_map, height_scale as int)
                &&& hittables@[2 * (i * n + j) + 1] == upper_triangle(pts, n, i, j, colour_map, height_scale as int)
            } by {
                assert(i * n + j < n * n) by (nonlinear_arith)
                    requires
                        0 <= i < n,
                        0 <= j < n,
                ;
            }
        }
        Hittables { lights: Vec::new(), hittables }
    }
}

/// Every shape of the list is well formed.
pub open spec fn all_triangles_well_formed(items: Seq<Primitive>) -> bool {
    forall|m: int| 0 <= m < items.len() ==> #[trigger] items[m].well_formed()
}

} // verus!
